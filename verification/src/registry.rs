use vstd::prelude::*;
use vstd::string::*;

verus! {

/// A strongly-typed controller registry: controllers of one type, keyed by
/// route. A later put under the same key shadows the earlier one.
pub struct ControllerRegistry<T> {
    register: Vec<(String, T)>,
}

impl<T> ControllerRegistry<T> {
    /// The controller registered last under this key, if any.
    pub closed spec fn spec_get(&self, key: Seq<char>) -> Option<T> {
        Self::spec_lookup(self.register@, key)
    }

    /// Backward lookup over the registration history: the last entry whose
    /// key matches wins.
    pub closed spec fn spec_lookup(entries: Seq<(String, T)>, key: Seq<char>) -> Option<T>
        decreases entries.len(),
    {
        if entries.len() == 0 {
            None
        } else if entries.last().0@ == key {
            Some(entries.last().1)
        } else {
            Self::spec_lookup(entries.drop_last(), key)
        }
    }

    /// An empty registry: no key resolves.
    pub fn new() -> (r: ControllerRegistry<T>)
        ensures
            forall|key: Seq<char>| #[trigger] r.spec_get(key) is None,
    {
        ControllerRegistry { register: Vec::new() }
    }

    /// Registers a controller under a route key; an existing registration
    /// under the same key is shadowed and every other key is untouched.
    pub fn put(&mut self, key: &'static str, controller: T)
        ensures
            final(self).spec_get(key@) == Some(controller),
            forall|other: Seq<char>|
                other != key@ ==> #[trigger] final(self).spec_get(other) == old(self).spec_get(
                    other,
                ),
    {
        self.register.push((String::from_str(key), controller));
        proof {
            assert(self.register@.drop_last() =~= old(self).register@);
        }
    }

    /// Resolves the controller registered under a route key.
    pub fn get<'a>(&'a self, key: &'static str) -> (r: Option<&'a T>)
        ensures
            match r {
                Some(v) => self.spec_get(key@) == Some(*v),
                None => self.spec_get(key@) is None,
            },
    {
        let wanted = String::from_str(key);
        let mut i: usize = self.register.len();
        proof {
            assert(self.register@.take(self.register@.len() as int) =~= self.register@);
        }
        while i > 0
            invariant
                wanted@ == key@,
                i <= self.register@.len(),
                Self::spec_lookup(self.register@, key@) == Self::spec_lookup(
                    self.register@.take(i as int),
                    key@,
                ),
            decreases i,
        {
            i = i - 1;
            proof {
                assert(self.register@.take(i + 1).drop_last() =~= self.register@.take(i as int));
                assert(self.register@.take(i + 1).last() == self.register@[i as int]);
            }
            if self.register[i].0 == wanted {
                return Some(&self.register[i].1);
            }
        }
        proof {
            assert(self.register@.take(0) =~= Seq::<(String, T)>::empty());
        }
        None
    }
}

} // verus!
