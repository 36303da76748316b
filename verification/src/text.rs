use vstd::prelude::*;
use vstd::string::*;

verus! {

/// Relies on String::push: appends exactly the one character to the end of
/// the string.
#[verifier::external_body]
pub fn push_char(s: &mut String, c: char)
    ensures
        final(s)@ == old(s)@.push(c),
{
    s.push(c);
}

/// The decimal digit characters in order, as a spec table.
pub open spec fn spec_digit(d: nat) -> char {
    if d == 0 {
        '0'
    } else if d == 1 {
        '1'
    } else if d == 2 {
        '2'
    } else if d == 3 {
        '3'
    } else if d == 4 {
        '4'
    } else if d == 5 {
        '5'
    } else if d == 6 {
        '6'
    } else if d == 7 {
        '7'
    } else if d == 8 {
        '8'
    } else {
        '9'
    }
}

/// The decimal writing of a number, most significant digit first.
pub open spec fn spec_decimal(n: nat) -> Seq<char>
    decreases n,
{
    if n < 10 {
        seq![spec_digit(n)]
    } else {
        spec_decimal(n / 10) + seq![spec_digit(n % 10)]
    }
}

/// The digit character of one decimal digit.
fn digit_char(d: u64) -> (c: char)
    requires
        d < 10,
    ensures
        c == spec_digit(d as nat),
{
    if d == 0 {
        '0'
    } else if d == 1 {
        '1'
    } else if d == 2 {
        '2'
    } else if d == 3 {
        '3'
    } else if d == 4 {
        '4'
    } else if d == 5 {
        '5'
    } else if d == 6 {
        '6'
    } else if d == 7 {
        '7'
    } else if d == 8 {
        '8'
    } else {
        '9'
    }
}

/// The characters of a string slice, one by one.
pub fn str_to_chars(s: &str) -> (r: Vec<char>)
    ensures
        r@ == s@,
{
    let n = s.unicode_len();
    let mut r: Vec<char> = Vec::new();
    let mut i: usize = 0;
    while i < n
        invariant
            n == s@.len(),
            i <= n,
            r@ == s@.take(i as int),
        decreases n - i,
    {
        r.push(s.get_char(i));
        proof {
            assert(r@ =~= s@.take(i + 1));
        }
        i = i + 1;
    }
    proof {
        assert(s@.take(n as int) =~= s@);
    }
    r
}

/// The characters, gathered back into a string.
pub fn chars_to_string(cs: &Vec<char>) -> (r: String)
    ensures
        r@ == cs@,
{
    let mut r = String::new();
    let mut i: usize = 0;
    while i < cs.len()
        invariant
            i <= cs@.len(),
            r@ == cs@.take(i as int),
        decreases cs@.len() - i,
    {
        push_char(&mut r, cs[i]);
        proof {
            assert(r@ =~= cs@.take(i + 1));
        }
        i = i + 1;
    }
    proof {
        assert(cs@.take(cs@.len() as int) =~= cs@);
    }
    r
}

/// Whether two character sequences hold the same characters.
pub fn chars_eq(a: &Vec<char>, b: &Vec<char>) -> (r: bool)
    ensures
        r == (a@ == b@),
{
    if a.len() != b.len() {
        return false;
    }
    let mut i: usize = 0;
    while i < a.len()
        invariant
            a@.len() == b@.len(),
            i <= a@.len(),
            forall|k: int| 0 <= k < i ==> a@[k] == b@[k],
        decreases a@.len() - i,
    {
        if a[i] != b[i] {
            return false;
        }
        i = i + 1;
    }
    proof {
        assert(a@ =~= b@);
    }
    true
}

/// The white space characters, as header trimming removes them.
pub open spec fn spec_is_space(c: char) -> bool {
    let u = c as u32;
    ||| u == 0x20
    ||| (0x9 <= u && u <= 0xd)
    ||| u == 0x85
    ||| u == 0xa0
    ||| u == 0x1680
    ||| (0x2000 <= u && u <= 0x200a)
    ||| u == 0x2028
    ||| u == 0x2029
    ||| u == 0x202f
    ||| u == 0x205f
    ||| u == 0x3000
}

/// The white space predicate as a value, shared by every trimming spec.
pub open spec fn spec_space_pred() -> spec_fn(char) -> bool {
    |c: char| spec_is_space(c)
}

/// The quote predicate as a value: what quote-stripping removes.
pub open spec fn spec_quote_pred() -> spec_fn(char) -> bool {
    |c: char| c == '"'
}

/// The sequence without its longest prefix of characters satisfying the
/// predicate.
pub open spec fn spec_drop_leading(s: Seq<char>, pred: spec_fn(char) -> bool) -> Seq<char>
    decreases s.len(),
{
    if s.len() > 0 && pred(s[0]) {
        spec_drop_leading(s.drop_first(), pred)
    } else {
        s
    }
}

/// The sequence without its longest suffix of characters satisfying the
/// predicate.
pub open spec fn spec_drop_trailing(s: Seq<char>, pred: spec_fn(char) -> bool) -> Seq<char>
    decreases s.len(),
{
    if s.len() > 0 && pred(s.last()) {
        spec_drop_trailing(s.drop_last(), pred)
    } else {
        s
    }
}

/// The sequence without leading and trailing characters satisfying the
/// predicate.
pub open spec fn spec_trim_by(s: Seq<char>, pred: spec_fn(char) -> bool) -> Seq<char> {
    spec_drop_trailing(spec_drop_leading(s, pred), pred)
}

/// White space trimming, as str::trim does it.
pub open spec fn spec_trim_space(s: Seq<char>) -> Seq<char> {
    spec_trim_by(s, spec_space_pred())
}

/// Quote stripping, as trimming all matching quote characters does it.
pub open spec fn spec_trim_quotes(s: Seq<char>) -> Seq<char> {
    spec_trim_by(s, spec_quote_pred())
}

/// Whether this character is white space.
fn is_space_char(c: char) -> (r: bool)
    ensures
        r == spec_is_space(c),
{
    let u = c as u32;
    u == 0x20 || (0x9 <= u && u <= 0xd) || u == 0x85 || u == 0xa0 || u == 0x1680 || (0x2000 <= u
        && u <= 0x200a) || u == 0x2028 || u == 0x2029 || u == 0x202f || u == 0x205f || u == 0x3000
}

/// Copies the characters without leading and trailing white space.
pub fn trim_space_chars(cs: &Vec<char>) -> (r: Vec<char>)
    ensures
        r@ == spec_trim_space(cs@),
{
    trim_chars_inner(cs, false)
}

/// Copies the characters without leading and trailing quotes.
pub fn trim_quote_chars(cs: &Vec<char>) -> (r: Vec<char>)
    ensures
        r@ == spec_trim_quotes(cs@),
{
    trim_chars_inner(cs, true)
}

/// Whether the character is trimmed in the chosen mode.
spec fn spec_trim_pred(quotes: bool) -> spec_fn(char) -> bool {
    if quotes {
        spec_quote_pred()
    } else {
        spec_space_pred()
    }
}

/// Whether this character is trimmed in the chosen mode.
fn trimmed_char(c: char, quotes: bool) -> (r: bool)
    ensures
        r == spec_trim_pred(quotes)(c),
{
    if quotes {
        c == '"'
    } else {
        is_space_char(c)
    }
}

/// Trims either white space or quotes from both ends.
fn trim_chars_inner(cs: &Vec<char>, quotes: bool) -> (r: Vec<char>)
    ensures
        r@ == spec_trim_by(cs@, spec_trim_pred(quotes)),
{
    let ghost pred = spec_trim_pred(quotes);
    proof {
        assert(cs@.skip(0) =~= cs@);
    }
    let mut i: usize = 0;
    while i < cs.len() && trimmed_char(cs[i], quotes)
        invariant
            i <= cs@.len(),
            pred == spec_trim_pred(quotes),
            spec_drop_leading(cs@, pred) == spec_drop_leading(cs@.skip(i as int), pred),
        decreases cs@.len() - i,
    {
        proof {
            assert(pred(cs@.skip(i as int)[0]));
            assert(cs@.skip(i as int).drop_first() =~= cs@.skip(i + 1));
        }
        i = i + 1;
    }
    let ghost lead = cs@.skip(i as int);
    proof {
        if i < cs@.len() {
            assert(!pred(lead[0]));
        }
        assert(spec_drop_leading(cs@, pred) == lead);
    }
    proof {
        assert(lead.take(cs@.len() - i) =~= lead);
    }
    let mut j: usize = cs.len();
    while j > i && trimmed_char(cs[j - 1], quotes)
        invariant
            i <= j <= cs@.len(),
            pred == spec_trim_pred(quotes),
            lead == cs@.skip(i as int),
            spec_drop_trailing(lead, pred) == spec_drop_trailing(lead.take(j - i), pred),
        decreases j,
    {
        proof {
            assert(lead.take(j - i).last() == cs@[j - 1]);
            assert(pred(lead.take(j - i).last()));
            assert(lead.take(j - i).drop_last() =~= lead.take(j - 1 - i));
        }
        j = j - 1;
    }
    proof {
        if j > i {
            assert(lead.take(j - i).last() == cs@[j - 1]);
            assert(!pred(lead.take(j - i).last()));
        }
        assert(spec_drop_trailing(lead, pred) == lead.take(j - i));
    }
    let mut r: Vec<char> = Vec::new();
    let mut k: usize = i;
    while k < j
        invariant
            i <= k <= j <= cs@.len(),
            r@ == cs@.subrange(i as int, k as int),
        decreases j - k,
    {
        r.push(cs[k]);
        proof {
            assert(r@ =~= cs@.subrange(i as int, k + 1));
        }
        k = k + 1;
    }
    proof {
        assert(r@ =~= lead.take(j - i));
    }
    r
}

/// The characters from the given position on.
pub fn chars_from(cs: &Vec<char>, from: usize) -> (r: Vec<char>)
    requires
        from <= cs@.len(),
    ensures
        r@ == cs@.skip(from as int),
{
    let mut r: Vec<char> = Vec::new();
    let mut k: usize = from;
    while k < cs.len()
        invariant
            from <= k <= cs@.len(),
            r@ == cs@.subrange(from as int, k as int),
        decreases cs@.len() - k,
    {
        r.push(cs[k]);
        proof {
            assert(r@ =~= cs@.subrange(from as int, k + 1));
        }
        k = k + 1;
    }
    proof {
        assert(r@ =~= cs@.skip(from as int));
    }
    r
}

/// Splitting on a separator, as str::split does it: every separator starts a
/// new part, so adjacent separators yield empty parts and an empty input is
/// one empty part.
pub open spec fn spec_split(s: Seq<char>, sep: char) -> Seq<Seq<char>>
    decreases s.len(),
{
    if s.len() == 0 {
        seq![Seq::<char>::empty()]
    } else if s[0] == sep {
        seq![Seq::<char>::empty()] + spec_split(s.drop_first(), sep)
    } else {
        let rest = spec_split(s.drop_first(), sep);
        seq![seq![s[0]] + rest[0]] + rest.skip(1)
    }
}

/// A split always yields at least one part.
pub proof fn lemma_split_has_parts(s: Seq<char>, sep: char)
    ensures
        spec_split(s, sep).len() >= 1,
    decreases s.len(),
{
    if s.len() > 0 {
        lemma_split_has_parts(s.drop_first(), sep);
    }
}

/// Splits the characters from the given position on a separator.
pub fn split_chars_from(cs: &Vec<char>, from: usize, sep: char) -> (r: Vec<Vec<char>>)
    requires
        from <= cs@.len(),
    ensures
        r@.len() == spec_split(cs@.skip(from as int), sep).len(),
        forall|k: int|
            0 <= k < r@.len() ==> (#[trigger] r@[k])@ == spec_split(cs@.skip(from as int), sep)[k],
    decreases cs@.len() - from,
{
    let ghost s = cs@.skip(from as int);
    if from == cs.len() {
        let mut r: Vec<Vec<char>> = Vec::new();
        r.push(Vec::new());
        proof {
            assert(s =~= Seq::<char>::empty());
        }
        r
    } else if cs[from] == sep {
        let mut rest = split_chars_from(cs, from + 1, sep);
        proof {
            assert(s.drop_first() =~= cs@.skip(from + 1));
            lemma_split_has_parts(cs@.skip(from + 1), sep);
        }
        rest.insert(0, Vec::new());
        rest
    } else {
        let mut rest = split_chars_from(cs, from + 1, sep);
        proof {
            assert(s.drop_first() =~= cs@.skip(from + 1));
            lemma_split_has_parts(cs@.skip(from + 1), sep);
        }
        let c = cs[from];
        rest[0].insert(0, c);
        proof {
            let spec_rest = spec_split(cs@.skip(from + 1), sep);
            assert(rest@[0]@ =~= seq![s[0]] + spec_rest[0]);
        }
        rest
    }
}

/// Appends the decimal writing of a number.
pub fn push_decimal(out: &mut String, n: u64)
    ensures
        final(out)@ == old(out)@ + spec_decimal(n as nat),
    decreases n,
{
    if n >= 10 {
        push_decimal(out, n / 10);
        let d = digit_char(n % 10);
        push_char(out, d);
        proof {
            assert(out@ =~= old(out)@ + spec_decimal(n as nat));
        }
    } else {
        let d = digit_char(n);
        push_char(out, d);
        proof {
            assert(out@ =~= old(out)@ + spec_decimal(n as nat));
        }
    }
}

} // verus!
