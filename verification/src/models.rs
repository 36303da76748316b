use vstd::prelude::*;
use vstd::string::*;

verus! {

/// Raised when a candidate question breaks a domain invariant; the message
/// names the rule that failed.
#[derive(Debug)]
pub struct ValidationError {
    message: String,
}

impl ValidationError {
    pub closed spec fn spec_message(&self) -> Seq<char> {
        self.message@
    }

    pub fn message(&self) -> (r: &String)
        ensures
            r@ == self.spec_message(),
    {
        &self.message
    }
}

/// A category of questions; only active categories are visible to readers.
#[derive(Debug)]
pub struct Category {
    pub title: String,
}

/// One answer option of a question. The id is assigned by storage on creation
/// and absent on input.
#[derive(Debug, Clone)]
pub struct Choice {
    pub id: Option<i32>,
    pub title: String,
    pub correct: bool,
}

/// A question together with its owned choices, persisted and fetched as one
/// consistent unit. The id is assigned by storage on creation.
#[derive(Debug)]
pub struct Question {
    pub id: Option<i32>,
    pub question: String,
    pub category: String,
    pub choices: Vec<Choice>,
}

/// Input form of a question, before storage has assigned ids.
pub struct NewQuestion {
    pub question: String,
    pub category: String,
    pub choices: Vec<NewChoice>,
}

/// Input form of a choice.
pub struct NewChoice {
    pub title: String,
    pub correct: bool,
}

/// How many of the given choices are marked correct.
pub open spec fn num_correct_choices(choices: Seq<Choice>) -> nat {
    choices.filter(|c: Choice| c.correct).len()
}

/// A question is well formed when at most one of its choices is correct.
/// Zero correct choices is deliberately accepted.
pub open spec fn spec_valid_question(q: &Question) -> bool {
    num_correct_choices(q.choices@) <= 1
}

/// A candidate is well formed when at most one of its choices is correct.
pub open spec fn spec_valid_new_question(nq: NewQuestion) -> bool {
    nq.choices@.filter(|c: NewChoice| c.correct).len() <= 1
}

/// Whether a question value is the given candidate with no ids assigned yet.
pub open spec fn spec_candidate_matches(nq: NewQuestion, q: Question) -> bool {
    &&& q.id is None
    &&& q.question@ == nq.question@
    &&& q.category@ == nq.category@
    &&& q.choices@.len() == nq.choices@.len()
    &&& forall|j: int|
        0 <= j < q.choices@.len() ==> {
            let c = #[trigger] q.choices@[j];
            &&& c.id is None
            &&& c.title@ == nq.choices@[j].title@
            &&& c.correct == nq.choices@[j].correct
        }
}

/// Choice lists with the same correctness flags have the same number of
/// correct entries, whichever of the two forms carries them.
pub proof fn lemma_matching_correct_counts(a: Seq<Choice>, b: Seq<NewChoice>)
    requires
        a.len() == b.len(),
        forall|j: int| 0 <= j < a.len() ==> (#[trigger] a[j]).correct == b[j].correct,
    ensures
        a.filter(|c: Choice| c.correct).len() == b.filter(|c: NewChoice| c.correct).len(),
    decreases a.len(),
{
    reveal(Seq::filter);
    if a.len() > 0 {
        lemma_matching_correct_counts(a.drop_last(), b.drop_last());
        assert(a[a.len() - 1].correct == b[b.len() - 1].correct);
    }
}

impl Question {
    /// Enforces the single-correct-choice invariant; run before any write is
    /// attempted, so a violating candidate never reaches storage.
    pub fn validate(question: &Question) -> (r: Result<(), ValidationError>)
        ensures
            r is Ok <==> spec_valid_question(question),
            r matches Err(e) ==> e.spec_message() == "Only one correct choice allowed"@,
    {
        let mut count: usize = 0;
        let mut i: usize = 0;
        while i < question.choices.len()
            invariant
                i <= question.choices@.len(),
                count == num_correct_choices(question.choices@.take(i as int)),
                count <= i,
            decreases question.choices@.len() - i,
        {
            proof {
                broadcast use Seq::lemma_filter_push;

                assert(question.choices@.take(i + 1) =~= question.choices@.take(i as int).push(
                    question.choices@[i as int],
                ));
            }
            if question.choices[i].correct {
                count = count + 1;
            }
            i = i + 1;
        }
        proof {
            assert(question.choices@.take(question.choices@.len() as int) =~= question.choices@);
        }
        if count > 1 {
            return Err(ValidationError { message: String::from_str("Only one correct choice allowed") });
        }
        Ok(())
    }
}

} // verus!
