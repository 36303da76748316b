use vstd::prelude::*;
use vstd::string::*;

use crate::models::{Category, Choice, Question};
use crate::pagination::{spec_effective_limit, spec_page_offset};

verus! {

/// Outcome of an upsert: `Created` when a fresh row was inserted, `Exists`
/// when the name was already present (whether or not its flag was updated).
#[derive(PartialEq, Eq, Structural, Clone, Copy, Debug)]
pub enum SaveCategoryStatus {
    Created,
    Exists,
}

/// Domain error kinds, normalized from driver-level failures. `DatabaseError`
/// carries the store's error code and its message.
#[derive(Debug)]
pub enum RepositoryError {
    ConnectionError(String),
    DatabaseError(String, String),
    IOError(String),
    ConversionError(String),
    UnknownError(Option<String>),
}

impl RepositoryError {
    /// The human-readable message of the failure.
    pub open spec fn spec_message(&self) -> Seq<char> {
        match self {
            RepositoryError::ConnectionError(m) => m@,
            RepositoryError::DatabaseError(_, m) => m@,
            RepositoryError::IOError(m) => m@,
            RepositoryError::ConversionError(m) => m@,
            RepositoryError::UnknownError(Some(m)) => m@,
            RepositoryError::UnknownError(None) => "Unknown Error"@,
        }
    }

    pub fn message(&self) -> (r: String)
        ensures
            r@ == self.spec_message(),
    {
        match self {
            RepositoryError::ConnectionError(m) => m.clone(),
            RepositoryError::DatabaseError(_, m) => m.clone(),
            RepositoryError::IOError(m) => m.clone(),
            RepositoryError::ConversionError(m) => m.clone(),
            RepositoryError::UnknownError(Some(m)) => m.clone(),
            RepositoryError::UnknownError(None) => String::from_str("Unknown Error"),
        }
    }

    /// Normalizes the facets of a driver failure into a domain error kind,
    /// testing the connection, database, conversion and io facets in the
    /// driver's order and falling back to an unclassified error.
    pub fn classify(
        connection: Option<String>,
        database: Option<(String, String)>,
        conversion: Option<String>,
        io: Option<String>,
        fallback: String,
    ) -> (r: RepositoryError)
        ensures
            r == (match (connection, database, conversion, io) {
                (Some(m), _, _, _) => RepositoryError::ConnectionError(m),
                (None, Some((code, m)), _, _) => RepositoryError::DatabaseError(code, m),
                (None, None, Some(m), _) => RepositoryError::ConversionError(m),
                (None, None, None, Some(m)) => RepositoryError::IOError(m),
                (None, None, None, None) => RepositoryError::UnknownError(Some(fallback)),
            }),
    {
        if let Some(m) = connection {
            return RepositoryError::ConnectionError(m);
        }
        if let Some((code, m)) = database {
            return RepositoryError::DatabaseError(code, m);
        }
        if let Some(m) = conversion {
            return RepositoryError::ConversionError(m);
        }
        if let Some(m) = io {
            return RepositoryError::IOError(m);
        }
        RepositoryError::UnknownError(Some(fallback))
    }
}

/// Largest id the store hands out; ids are generated from 1 upward and stay
/// within the 32-bit range the aggregate types expose.
pub const MAX_GENERATED_ID: i64 = 2147483647;

/// The store's error code for a statement that references a missing row,
/// raised when a question names a category that does not exist.
pub const FOREIGN_KEY_VIOLATION: &'static str = "23503";

/// The store's error code for an exhausted id sequence.
pub const SEQUENCE_LIMIT_EXCEEDED: &'static str = "2200H";

/// One row of the categories table.
pub struct CategoryRow {
    pub name: String,
    pub active: bool,
}

/// One row of the questions table.
pub struct QuestionRow {
    pub id: i64,
    pub text: String,
    pub category: String,
}

/// One row of the choices table.
pub struct ChoiceRow {
    pub id: i64,
    pub question_id: i64,
    pub text: String,
    pub correct: bool,
}

/// The relational state behind the repositories: three tables kept in
/// insertion order, plus the id sequences of the two generated keys.
pub struct Store {
    pub categories: Vec<CategoryRow>,
    pub questions: Vec<QuestionRow>,
    pub choices: Vec<ChoiceRow>,
    pub next_question_id: i64,
    pub next_choice_id: i64,
}

impl Store {
    /// Well-formedness of the relational state: category names are unique,
    /// generated ids are positive, strictly increasing in insertion order and
    /// below their sequence counters, every question references an existing
    /// category and every choice an existing question.
    pub open spec fn wf(&self) -> bool {
        &&& 1 <= self.next_question_id <= MAX_GENERATED_ID + 1
        &&& 1 <= self.next_choice_id <= MAX_GENERATED_ID + 1
        &&& forall|i: int, j: int|
            0 <= i < j < self.categories@.len() ==> (#[trigger] self.categories@[i]).name@ != (
            #[trigger] self.categories@[j]).name@
        &&& forall|i: int|
            0 <= i < self.questions@.len() ==> 1 <= (#[trigger] self.questions@[i]).id
                < self.next_question_id
        &&& forall|i: int, j: int|
            0 <= i < j < self.questions@.len() ==> (#[trigger] self.questions@[i]).id < (
            #[trigger] self.questions@[j]).id
        &&& forall|i: int|
            0 <= i < self.questions@.len() ==> self.spec_has_category(
                (#[trigger] self.questions@[i]).category@,
            )
        &&& forall|i: int|
            0 <= i < self.choices@.len() ==> 1 <= (#[trigger] self.choices@[i]).id
                < self.next_choice_id
        &&& forall|i: int, j: int|
            0 <= i < j < self.choices@.len() ==> (#[trigger] self.choices@[i]).id < (
            #[trigger] self.choices@[j]).id
        &&& forall|i: int|
            0 <= i < self.choices@.len() ==> self.spec_has_question(
                (#[trigger] self.choices@[i]).question_id,
            )
    }

    /// Whether a category row with this name exists (active or not).
    pub open spec fn spec_has_category(&self, name: Seq<char>) -> bool {
        exists|i: int|
            0 <= i < self.categories@.len() && (#[trigger] self.categories@[i]).name@ == name
    }

    /// Whether a category row with this name exists and is active.
    pub open spec fn spec_category_active(&self, name: Seq<char>) -> bool {
        exists|i: int|
            0 <= i < self.categories@.len() && (#[trigger] self.categories@[i]).name@ == name
                && self.categories@[i].active
    }

    /// Whether a question row with this id exists.
    pub open spec fn spec_has_question(&self, id: i64) -> bool {
        exists|i: int|
            0 <= i < self.questions@.len() && (#[trigger] self.questions@[i]).id == id
    }

    /// Names of the active categories, in insertion order.
    pub open spec fn spec_active_category_names(&self) -> Seq<Seq<char>> {
        self.categories@.filter(|c: CategoryRow| c.active).map_values(|c: CategoryRow| c.name@)
    }

    /// The question rows a reader of this category sees, in insertion order:
    /// the rows naming the category when it exists and is active, and nothing
    /// at all otherwise.
    pub open spec fn spec_visible_questions(&self, cat: Seq<char>) -> Seq<QuestionRow> {
        if self.spec_category_active(cat) {
            self.questions@.filter(spec_in_category(cat))
        } else {
            Seq::empty()
        }
    }

    /// An empty store; the id sequences start at 1.
    pub fn new() -> (r: Store)
        ensures
            r.wf(),
            r.categories@.len() == 0,
            r.questions@.len() == 0,
            r.choices@.len() == 0,
            r.next_question_id == 1,
            r.next_choice_id == 1,
    {
        Store {
            categories: Vec::new(),
            questions: Vec::new(),
            choices: Vec::new(),
            next_question_id: 1,
            next_choice_id: 1,
        }
    }

    /// Index of the category row with this name, if any.
    fn find_category(&self, name: &String) -> (r: Option<usize>)
        ensures
            match r {
                Some(i) => i < self.categories@.len() && self.categories@[i as int].name@ == name@,
                None => !self.spec_has_category(name@),
            },
    {
        let mut i: usize = 0;
        while i < self.categories.len()
            invariant
                i <= self.categories@.len(),
                forall|k: int|
                    0 <= k < i ==> (#[trigger] self.categories@[k]).name@ != name@,
            decreases self.categories@.len() - i,
        {
            if self.categories[i].name == *name {
                return Some(i);
            }
            i = i + 1;
        }
        None
    }

    /// Upserts a category row. A missing name is inserted (with the given
    /// flag, or inactive when none is given) and reported as `Created`; a
    /// conflicting insert is reported as `Exists` and is a no-op unless a
    /// flag was given, in which case the existing row's flag is updated.
    pub fn save_category_and_set_active(&mut self, category: &str, active: Option<bool>) -> (r:
        Result<SaveCategoryStatus, RepositoryError>)
        requires
            old(self).wf(),
        ensures
            final(self).wf(),
            r == Ok::<SaveCategoryStatus, RepositoryError>(
                spec_upsert_status(*old(self), category@),
            ),
            spec_upsert_applied(*old(self), *final(self), category@, active),
    {
        let name = String::from_str(category);
        match self.find_category(&name) {
            None => {
                let flag = match active {
                    Some(b) => b,
                    None => false,
                };
                self.categories.push(CategoryRow { name, active: flag });
                proof {
                    assert(self.categories@.drop_last() =~= old(self).categories@);
                    lemma_push_preserves_category_wf(*old(self), *self);
                }
                Ok(SaveCategoryStatus::Created)
            },
            Some(i) => {
                match active {
                    Some(b) => {
                        let title = self.categories[i].name.clone();
                        self.categories.set(i, CategoryRow { name: title, active: b });
                        proof {
                            lemma_flag_update_preserves_wf(*old(self), *self, i as int);
                        }
                        Ok(SaveCategoryStatus::Exists)
                    },
                    None => Ok(SaveCategoryStatus::Exists),
                }
            },
        }
    }

    /// Upserts a category by its title without touching the active flag.
    pub fn save_category(&mut self, category: &Category) -> (r: Result<
        SaveCategoryStatus,
        RepositoryError,
    >)
        requires
            old(self).wf(),
        ensures
            final(self).wf(),
            r == Ok::<SaveCategoryStatus, RepositoryError>(
                spec_upsert_status(*old(self), category.title@),
            ),
            spec_upsert_applied(*old(self), *final(self), category.title@, None),
    {
        self.save_category_and_set_active(category.title.as_str(), None)
    }

    /// The titles of the active categories, in insertion order.
    pub fn list_categories(&self) -> (r: Result<Vec<Category>, RepositoryError>)
        ensures
            r is Ok,
            r matches Ok(cats) ==> {
                &&& cats@.len() == self.spec_active_category_names().len()
                &&& forall|k: int|
                    0 <= k < cats@.len() ==> (#[trigger] cats@[k]).title@
                        == self.spec_active_category_names()[k]
            },
    {
        let pred = |c: CategoryRow| c.active;
        let mut out: Vec<Category> = Vec::new();
        let mut i: usize = 0;
        while i < self.categories.len()
            invariant
                i <= self.categories@.len(),
                out@.len() == self.categories@.take(i as int).filter(|c: CategoryRow| c.active).len(),
                forall|k: int|
                    0 <= k < out@.len() ==> (#[trigger] out@[k]).title@ == self.categories@.take(
                        i as int,
                    ).filter(|c: CategoryRow| c.active)[k].name@,
            decreases self.categories@.len() - i,
        {
            proof {
                broadcast use Seq::lemma_filter_push;

                assert(self.categories@.take(i + 1) =~= self.categories@.take(i as int).push(
                    self.categories@[i as int],
                ));
            }
            if self.categories[i].active {
                out.push(Category { title: self.categories[i].name.clone() });
            }
            i = i + 1;
        }
        proof {
            assert(self.categories@.take(self.categories@.len() as int) =~= self.categories@);
        }
        Ok(out)
    }

    /// How many questions a reader of this category sees: the questions of
    /// the category when it is active; a missing or inactive category counts
    /// zero rather than failing.
    pub fn count_questions(&self, category: &str) -> (r: Result<i64, RepositoryError>)
        requires
            self.wf(),
        ensures
            r matches Ok(n) && n == self.spec_visible_questions(category@).len(),
    {
        let key = String::from_str(category);
        let active = match self.find_category(&key) {
            None => {
                proof {
                    if self.spec_category_active(category@) {
                        let w = choose|i: int|
                            0 <= i < self.categories@.len() && (#[trigger] self.categories@[i]).name@
                                == category@ && self.categories@[i].active;
                        assert(self.spec_has_category(category@));
                    }
                }
                false
            },
            Some(i) => {
                proof {
                    lemma_unique_name_pins_active(*self, category@, i as int);
                }
                self.categories[i].active
            },
        };
        if !active {
            return Ok(0);
        }
        let mut count: usize = 0;
        let mut i: usize = 0;
        while i < self.questions.len()
            invariant
                self.wf(),
                key@ == category@,
                i <= self.questions@.len(),
                count == self.questions@.take(i as int).filter(spec_in_category(category@)).len(),
                count <= i,
            decreases self.questions@.len() - i,
        {
            proof {
                broadcast use Seq::lemma_filter_push;

                assert(self.questions@.take(i + 1) =~= self.questions@.take(i as int).push(
                    self.questions@[i as int],
                ));
                assert(self.questions@.take(i + 1).filter(spec_in_category(category@))
                    == self.questions@.take(i as int).push(self.questions@[i as int]).filter(
                    spec_in_category(category@),
                ));
                assert(spec_in_category(category@)(self.questions@[i as int]) == (
                self.questions@[i as int].category@ == category@));
            }
            if self.questions[i].category == key {
                count = count + 1;
            }
            i = i + 1;
        }
        proof {
            assert(self.questions@.take(self.questions@.len() as int) =~= self.questions@);
            lemma_question_count_bound(*self);
        }
        Ok(count as i64)
    }

    /// Persists a candidate question atomically: the question row and every
    /// choice row are all inserted, or - when the category is missing or the
    /// id sequences are exhausted - nothing is, so a failed save is never
    /// visible to readers. On success the returned aggregate is the candidate
    /// with its generated identifiers filled in.
    pub fn save_question(&mut self, question: &Question) -> (r: Result<Question, RepositoryError>)
        requires
            old(self).wf(),
        ensures
            final(self).wf(),
            r is Err ==> *final(self) == *old(self),
            r is Ok <==> old(self).spec_has_category(question.category@) && spec_can_assign_ids(
                *old(self),
                question.choices@.len(),
            ),
            !old(self).spec_has_category(question.category@) ==> (r matches Err(
                RepositoryError::DatabaseError(code, _),
            ) && code@ == FOREIGN_KEY_VIOLATION@),
            old(self).spec_has_category(question.category@) && !spec_can_assign_ids(
                *old(self),
                question.choices@.len(),
            ) ==> (r matches Err(RepositoryError::DatabaseError(code, _)) && code@
                == SEQUENCE_LIMIT_EXCEEDED@),
            r matches Ok(saved) ==> spec_save_succeeded(*old(self), *final(self), *question, saved),
    {
        let key = String::from_str(question.category.as_str());
        if self.find_category(&key).is_none() {
            return Err(
                RepositoryError::DatabaseError(
                    String::from_str(FOREIGN_KEY_VIOLATION),
                    String::from_str("question references a missing category"),
                ),
            );
        }
        let n = question.choices.len();
        let ids_available = n <= MAX_GENERATED_ID as usize && self.next_question_id
            <= MAX_GENERATED_ID && self.next_choice_id <= MAX_GENERATED_ID + 1 - (n as i64);
        if !ids_available {
            proof {
                if n > MAX_GENERATED_ID as usize {
                    assert(!spec_can_assign_ids(*old(self), question.choices@.len()));
                }
            }
            return Err(
                RepositoryError::DatabaseError(
                    String::from_str(SEQUENCE_LIMIT_EXCEEDED),
                    String::from_str("id sequence exhausted"),
                ),
            );
        }
        let qid = self.next_question_id;
        self.questions.push(
            QuestionRow {
                id: qid,
                text: question.question.clone(),
                category: question.category.clone(),
            },
        );
        self.next_question_id = qid + 1;
        let mut saved_choices: Vec<Choice> = Vec::new();
        let mut j: usize = 0;
        while j < question.choices.len()
            invariant
                old(self).wf(),
                j <= question.choices@.len(),
                old(self).next_question_id <= MAX_GENERATED_ID,
                old(self).next_choice_id + question.choices@.len() <= MAX_GENERATED_ID + 1,
                qid == old(self).next_question_id,
                self.categories@ == old(self).categories@,
                self.questions@.len() == old(self).questions@.len() + 1,
                self.questions@.drop_last() == old(self).questions@,
                self.questions@.last().id == qid,
                self.questions@.last().text@ == question.question@,
                self.questions@.last().category@ == question.category@,
                self.next_question_id == qid + 1,
                self.next_choice_id == old(self).next_choice_id + j,
                self.choices@.len() == old(self).choices@.len() + j,
                self.choices@.take(old(self).choices@.len() as int) == old(self).choices@,
                forall|k: int|
                    0 <= k < j ==> {
                        let cr = #[trigger] self.choices@[old(self).choices@.len() + k];
                        &&& cr.id == old(self).next_choice_id + k
                        &&& cr.question_id == qid
                        &&& cr.text@ == question.choices@[k].title@
                        &&& cr.correct == question.choices@[k].correct
                    },
                saved_choices@.len() == j,
                forall|k: int|
                    0 <= k < j ==> {
                        let c = #[trigger] saved_choices@[k];
                        &&& c.id == Some((old(self).next_choice_id + k) as i32)
                        &&& c.title@ == question.choices@[k].title@
                        &&& c.correct == question.choices@[k].correct
                    },
            decreases question.choices@.len() - j,
        {
            let cid = self.next_choice_id;
            self.choices.push(
                ChoiceRow {
                    id: cid,
                    question_id: qid,
                    text: question.choices[j].title.clone(),
                    correct: question.choices[j].correct,
                },
            );
            saved_choices.push(
                Choice {
                    id: Some(cid as i32),
                    title: question.choices[j].title.clone(),
                    correct: question.choices[j].correct,
                },
            );
            self.next_choice_id = cid + 1;
            proof {
                assert(self.choices@.take(old(self).choices@.len() as int) =~= old(self).choices@);
            }
            j = j + 1;
        }
        let saved = Question {
            id: Some(qid as i32),
            question: question.question.clone(),
            category: question.category.clone(),
            choices: saved_choices,
        };
        proof {
            assert(spec_save_rows_appended(*old(self), *self, *question));
            lemma_save_preserves_wf(*old(self), *self, *question);
        }
        Ok(saved)
    }

    /// The choice rows belonging to a question, in insertion order.
    pub open spec fn spec_choice_rows_of(&self, question_id: i64) -> Seq<ChoiceRow> {
        self.choices@.filter(spec_belongs_to(question_id))
    }

    /// Whether an assembled aggregate carries exactly the given question row
    /// and, in insertion order, every choice row belonging to it. A question
    /// with no recorded choices gets an empty list, never an error.
    pub open spec fn spec_assembled(&self, qr: QuestionRow, q: Question) -> bool {
        &&& q.id == Some(qr.id as i32)
        &&& q.question@ == qr.text@
        &&& q.category@ == qr.category@
        &&& q.choices@.len() == self.spec_choice_rows_of(qr.id).len()
        &&& forall|j: int|
            0 <= j < q.choices@.len() ==> spec_choice_matches_row(
                self.spec_choice_rows_of(qr.id)[j],
                #[trigger] q.choices@[j],
            )
    }

    /// Rebuilds the aggregate of the question row at this index, pairing the
    /// row with every choice row that belongs to it.
    fn load_question(&self, i: usize) -> (q: Question)
        requires
            self.wf(),
            i < self.questions@.len(),
        ensures
            self.spec_assembled(self.questions@[i as int], q),
    {
        let qid = self.questions[i].id;
        let mut cs: Vec<Choice> = Vec::new();
        let mut k: usize = 0;
        while k < self.choices.len()
            invariant
                self.wf(),
                i < self.questions@.len(),
                qid == self.questions@[i as int].id,
                k <= self.choices@.len(),
                cs@.len() == self.choices@.take(k as int).filter(spec_belongs_to(qid)).len(),
                forall|j: int|
                    0 <= j < cs@.len() ==> spec_choice_matches_row(
                        self.choices@.take(k as int).filter(spec_belongs_to(qid))[j],
                        #[trigger] cs@[j],
                    ),
            decreases self.choices@.len() - k,
        {
            proof {
                broadcast use Seq::lemma_filter_push;

                assert(self.choices@.take(k + 1) =~= self.choices@.take(k as int).push(
                    self.choices@[k as int],
                ));
                assert(self.choices@.take(k + 1).filter(spec_belongs_to(qid))
                    == self.choices@.take(k as int).push(self.choices@[k as int]).filter(
                    spec_belongs_to(qid),
                ));
                assert(spec_belongs_to(qid)(self.choices@[k as int]) == (
                self.choices@[k as int].question_id == qid));
            }
            if self.choices[k].question_id == qid {
                cs.push(
                    Choice {
                        id: Some(self.choices[k].id as i32),
                        title: self.choices[k].text.clone(),
                        correct: self.choices[k].correct,
                    },
                );
            }
            k = k + 1;
        }
        proof {
            assert(self.choices@.take(self.choices@.len() as int) =~= self.choices@);
        }
        Question {
            id: Some(self.questions[i].id as i32),
            question: self.questions[i].text.clone(),
            category: self.questions[i].category.clone(),
            choices: cs,
        }
    }

    /// One page of the aggregates a reader of this category sees, assembled
    /// in insertion order: the page window is cut out of the visible question
    /// rows and each row is paired with its choices. An empty page - a
    /// missing or inactive category, or a page past the data - is an empty
    /// list, never an error.
    pub fn get_questions(&self, category: &str, page: i64, size: i64) -> (r: Result<
        Vec<Question>,
        RepositoryError,
    >)
        requires
            self.wf(),
        ensures
            r is Ok,
            r matches Ok(qs) ==> {
                let visible = self.spec_visible_questions(category@);
                let start = spec_window_start(visible.len() as int, page as int, size as int);
                let end = spec_window_end(visible.len() as int, page as int, size as int);
                &&& qs@.len() == end - start
                &&& forall|k: int|
                    0 <= k < qs@.len() ==> self.spec_assembled(visible[start + k], #[trigger] qs@[k])
            },
            r matches Ok(qs) ==> (self.spec_visible_questions(category@).len() == 0 ==> qs@.len()
                == 0),
    {
        let ghost visible = self.spec_visible_questions(category@);
        let key = String::from_str(category);
        let active = match self.find_category(&key) {
            None => {
                proof {
                    if self.spec_category_active(category@) {
                        let w = choose|i: int|
                            0 <= i < self.categories@.len() && (#[trigger] self.categories@[i]).name@
                                == category@ && self.categories@[i].active;
                        assert(self.spec_has_category(category@));
                    }
                }
                false
            },
            Some(i) => {
                proof {
                    lemma_unique_name_pins_active(*self, category@, i as int);
                }
                self.categories[i].active
            },
        };
        if !active {
            return Ok(Vec::new());
        }
        let total_i64: i64 = match self.count_questions(category) {
            Ok(n) => n,
            Err(e) => {
                return Err(e);
            },
        };
        let total: usize = total_i64 as usize;
        let eff: i64 = if size <= 0 {
            1
        } else {
            size
        };
        let page_m1: i64 = if page <= 1 {
            0
        } else {
            page - 1
        };
        let off: i64 = match page_m1.checked_mul(eff) {
            Some(v) => v,
            None => i64::MAX,
        };
        proof {
            lemma_question_count_bound(*self);
        }
        let start: usize = if off >= total_i64 {
            total
        } else {
            off as usize
        };
        let remaining: usize = total - start;
        let take_n: usize = if eff >= remaining as i64 {
            remaining
        } else {
            eff as usize
        };
        let end: usize = start + take_n;
        proof {
            assert(start == spec_window_start(visible.len() as int, page as int, size as int));
            assert(end == spec_window_end(visible.len() as int, page as int, size as int));
        }
        let mut out: Vec<Question> = Vec::new();
        let mut seen: usize = 0;
        let mut i: usize = 0;
        while i < self.questions.len()
            invariant
                self.wf(),
                key@ == category@,
                self.spec_category_active(category@),
                visible == self.spec_visible_questions(category@),
                visible.len() == total,
                start <= end <= total,
                i <= self.questions@.len(),
                seen <= i,
                seen == self.questions@.take(i as int).filter(spec_in_category(category@)).len(),
                self.questions@.take(i as int).filter(spec_in_category(category@)) == visible.take(
                    seen as int,
                ),
                out@.len() == (if seen <= start {
                    0int
                } else if seen < end {
                    seen - start
                } else {
                    end - start
                }),
                forall|k: int|
                    0 <= k < out@.len() ==> self.spec_assembled(
                        visible[start + k],
                        #[trigger] out@[k],
                    ),
            decreases self.questions@.len() - i,
        {
            let ghost pred = spec_in_category(category@);
            let ghost qs = self.questions@;
            proof {
                broadcast use Seq::lemma_filter_push;
                broadcast use Seq::filter_distributes_over_add;

                assert(qs.take(i + 1) =~= qs.take(i as int).push(qs[i as int]));
                assert(qs.take(i + 1).filter(pred) == qs.take(i as int).push(qs[i as int]).filter(
                    pred,
                ));
                assert(pred(qs[i as int]) == (qs[i as int].category@ == category@));
                if qs[i as int].category@ == category@ {
                    assert(qs =~= qs.take(i + 1) + qs.skip(i + 1));
                    assert((qs.take(i + 1) + qs.skip(i + 1)).filter(pred) == qs.take(i + 1).filter(
                        pred,
                    ) + qs.skip(i + 1).filter(pred));
                    assert(visible == qs.filter(pred));
                    assert(visible == visible.take(seen as int).push(qs[i as int]) + qs.skip(i + 1).filter(
                        pred,
                    ));
                    assert(visible[seen as int] == (visible.take(seen as int).push(qs[i as int])
                        + qs.skip(i + 1).filter(pred))[seen as int]);
                    assert(visible[seen as int] == qs[i as int]);
                    assert(seen < visible.len());
                }
            }
            if self.questions[i].category == key {
                if start <= seen && seen < end {
                    let q = self.load_question(i);
                    out.push(q);
                }
                seen = seen + 1;
            }
            i = i + 1;
        }
        proof {
            assert(self.questions@.take(self.questions@.len() as int) =~= self.questions@);
        }
        Ok(out)
    }

    /// Sets the active flag of a category; reports whether a row actually
    /// changed, so setting a flag to its current value is a no-op.
    pub fn set_category_active(&mut self, name: &str, active: bool) -> (r: Result<
        bool,
        RepositoryError,
    >)
        requires
            old(self).wf(),
        ensures
            final(self).wf(),
            r == Ok::<bool, RepositoryError>(
                old(self).spec_has_category(name@) && old(self).spec_category_active(name@)
                    != active,
            ),
            old(self).spec_has_category(name@) ==> spec_category_flag_set(
                *old(self),
                *final(self),
                name@,
                active,
            ),
            !old(self).spec_has_category(name@) ==> *final(self) == *old(self),
    {
        let key = String::from_str(name);
        match self.find_category(&key) {
            None => Ok(false),
            Some(i) => {
                let was_active = self.categories[i].active;
                if was_active != active {
                    let title = self.categories[i].name.clone();
                    self.categories.set(i, CategoryRow { name: title, active });
                    proof {
                        lemma_flag_update_preserves_wf(*old(self), *self, i as int);
                    }
                    proof {
                        lemma_unique_name_pins_active(*old(self), name@, i as int);
                        lemma_unique_name_pins_active(*self, name@, i as int);
                    }
                    Ok(true)
                } else {
                    proof {
                        lemma_unique_name_pins_active(*old(self), name@, i as int);
                    }
                    Ok(was_active != active)
                }
            },
        }
    }
}

/// How a successful save changes the store: one question row is appended
/// carrying the next question id and the candidate's text and category, and
/// one choice row per candidate choice is appended in the order given,
/// carrying consecutive ids from the choice sequence; the categories table is
/// untouched and both id sequences advance past the ids they handed out.
pub open spec fn spec_save_rows_appended(pre: Store, post: Store, q: Question) -> bool {
    &&& post.categories@ == pre.categories@
    &&& post.questions@.len() == pre.questions@.len() + 1
    &&& post.questions@.drop_last() == pre.questions@
    &&& post.questions@.last().id == pre.next_question_id
    &&& post.questions@.last().text@ == q.question@
    &&& post.questions@.last().category@ == q.category@
    &&& post.choices@.len() == pre.choices@.len() + q.choices@.len()
    &&& post.choices@.take(pre.choices@.len() as int) == pre.choices@
    &&& forall|j: int|
        0 <= j < q.choices@.len() ==> {
            let cr = #[trigger] post.choices@[pre.choices@.len() + j];
            &&& cr.id == pre.next_choice_id + j
            &&& cr.question_id == pre.next_question_id
            &&& cr.text@ == q.choices@[j].title@
            &&& cr.correct == q.choices@[j].correct
        }
    &&& post.next_question_id == pre.next_question_id + 1
    &&& post.next_choice_id == pre.next_choice_id + q.choices@.len()
}

/// The aggregate a successful save returns: the candidate with identifiers
/// filled in, the question id first, then one consecutive id per choice, in
/// the order the choices were submitted.
pub open spec fn spec_saved_aggregate(pre: Store, q: Question, saved: Question) -> bool {
    &&& saved.id == Some(pre.next_question_id as i32)
    &&& saved.question@ == q.question@
    &&& saved.category@ == q.category@
    &&& saved.choices@.len() == q.choices@.len()
    &&& forall|j: int|
        0 <= j < q.choices@.len() ==> {
            let c = #[trigger] saved.choices@[j];
            &&& c.id == Some((pre.next_choice_id + j) as i32)
            &&& c.title@ == q.choices@[j].title@
            &&& c.correct == q.choices@[j].correct
        }
}

/// Everything a successful save guarantees, on the store and on the returned
/// aggregate.
pub open spec fn spec_save_succeeded(pre: Store, post: Store, q: Question, saved: Question) -> bool {
    &&& spec_save_rows_appended(pre, post, q)
    &&& spec_saved_aggregate(pre, q, saved)
}

/// Whether the id sequences can still cover one question row and its n choice
/// rows without leaving the generated-id range.
pub open spec fn spec_can_assign_ids(pre: Store, n: nat) -> bool {
    &&& pre.next_question_id <= MAX_GENERATED_ID
    &&& pre.next_choice_id + n <= MAX_GENERATED_ID + 1
}

/// Appending one question row and its choice rows as a successful save does
/// preserves well-formedness.
proof fn lemma_save_preserves_wf(pre: Store, post: Store, q: Question)
    requires
        pre.wf(),
        pre.spec_has_category(q.category@),
        spec_can_assign_ids(pre, q.choices@.len()),
        spec_save_rows_appended(pre, post, q),
    ensures
        post.wf(),
{
    let qlen = pre.questions@.len() as int;
    let clen = pre.choices@.len() as int;
    assert forall|i: int| 0 <= i < qlen implies post.questions@[i] == pre.questions@[i] by {
        assert(pre.questions@[i] == post.questions@.drop_last()[i]);
    }
    assert forall|i: int| 0 <= i < clen implies post.choices@[i] == pre.choices@[i] by {
        assert(pre.choices@[i] == post.choices@.take(clen)[i]);
    }
    assert forall|i: int| 0 <= i < post.questions@.len() implies 1 <= (
    #[trigger] post.questions@[i]).id < post.next_question_id by {
        if i < qlen {
            assert(1 <= pre.questions@[i].id < pre.next_question_id);
        } else {
            assert(post.questions@[i] == post.questions@.last());
        }
    }
    assert forall|i: int, j: int| 0 <= i < j < post.questions@.len() implies (
    #[trigger] post.questions@[i]).id < (#[trigger] post.questions@[j]).id by {
        if j < qlen {
            assert(pre.questions@[i].id < pre.questions@[j].id);
        } else {
            assert(post.questions@[j] == post.questions@.last());
            assert(pre.questions@[i].id < pre.next_question_id);
        }
    }
    assert forall|i: int| 0 <= i < post.choices@.len() implies 1 <= (#[trigger] post.choices@[i]).id
        < post.next_choice_id by {
        if i < clen {
            assert(1 <= pre.choices@[i].id < pre.next_choice_id);
        } else {
            let k = i - clen;
            assert(post.choices@[clen + k].id == pre.next_choice_id + k);
        }
    }
    assert forall|i: int, j: int| 0 <= i < j < post.choices@.len() implies (
    #[trigger] post.choices@[i]).id < (#[trigger] post.choices@[j]).id by {
        if j < clen {
            assert(pre.choices@[i].id < pre.choices@[j].id);
        } else {
            let kj = j - clen;
            assert(post.choices@[clen + kj].id == pre.next_choice_id + kj);
            if i < clen {
                assert(1 <= pre.choices@[i].id < pre.next_choice_id);
            } else {
                let ki = i - clen;
                assert(post.choices@[clen + ki].id == pre.next_choice_id + ki);
            }
        }
    }
    assert forall|i: int, j: int| 0 <= i < j < post.categories@.len() implies (
    #[trigger] post.categories@[i]).name@ != (#[trigger] post.categories@[j]).name@ by {
        assert(pre.categories@[i].name@ != pre.categories@[j].name@);
    }
    assert forall|i: int| 0 <= i < post.questions@.len() implies post.spec_has_category(
        (#[trigger] post.questions@[i]).category@,
    ) by {
        if i < qlen {
            assert(pre.spec_has_category(pre.questions@[i].category@));
            let w = choose|k: int|
                0 <= k < pre.categories@.len() && (#[trigger] pre.categories@[k]).name@
                    == pre.questions@[i].category@;
            assert(post.categories@[w].name@ == post.questions@[i].category@);
        } else {
            let w = choose|k: int|
                0 <= k < pre.categories@.len() && (#[trigger] pre.categories@[k]).name@
                    == q.category@;
            assert(post.categories@[w].name@ == post.questions@[i].category@);
        }
    }
    assert forall|i: int| 0 <= i < post.choices@.len() implies post.spec_has_question(
        (#[trigger] post.choices@[i]).question_id,
    ) by {
        if i < clen {
            assert(pre.spec_has_question(pre.choices@[i].question_id));
            let w = choose|k: int|
                0 <= k < pre.questions@.len() && (#[trigger] pre.questions@[k]).id
                    == pre.choices@[i].question_id;
            assert(post.questions@[w].id == post.choices@[i].question_id);
        } else {
            let j = i - clen;
            assert(post.choices@[clen + j].question_id == pre.next_question_id);
            assert(post.questions@[qlen].id == post.choices@[i].question_id);
        }
    }
}

/// In a well-formed table the generated ids are strictly increasing from at
/// least 1, so the id of the row at any index is above that index.
proof fn lemma_increasing_id_above_index(ids: Seq<i64>, k: int)
    requires
        forall|i: int| 0 <= i < ids.len() ==> 1 <= #[trigger] ids[i],
        forall|i: int, j: int| 0 <= i < j < ids.len() ==> ids[i] < ids[j],
        0 <= k < ids.len(),
    ensures
        ids[k] >= k + 1,
    decreases k,
{
    if k > 0 {
        lemma_increasing_id_above_index(ids, k - 1);
    }
}

/// A table of strictly increasing ids from 1 up to a cap cannot hold more
/// rows than the cap.
proof fn lemma_increasing_ids_bound_len(ids: Seq<i64>, cap: i64)
    requires
        forall|i: int| 0 <= i < ids.len() ==> 1 <= #[trigger] ids[i] <= cap,
        forall|i: int, j: int| 0 <= i < j < ids.len() ==> ids[i] < ids[j],
        cap >= 0,
    ensures
        ids.len() <= cap,
{
    if ids.len() > 0 {
        lemma_increasing_id_above_index(ids, ids.len() - 1);
    }
}

/// A well-formed question table holds at most as many rows as there are
/// generated ids.
pub proof fn lemma_question_count_bound(s: Store)
    requires
        s.wf(),
    ensures
        s.questions@.len() <= MAX_GENERATED_ID,
{
    let ids = s.questions@.map_values(|q: QuestionRow| q.id);
    assert forall|i: int| 0 <= i < ids.len() implies 1 <= #[trigger] ids[i] <= MAX_GENERATED_ID by {
        assert(1 <= s.questions@[i].id < s.next_question_id);
    }
    assert forall|i: int, j: int| 0 <= i < j < ids.len() implies ids[i] < ids[j] by {
        assert(s.questions@[i].id < s.questions@[j].id);
    }
    lemma_increasing_ids_bound_len(ids, MAX_GENERATED_ID);
}

/// The row predicate of a category: whether a question row names it.
pub open spec fn spec_in_category(cat: Seq<char>) -> spec_fn(QuestionRow) -> bool {
    |q: QuestionRow| q.category@ == cat
}

/// The row predicate of a question: whether a choice row belongs to it.
pub open spec fn spec_belongs_to(question_id: i64) -> spec_fn(ChoiceRow) -> bool {
    |c: ChoiceRow| c.question_id == question_id
}

/// Whether an assembled choice carries exactly what its row holds, with the
/// generated id filled in.
pub open spec fn spec_choice_matches_row(cr: ChoiceRow, c: Choice) -> bool {
    &&& c.id == Some(cr.id as i32)
    &&& c.title@ == cr.text@
    &&& c.correct == cr.correct
}

/// First row index of the page window: the page offset, cut off at the number
/// of visible rows.
pub open spec fn spec_window_start(visible_len: int, page: int, size: int) -> int {
    let off = spec_page_offset(page, size);
    if off > visible_len {
        visible_len
    } else {
        off
    }
}

/// One past the last row index of the page window: offset plus page size, cut
/// off at the number of visible rows.
pub open spec fn spec_window_end(visible_len: int, page: int, size: int) -> int {
    let off = spec_page_offset(page, size);
    let eff = spec_effective_limit(size);
    if off + eff > visible_len {
        visible_len
    } else {
        off + eff
    }
}

/// Status an upsert of this name reports on this store: `Created` exactly
/// when no row with the name exists yet.
pub open spec fn spec_upsert_status(pre: Store, name: Seq<char>) -> SaveCategoryStatus {
    if pre.spec_has_category(name) {
        SaveCategoryStatus::Exists
    } else {
        SaveCategoryStatus::Created
    }
}

/// How an upsert changes the store: a missing name is appended as a fresh row
/// whose flag is the given one (inactive when none is given); an existing
/// name keeps the table unchanged unless a flag is given, in which case only
/// that row's flag is set. Questions, choices and the id sequences never
/// change.
pub open spec fn spec_upsert_applied(
    pre: Store,
    post: Store,
    name: Seq<char>,
    active: Option<bool>,
) -> bool {
    &&& post.questions@ == pre.questions@
    &&& post.choices@ == pre.choices@
    &&& post.next_question_id == pre.next_question_id
    &&& post.next_choice_id == pre.next_choice_id
    &&& if !pre.spec_has_category(name) {
        &&& post.categories@.len() == pre.categories@.len() + 1
        &&& post.categories@.drop_last() == pre.categories@
        &&& post.categories@.last().name@ == name
        &&& post.categories@.last().active == (match active {
            Some(b) => b,
            None => false,
        })
    } else {
        match active {
            Some(b) => spec_category_flag_set(pre, post, name, b),
            None => post.categories@ == pre.categories@,
        }
    }
}

/// The categories table after a flag update: same rows in the same order,
/// with only the flag of the rows carrying this name set to the given value.
pub open spec fn spec_category_flag_set(pre: Store, post: Store, name: Seq<char>, b: bool) -> bool {
    &&& post.categories@.len() == pre.categories@.len()
    &&& forall|i: int|
        0 <= i < pre.categories@.len() ==> (#[trigger] post.categories@[i]).name@
            == pre.categories@[i].name@ && post.categories@[i].active == (if pre.categories@[i].name@
            == name {
            b
        } else {
            pre.categories@[i].active
        })
}

/// Appending one category row preserves well-formedness when the other
/// tables and the id sequences are untouched.
proof fn lemma_push_preserves_category_wf(pre: Store, post: Store)
    requires
        pre.wf(),
        post.categories@.len() == pre.categories@.len() + 1,
        post.categories@.drop_last() == pre.categories@,
        !pre.spec_has_category(post.categories@.last().name@),
        post.questions@ == pre.questions@,
        post.choices@ == pre.choices@,
        post.next_question_id == pre.next_question_id,
        post.next_choice_id == pre.next_choice_id,
    ensures
        post.wf(),
{
    assert forall|i: int|
        0 <= i < post.categories@.len() - 1 implies post.categories@[i] == pre.categories@[i] by {
        assert(pre.categories@[i] == post.categories@.drop_last()[i]);
    }
    assert forall|i: int| 0 <= i < post.questions@.len() implies post.spec_has_category(
        (#[trigger] post.questions@[i]).category@,
    ) by {
        assert(pre.spec_has_category(pre.questions@[i].category@));
        let w = choose|k: int|
            0 <= k < pre.categories@.len() && (#[trigger] pre.categories@[k]).name@
                == pre.questions@[i].category@;
        assert(post.categories@[w].name@ == pre.questions@[i].category@);
    }
}

/// Replacing one category row by a row with the same name preserves
/// well-formedness when the other tables and the id sequences are untouched.
proof fn lemma_flag_update_preserves_wf(pre: Store, post: Store, at: int)
    requires
        pre.wf(),
        0 <= at < pre.categories@.len(),
        post.categories@.len() == pre.categories@.len(),
        forall|i: int|
            0 <= i < pre.categories@.len() && i != at ==> #[trigger] post.categories@[i]
                == pre.categories@[i],
        post.categories@[at].name@ == pre.categories@[at].name@,
        post.questions@ == pre.questions@,
        post.choices@ == pre.choices@,
        post.next_question_id == pre.next_question_id,
        post.next_choice_id == pre.next_choice_id,
    ensures
        post.wf(),
{
    assert forall|i: int, j: int|
        0 <= i < j < post.categories@.len() implies (#[trigger] post.categories@[i]).name@ != (
    #[trigger] post.categories@[j]).name@ by {
        assert(pre.categories@[i].name@ != pre.categories@[j].name@);
    }
    assert forall|i: int| 0 <= i < post.questions@.len() implies post.spec_has_category(
        (#[trigger] post.questions@[i]).category@,
    ) by {
        assert(pre.spec_has_category(pre.questions@[i].category@));
        let w = choose|k: int|
            0 <= k < pre.categories@.len() && (#[trigger] pre.categories@[k]).name@
                == pre.questions@[i].category@;
        assert(post.categories@[w].name@ == pre.questions@[i].category@);
    }
}

/// With unique names, the activity of a name is decided by the one row that
/// carries it.
proof fn lemma_unique_name_pins_active(s: Store, name: Seq<char>, at: int)
    requires
        s.wf(),
        0 <= at < s.categories@.len(),
        s.categories@[at].name@ == name,
    ensures
        s.spec_category_active(name) == s.categories@[at].active,
{
    if s.spec_category_active(name) {
        let w = choose|i: int|
            0 <= i < s.categories@.len() && (#[trigger] s.categories@[i]).name@ == name
                && s.categories@[i].active;
        if w != at {
            if w < at {
                assert(s.categories@[w].name@ != s.categories@[at].name@);
            } else {
                assert(s.categories@[at].name@ != s.categories@[w].name@);
            }
        }
    }
}

/// A sequence whose elements all satisfy the predicate is its own filtering.
proof fn lemma_filter_retains_all<A>(s: Seq<A>, pred: spec_fn(A) -> bool)
    requires
        forall|i: int| 0 <= i < s.len() ==> pred(#[trigger] s[i]),
    ensures
        s.filter(pred) =~= s,
    decreases s.len(),
{
    reveal(Seq::filter);
    if s.len() > 0 {
        lemma_filter_retains_all(s.drop_last(), pred);
        assert(pred(s[s.len() - 1]));
        assert(s.drop_last().push(s.last()) =~= s);
    }
}

/// A successful save returns the candidate with identifiers everywhere: the
/// question id is assigned, every returned choice carries an id, and the
/// number of returned choices equals the number submitted, in the submitted
/// order.
pub proof fn lemma_saved_aggregate_has_ids(pre: Store, q: Question, saved: Question)
    requires
        spec_saved_aggregate(pre, q, saved),
    ensures
        saved.id is Some,
        saved.choices@.len() == q.choices@.len(),
        forall|j: int| 0 <= j < saved.choices@.len() ==> (#[trigger] saved.choices@[j]).id is Some,
{
}

/// No partial aggregate is ever observable: a failed save - whichever step
/// failed, the question insert or the choice insert - leaves the store as it
/// was, so the question count of every category after the attempt equals the
/// count from before it. A failed save reports exactly that unchanged store.
pub proof fn lemma_failed_save_is_invisible(pre: Store, post: Store, cat: Seq<char>)
    requires
        post == pre,
    ensures
        post.spec_visible_questions(cat).len() == pre.spec_visible_questions(cat).len(),
        post.spec_active_category_names() == pre.spec_active_category_names(),
{
}

/// Round trip: a question saved into an active category is appended to that
/// category's visible rows, so the first page of any listing of at least
/// `n` entries, where `n` exceeds the category's previous question count,
/// shows it - with the same text, the same category, and its choices with
/// the same titles and correctness flags in the submitted order.
pub proof fn lemma_round_trip(pre: Store, post: Store, q: Question, saved: Question, n: int)
    requires
        pre.wf(),
        spec_save_succeeded(pre, post, q, saved),
        pre.spec_category_active(q.category@),
        pre.spec_visible_questions(q.category@).len() < n,
    ensures
        ({
            let visible = post.spec_visible_questions(q.category@);
            let row = visible.last();
            let rows = post.spec_choice_rows_of(row.id);
            &&& visible.len() == pre.spec_visible_questions(q.category@).len() + 1
            &&& spec_window_start(visible.len() as int, 1, n) == 0
            &&& spec_window_end(visible.len() as int, 1, n) == visible.len()
            &&& row.text@ == q.question@
            &&& row.category@ == q.category@
            &&& rows.len() == q.choices@.len()
            &&& forall|j: int|
                0 <= j < q.choices@.len() ==> (#[trigger] rows[j]).text@ == q.choices@[j].title@
                    && rows[j].correct == q.choices@[j].correct
        }),
{
    let cat = q.category@;
    let pred = spec_in_category(cat);
    let row = post.questions@.last();
    // the category stays active: the categories table is untouched
    assert(post.spec_category_active(cat)) by {
        let w = choose|i: int|
            0 <= i < pre.categories@.len() && (#[trigger] pre.categories@[i]).name@ == cat
                && pre.categories@[i].active;
        assert(post.categories@[w].name@ == cat && post.categories@[w].active);
    }
    // the visible rows gain exactly the new question row at the end
    assert(post.questions@ =~= pre.questions@.push(row));
    pre.questions@.lemma_filter_push(row, pred);
    assert(pred(row));
    assert(post.spec_visible_questions(cat) == pre.spec_visible_questions(cat).push(row));
    // the new row's choices are exactly the appended choice rows
    let clen = pre.choices@.len() as int;
    let fresh = post.choices@.skip(clen);
    let belongs = spec_belongs_to(row.id);
    assert(post.choices@ =~= post.choices@.take(clen) + fresh);
    Seq::filter_distributes_over_add(post.choices@.take(clen), fresh, belongs);
    assert forall|i: int| 0 <= i < clen implies !belongs(#[trigger] pre.choices@[i]) by {
        assert(pre.spec_has_question(pre.choices@[i].question_id));
        let w = choose|k: int|
            0 <= k < pre.questions@.len() && (#[trigger] pre.questions@[k]).id
                == pre.choices@[i].question_id;
        assert(pre.questions@[w].id < pre.next_question_id);
    }
    assert(post.choices@.take(clen) == pre.choices@);
    pre.choices@.lemma_all_neg_filter_empty(belongs);
    assert forall|j: int| 0 <= j < fresh.len() implies belongs(#[trigger] fresh[j]) by {
        assert(post.choices@[clen + j].question_id == pre.next_question_id);
    }
    lemma_filter_retains_all(fresh, belongs);
    assert(post.spec_choice_rows_of(row.id) =~= fresh);
    assert forall|j: int|
        0 <= j < q.choices@.len() implies (#[trigger] fresh[j]).text@ == q.choices@[j].title@
        && fresh[j].correct == q.choices@[j].correct by {
        assert(fresh[j] == post.choices@[clen + j]);
    }
}

/// Upserting a fresh name reports `Created`; a second upsert of the same name
/// reports `Exists`, and when the second upsert sets the flag to active, the
/// name appears in the category listing afterwards.
pub proof fn lemma_upsert_created_then_exists(
    s0: Store,
    s1: Store,
    s2: Store,
    name: Seq<char>,
    a1: Option<bool>,
    a2: Option<bool>,
)
    requires
        !s0.spec_has_category(name),
        spec_upsert_applied(s0, s1, name, a1),
        spec_upsert_applied(s1, s2, name, a2),
    ensures
        spec_upsert_status(s0, name) == SaveCategoryStatus::Created,
        spec_upsert_status(s1, name) == SaveCategoryStatus::Exists,
        a2 == Some(true) ==> s2.spec_active_category_names().contains(name),
{
    let last = s1.categories@.len() - 1;
    assert(s1.spec_has_category(name)) by {
        assert(s1.categories@[last].name@ == name);
    }
    if a2 == Some(true) {
        assert(spec_category_flag_set(s1, s2, name, true));
        assert(s2.categories@[last].name@ == name && s2.categories@[last].active);
        let active_rows = s2.categories@.filter(|c: CategoryRow| c.active);
        assert(active_rows.contains(s2.categories@[last])) by {
            broadcast use Seq::lemma_filter_contains;

        }
        let w = choose|k: int| 0 <= k < active_rows.len() && active_rows[k] == s2.categories@[last];
        assert(s2.spec_active_category_names()[w] == name);
        assert(s2.spec_active_category_names().contains(name));
    }
}

} // verus!
