use vstd::prelude::*;
use vstd::string::*;

use crate::models::{
    lemma_matching_correct_counts, spec_candidate_matches, spec_valid_new_question, Category,
    Choice, NewQuestion, Question,
};
use crate::pagination::lemma_page_count_le_total;
use crate::pagination::{spec_is_last_page, spec_page_count};
use crate::repository::{
    spec_can_assign_ids, spec_save_succeeded, spec_upsert_applied, spec_upsert_status,
    spec_window_end, spec_window_start, SaveCategoryStatus, Store,
};
use crate::services::{AuthorizationError, AuthorizationService, ServiceError};

verus! {

/// One page of questions together with the pagination descriptor computed
/// for it: the 1-based page, the number of items actually returned, the
/// total page count and whether this page is the last one.
pub struct PaginatedQuestions {
    pub data: Vec<Question>,
    pub page: i32,
    pub size: i32,
    pub page_count: i32,
    pub last: bool,
}

impl PaginatedQuestions {
    /// Computes the pagination descriptor for one page of data. A
    /// non-positive limit is treated as 1; a total of zero records is
    /// reported as one (empty) page.
    pub fn new(data: Vec<Question>, page: i32, total_records: i32, limit: i32) -> (r:
        PaginatedQuestions)
        requires
            data@.len() <= i32::MAX,
        ensures
            r.data == data,
            r.page == page,
            r.size == data@.len(),
            r.page_count == spec_page_count(total_records as int, limit as int),
            r.last == spec_is_last_page(page as int, total_records as int, limit as int),
    {
        let effective_limit: i32 = if limit <= 0 {
            1
        } else {
            limit
        };
        let page_count: i32 = if total_records <= 0 {
            1
        } else {
            proof {
                lemma_page_count_le_total(total_records as int, limit as int);
            }
            (total_records - 1) / effective_limit + 1
        };
        let size = data.len() as i32;
        let last = page >= page_count;
        PaginatedQuestions { data, page, size, page_count, last }
    }
}

/// Failure of an API operation: the request was not authorized, or the
/// service underneath failed.
#[derive(Debug)]
pub enum ApiError {
    Authorization(AuthorizationError),
    Service(ServiceError),
}

/// How a question value saved through the API relates to the submitted
/// candidate: some question equal to the candidate, with no ids yet, was
/// saved successfully.
pub open spec fn spec_new_question_saved(
    pre: Store,
    post: Store,
    nq: NewQuestion,
    saved: Question,
) -> bool {
    exists|q: Question|
        #![auto]
        spec_candidate_matches(nq, q) && spec_save_succeeded(pre, post, q, saved)
}

/// The read half of the API.
pub struct Query;

/// The write half of the API, behind the authorization gate.
pub struct Mutation;

impl Query {
    /// The version the API reports.
    pub fn api_version(&self) -> (r: &'static str)
        ensures
            r@ == "1.0"@,
    {
        "1.0"
    }

    /// The active categories.
    pub fn categories(&self, store: &Store) -> (r: Result<Vec<Category>, ApiError>)
        ensures
            r is Ok,
            r matches Ok(cats) ==> {
                &&& cats@.len() == store.spec_active_category_names().len()
                &&& forall|k: int|
                    0 <= k < cats@.len() ==> (#[trigger] cats@[k]).title@
                        == store.spec_active_category_names()[k]
            },
    {
        match store.list_categories() {
            Ok(cats) => Ok(cats),
            Err(e) => Err(ApiError::Service(ServiceError::RepositoryError(e))),
        }
    }

    /// One page of the questions of a category, with its pagination
    /// descriptor; the page defaults to 1 and the page size to 10.
    pub fn questions(
        &self,
        store: &Store,
        category: &str,
        page: Option<i32>,
        size: Option<i32>,
    ) -> (r: Result<PaginatedQuestions, ApiError>)
        requires
            store.wf(),
        ensures
            r is Ok,
            r matches Ok(p) ==> ({
                let total = store.spec_visible_questions(category@).len() as int;
                let real_page: int = match page {
                    Some(v) => v as int,
                    None => 1,
                };
                let real_size: int = match size {
                    Some(v) => v as int,
                    None => 10,
                };
                let start = spec_window_start(total, real_page, real_size);
                let end = spec_window_end(total, real_page, real_size);
                &&& p.page == real_page
                &&& p.size == p.data@.len()
                &&& p.page_count == spec_page_count(total, real_size)
                &&& p.last == spec_is_last_page(real_page, total, real_size)
                &&& p.data@.len() == end - start
                &&& forall|k: int|
                    0 <= k < p.data@.len() ==> store.spec_assembled(
                        store.spec_visible_questions(category@)[start + k],
                        #[trigger] p.data@[k],
                    )
            }),
    {
        let real_page: i32 = match page {
            Some(v) => v,
            None => 1,
        };
        let real_size: i32 = match size {
            Some(v) => v,
            None => 10,
        };
        let total = match store.count_questions(category) {
            Ok(n) => n,
            Err(e) => {
                return Err(ApiError::Service(ServiceError::RepositoryError(e)));
            },
        };
        let data = match store.get_questions(category, real_page as i64, real_size as i64) {
            Ok(v) => v,
            Err(e) => {
                return Err(ApiError::Service(ServiceError::RepositoryError(e)));
            },
        };
        proof {
            crate::repository::lemma_question_count_bound(*store);
            if store.spec_category_active(category@) {
                store.questions@.lemma_filter_len(crate::repository::spec_in_category(category@));
            }
        }
        Ok(PaginatedQuestions::new(data, real_page, total as i32, real_size))
    }
}

impl Mutation {
    /// Creates (or re-asserts) a category, behind the authorization gate: a
    /// rejected digest leaves the store untouched.
    pub fn create_category(
        &self,
        auth: &AuthorizationService,
        store: &mut Store,
        name: &str,
        digest: &str,
    ) -> (r: Result<Category, ApiError>)
        requires
            old(store).wf(),
        ensures
            final(store).wf(),
            r is Err ==> *final(store) == *old(store),
            !auth.spec_authorized(digest@, "GET"@, "/graphql"@) <==> (r matches Err(
                ApiError::Authorization(_),
            )),
            r matches Ok(c) ==> c.title@ == name@ && spec_upsert_applied(
                *old(store),
                *final(store),
                name@,
                None,
            ),
    {
        if let Err(e) = auth.verify_digest(digest, "GET", "/graphql") {
            return Err(ApiError::Authorization(e));
        }
        let category = Category { title: String::from_str(name) };
        match store.save_category(&category) {
            Ok(_) => Ok(category),
            Err(e) => Err(ApiError::Service(ServiceError::RepositoryError(e))),
        }
    }

    /// Creates a category or sets its active flag, behind the authorization
    /// gate; reports whether the row was created or already existed.
    pub fn activate_category(
        &self,
        auth: &AuthorizationService,
        store: &mut Store,
        name: &str,
        active: bool,
        digest: &str,
    ) -> (r: Result<SaveCategoryStatus, ApiError>)
        requires
            old(store).wf(),
        ensures
            final(store).wf(),
            r is Err ==> *final(store) == *old(store),
            !auth.spec_authorized(digest@, "GET"@, "/graphql"@) <==> (r matches Err(
                ApiError::Authorization(_),
            )),
            r matches Ok(status) ==> status == spec_upsert_status(*old(store), name@)
                && spec_upsert_applied(*old(store), *final(store), name@, Some(active)),
    {
        if let Err(e) = auth.verify_digest(digest, "GET", "/graphql") {
            return Err(ApiError::Authorization(e));
        }
        match store.save_category_and_set_active(name, Some(active)) {
            Ok(status) => Ok(status),
            Err(e) => Err(ApiError::Service(ServiceError::RepositoryError(e))),
        }
    }

    /// Saves a candidate question, behind the authorization gate: the digest
    /// is checked first, then the single-correct-choice rule, and only then
    /// is storage touched - atomically.
    pub fn create_question(
        &self,
        auth: &AuthorizationService,
        store: &mut Store,
        new_question: NewQuestion,
        digest: &str,
    ) -> (r: Result<Question, ApiError>)
        requires
            old(store).wf(),
        ensures
            final(store).wf(),
            r is Err ==> *final(store) == *old(store),
            !auth.spec_authorized(digest@, "GET"@, "/graphql"@) <==> (r matches Err(
                ApiError::Authorization(_),
            )),
            (auth.spec_authorized(digest@, "GET"@, "/graphql"@) && !spec_valid_new_question(
                new_question,
            )) <==> (r matches Err(ApiError::Service(ServiceError::ValidationError(_)))),
            r is Ok <==> (auth.spec_authorized(digest@, "GET"@, "/graphql"@)
                && spec_valid_new_question(new_question) && old(store).spec_has_category(
                new_question.category@,
            ) && spec_can_assign_ids(*old(store), new_question.choices@.len())),
            r matches Ok(saved) ==> spec_new_question_saved(
                *old(store),
                *final(store),
                new_question,
                saved,
            ),
    {
        if let Err(e) = auth.verify_digest(digest, "GET", "/graphql") {
            return Err(ApiError::Authorization(e));
        }
        let mut choices: Vec<Choice> = Vec::new();
        let mut i: usize = 0;
        while i < new_question.choices.len()
            invariant
                i <= new_question.choices@.len(),
                choices@.len() == i,
                forall|j: int|
                    0 <= j < i ==> {
                        let c = #[trigger] choices@[j];
                        &&& c.id is None
                        &&& c.title@ == new_question.choices@[j].title@
                        &&& c.correct == new_question.choices@[j].correct
                    },
            decreases new_question.choices@.len() - i,
        {
            choices.push(
                Choice {
                    id: None,
                    title: new_question.choices[i].title.clone(),
                    correct: new_question.choices[i].correct,
                },
            );
            i = i + 1;
        }
        let question = Question {
            id: None,
            question: new_question.question.clone(),
            category: new_question.category.clone(),
            choices,
        };
        proof {
            assert(spec_candidate_matches(new_question, question));
            lemma_matching_correct_counts(question.choices@, new_question.choices@);
        }
        match store.create_question(&question) {
            Ok(saved) => Ok(saved),
            Err(e) => Err(ApiError::Service(e)),
        }
    }
}

} // verus!
