use md5::{Digest, Md5};
use quizzer::controllers::{ApiError, Mutation, Query};
use quizzer::models::{NewChoice, NewQuestion, ValidationError};
use quizzer::models::{Choice, Question};
use quizzer::registry::ControllerRegistry;
use quizzer::repository::{SaveCategoryStatus, Store};
use quizzer::services::{AuthorizationService, ServiceError};
use quizzer::sql;
use quizzer::write_path::{WriteAction, WriteEvent, WriteState};

fn md5_hex(input: &str) -> String {
    let digest = Md5::digest(input.as_bytes());
    digest.iter().map(|b| format!("{:02x}", b)).collect()
}

fn good_digest(auth_user: &str, auth_pass: &str, nonce: &str) -> String {
    let a1 = md5_hex(&format!("{}:administrator:{}", auth_user, auth_pass));
    let a2 = md5_hex("GET:/graphql");
    let response = md5_hex(&format!("{}:{}:{}", a1, nonce, a2));
    format!("Digest nonce=\"{}\", response=\"{}\"", nonce, response)
}

fn new_question(category: &str, text: &str, choices: &[(&str, bool)]) -> NewQuestion {
    NewQuestion {
        question: text.to_string(),
        category: category.to_string(),
        choices: choices
            .iter()
            .map(|(title, correct)| NewChoice {
                title: title.to_string(),
                correct: *correct,
            })
            .collect(),
    }
}

#[test]
fn rejected_question_is_never_written() {
    let mut store = Store::new();
    store
        .save_category_and_set_active("Science", Some(true))
        .unwrap();
    let before = store.count_questions("Science").unwrap();
    let bad = Question {
        id: None,
        question: "Two rights?".to_string(),
        category: "Science".to_string(),
        choices: vec![
            Choice {
                id: None,
                title: "a".to_string(),
                correct: true,
            },
            Choice {
                id: None,
                title: "b".to_string(),
                correct: true,
            },
        ],
    };
    match store.create_question(&bad) {
        Err(ServiceError::ValidationError(e)) => {
            assert_eq!(e.message(), "Only one correct choice allowed");
        }
        other => panic!("expected a validation error, got {:?}", other),
    }
    assert_eq!(store.count_questions("Science").unwrap(), before);
}

#[test]
fn zero_or_one_correct_choice_is_accepted() {
    let mut store = Store::new();
    store
        .save_category_and_set_active("Science", Some(true))
        .unwrap();
    let zero = Question {
        id: None,
        question: "None right?".to_string(),
        category: "Science".to_string(),
        choices: vec![Choice {
            id: None,
            title: "a".to_string(),
            correct: false,
        }],
    };
    let saved = store.create_question(&zero).unwrap();
    assert!(saved.id.is_some());
    assert_eq!(saved.choices.len(), 1);
    assert!(saved.choices.iter().all(|c| c.id.is_some()));
}

#[test]
fn validate_is_usable_on_its_own() {
    let ok = Question {
        id: None,
        question: "q".to_string(),
        category: "c".to_string(),
        choices: vec![Choice {
            id: None,
            title: "a".to_string(),
            correct: true,
        }],
    };
    assert!(Question::validate(&ok).is_ok());
    let bad = Question {
        id: None,
        question: "q".to_string(),
        category: "c".to_string(),
        choices: vec![
            Choice {
                id: None,
                title: "a".to_string(),
                correct: true,
            },
            Choice {
                id: None,
                title: "b".to_string(),
                correct: true,
            },
        ],
    };
    let err: ValidationError = Question::validate(&bad).unwrap_err();
    assert_eq!(err.message(), "Only one correct choice allowed");
}

#[test]
fn mutations_require_a_valid_digest() {
    let auth = AuthorizationService::new("admin", "secret");
    let mut store = Store::new();
    let r = Mutation.create_category(&auth, &mut store, "Science", "Digest nonce=\"x\"");
    assert!(matches!(r, Err(ApiError::Authorization(_))));
    assert!(store.categories.is_empty());

    let digest = good_digest("admin", "secret", "n1");
    let created = Mutation
        .create_category(&auth, &mut store, "Science", &digest)
        .unwrap();
    assert_eq!(created.title, "Science");
    assert_eq!(store.categories.len(), 1);
}

#[test]
fn activate_category_reports_the_upsert_status() {
    let auth = AuthorizationService::new("admin", "secret");
    let mut store = Store::new();
    let digest = good_digest("admin", "secret", "n1");
    let first = Mutation
        .activate_category(&auth, &mut store, "Science", true, &digest)
        .unwrap();
    assert!(matches!(first, SaveCategoryStatus::Created));
    let second = Mutation
        .activate_category(&auth, &mut store, "Science", true, &digest)
        .unwrap();
    assert!(matches!(second, SaveCategoryStatus::Exists));
    let listed = Query.categories(&store).unwrap();
    assert_eq!(listed.len(), 1);
    assert_eq!(listed[0].title, "Science");
}

#[test]
fn create_question_through_the_api_round_trips() {
    let auth = AuthorizationService::new("admin", "secret");
    let mut store = Store::new();
    let digest = good_digest("admin", "secret", "n1");
    Mutation
        .activate_category(&auth, &mut store, "Science", true, &digest)
        .unwrap();
    let saved = Mutation
        .create_question(
            &auth,
            &mut store,
            new_question("Science", "What is water?", &[("H2O", true), ("XYZ", false)]),
            &digest,
        )
        .unwrap();
    assert!(saved.id.is_some());
    assert_eq!(saved.choices.len(), 2);

    let page = Query
        .questions(&store, "Science", None, None)
        .unwrap();
    assert_eq!(page.page, 1);
    assert_eq!(page.size, 1);
    assert_eq!(page.page_count, 1);
    assert!(page.last);
    assert_eq!(page.data.len(), 1);
    assert_eq!(page.data[0].question, "What is water?");
    assert_eq!(page.data[0].choices.len(), 2);
}

#[test]
fn invalid_candidate_through_the_api_is_a_validation_error() {
    let auth = AuthorizationService::new("admin", "secret");
    let mut store = Store::new();
    let digest = good_digest("admin", "secret", "n1");
    Mutation
        .activate_category(&auth, &mut store, "Science", true, &digest)
        .unwrap();
    let r = Mutation.create_question(
        &auth,
        &mut store,
        new_question("Science", "Bad", &[("a", true), ("b", true)]),
        &digest,
    );
    assert!(matches!(
        r,
        Err(ApiError::Service(ServiceError::ValidationError(_)))
    ));
    assert_eq!(store.count_questions("Science").unwrap(), 0);
}

#[test]
fn api_version_is_fixed() {
    assert_eq!(Query.api_version(), "1.0");
}

#[test]
fn registry_resolves_the_last_controller_put_under_a_key() {
    let mut registry: ControllerRegistry<u32> = ControllerRegistry::new();
    assert!(registry.get("questions").is_none());
    registry.put("questions", 1);
    registry.put("categories", 2);
    assert_eq!(registry.get("questions"), Some(&1));
    assert_eq!(registry.get("categories"), Some(&2));
    registry.put("questions", 3);
    assert_eq!(registry.get("questions"), Some(&3));
    assert!(registry.get("missing").is_none());
}

#[test]
fn bulk_insert_statement_numbers_one_group_per_choice() {
    assert_eq!(sql::choice_value_groups(0), "");
    assert_eq!(sql::choice_value_groups(1), "($1, $2, $3)");
    assert_eq!(sql::choice_value_groups(2), "($1, $2, $3),($4, $5, $6)");
    assert_eq!(
        sql::choices_insert_statement(2),
        "INSERT INTO choices (question_id, text, correct) VALUES ($1, $2, $3),($4, $5, $6) RETURNING id"
    );
    assert_eq!(
        sql::choice_value_groups(4),
        "($1, $2, $3),($4, $5, $6),($7, $8, $9),($10, $11, $12)"
    );
}

#[test]
fn upsert_statement_shape_follows_the_flag() {
    assert_eq!(
        sql::category_upsert_statement(false),
        "INSERT INTO categories (name) VALUES ($1) ON CONFLICT DO NOTHING;"
    );
    assert_eq!(
        sql::category_upsert_statement(true),
        "INSERT INTO categories (name,active) VALUES ($1,$2) ON CONFLICT(name) DO UPDATE SET active=$2;"
    );
}

#[test]
fn write_path_commits_only_after_every_step_succeeded() {
    let (s1, a1) = quizzer::write_path::write_step(
        WriteState::Validating,
        WriteEvent::ValidationPassed,
    );
    assert!(matches!(s1, WriteState::InsertingQuestion));
    assert!(matches!(a1, WriteAction::InsertQuestion));
    let (s2, a2) = quizzer::write_path::write_step(s1, WriteEvent::QuestionInserted(7));
    assert!(matches!(s2, WriteState::InsertingChoices { question_id: 7 }));
    assert!(matches!(a2, WriteAction::InsertChoices));
    let (s3, a3) =
        quizzer::write_path::write_step(s2, WriteEvent::ChoicesInserted(vec![1, 2]));
    assert!(matches!(s3, WriteState::Committing { question_id: 7, .. }));
    assert!(matches!(a3, WriteAction::Commit));
    let (s4, a4) = quizzer::write_path::write_step(s3, WriteEvent::CommitSucceeded);
    assert!(matches!(s4, WriteState::Committed { question_id: 7, .. }));
    assert!(matches!(a4, WriteAction::Stop));
}

#[test]
fn write_path_rolls_back_on_any_failure() {
    let (s, a) = quizzer::write_path::write_step(
        WriteState::InsertingQuestion,
        WriteEvent::StatementFailed,
    );
    assert!(matches!(s, WriteState::RolledBack));
    assert!(matches!(a, WriteAction::Rollback));
    let (s, a) = quizzer::write_path::write_step(
        WriteState::InsertingChoices { question_id: 1 },
        WriteEvent::StatementFailed,
    );
    assert!(matches!(s, WriteState::RolledBack));
    assert!(matches!(a, WriteAction::Rollback));
    let (s, a) = quizzer::write_path::write_step(
        WriteState::Committing {
            question_id: 1,
            choice_ids: vec![1],
        },
        WriteEvent::CommitFailed,
    );
    assert!(matches!(s, WriteState::RolledBack));
    assert!(matches!(a, WriteAction::Rollback));
    let (s, a) =
        quizzer::write_path::write_step(WriteState::Validating, WriteEvent::ValidationFailed);
    assert!(matches!(s, WriteState::Rejected));
    assert!(matches!(a, WriteAction::Stop));
}

#[test]
fn terminal_states_absorb_further_events() {
    let (s, a) =
        quizzer::write_path::write_step(WriteState::RolledBack, WriteEvent::CommitSucceeded);
    assert!(matches!(s, WriteState::RolledBack));
    assert!(matches!(a, WriteAction::Stop));
}
