use quizzer::models::{Category, Choice, Question};
use quizzer::repository::{RepositoryError, SaveCategoryStatus, Store, MAX_GENERATED_ID};

fn candidate(category: &str, text: &str, choices: &[(&str, bool)]) -> Question {
    Question {
        id: None,
        question: text.to_string(),
        category: category.to_string(),
        choices: choices
            .iter()
            .map(|(title, correct)| Choice {
                id: None,
                title: title.to_string(),
                correct: *correct,
            })
            .collect(),
    }
}

fn store_with_active_category(name: &str) -> Store {
    let mut store = Store::new();
    store
        .save_category_and_set_active(name, Some(true))
        .unwrap();
    store
}

#[test]
fn upsert_twice_reports_created_then_exists() {
    let mut store = Store::new();
    assert!(matches!(
        store.save_category_and_set_active("Science", None),
        Ok(SaveCategoryStatus::Created)
    ));
    assert!(matches!(
        store.save_category_and_set_active("Science", None),
        Ok(SaveCategoryStatus::Exists)
    ));
}

#[test]
fn upsert_with_flag_updates_existing_row_and_lists_it() {
    let mut store = Store::new();
    assert!(matches!(
        store.save_category_and_set_active("Science", None),
        Ok(SaveCategoryStatus::Created)
    ));
    // a fresh category is inactive and therefore not listed
    assert!(store.list_categories().unwrap().is_empty());
    // the update path of the upsert reports the existing row
    assert!(matches!(
        store.save_category_and_set_active("Science", Some(true)),
        Ok(SaveCategoryStatus::Exists)
    ));
    let listed: Vec<String> = store
        .list_categories()
        .unwrap()
        .into_iter()
        .map(|c: Category| c.title)
        .collect();
    assert_eq!(listed, vec!["Science".to_string()]);
}

#[test]
fn set_category_active_reports_whether_anything_changed() {
    let mut store = Store::new();
    store.save_category_and_set_active("History", None).unwrap();
    assert_eq!(store.set_category_active("History", true).unwrap(), true);
    assert_eq!(store.set_category_active("History", true).unwrap(), false);
    assert_eq!(store.set_category_active("History", false).unwrap(), true);
    assert_eq!(store.set_category_active("Missing", true).unwrap(), false);
}

#[test]
fn save_question_assigns_ids_to_question_and_choices() {
    let mut store = store_with_active_category("Science");
    let q = candidate(
        "Science",
        "What is water made of?",
        &[("H2O", true), ("CO2", false)],
    );
    let saved = store.save_question(&q).unwrap();
    assert_eq!(saved.id, Some(1));
    assert_eq!(saved.question, "What is water made of?");
    assert_eq!(saved.category, "Science");
    assert_eq!(saved.choices.len(), 2);
    assert!(saved.choices.iter().all(|c| c.id.is_some()));
    assert_eq!(saved.choices[0].id, Some(1));
    assert_eq!(saved.choices[1].id, Some(2));
}

#[test]
fn save_question_into_missing_category_is_a_foreign_key_error() {
    let mut store = Store::new();
    let q = candidate("Nowhere", "Lost?", &[("yes", false)]);
    match store.save_question(&q) {
        Err(RepositoryError::DatabaseError(code, _)) => assert_eq!(code, "23503"),
        other => panic!("expected a database error, got {:?}", other.is_ok()),
    }
    assert_eq!(store.count_questions("Nowhere").unwrap(), 0);
    assert!(store.questions.is_empty());
    assert!(store.choices.is_empty());
}

#[test]
fn failed_choice_insert_leaves_no_question_row_behind() {
    let mut store = store_with_active_category("Science");
    // the choice id sequence has one id left, the candidate needs two
    store.next_choice_id = MAX_GENERATED_ID;
    let before = store.count_questions("Science").unwrap();
    let q = candidate("Science", "Too many?", &[("a", false), ("b", false)]);
    match store.save_question(&q) {
        Err(RepositoryError::DatabaseError(code, _)) => assert_eq!(code, "2200H"),
        other => panic!("expected a database error, got {:?}", other.is_ok()),
    }
    assert_eq!(store.count_questions("Science").unwrap(), before);
    assert!(store.questions.is_empty());
    assert_eq!(store.next_question_id, 1);
}

#[test]
fn round_trip_returns_the_saved_question() {
    let mut store = store_with_active_category("Science");
    let q = candidate(
        "Science",
        "What is water made of?",
        &[("H2O", true), ("CO2", false), ("N2", false)],
    );
    store.save_question(&q).unwrap();
    let listed = store.get_questions("Science", 1, 10).unwrap();
    assert_eq!(listed.len(), 1);
    let got = &listed[0];
    assert_eq!(got.question, "What is water made of?");
    assert_eq!(got.category, "Science");
    let mut got_choices: Vec<(String, bool)> = got
        .choices
        .iter()
        .map(|c| (c.title.clone(), c.correct))
        .collect();
    let mut sent_choices: Vec<(String, bool)> = q
        .choices
        .iter()
        .map(|c| (c.title.clone(), c.correct))
        .collect();
    got_choices.sort();
    sent_choices.sort();
    assert_eq!(got_choices, sent_choices);
}

#[test]
fn questions_without_choices_are_listed_with_an_empty_list() {
    let mut store = store_with_active_category("Science");
    store
        .save_question(&candidate("Science", "Alone?", &[]))
        .unwrap();
    let listed = store.get_questions("Science", 1, 10).unwrap();
    assert_eq!(listed.len(), 1);
    assert!(listed[0].choices.is_empty());
}

#[test]
fn empty_category_lists_nothing_without_error() {
    let store = store_with_active_category("Science");
    assert_eq!(store.get_questions("Science", 1, 10).unwrap().len(), 0);
    assert_eq!(store.get_questions("Missing", 1, 10).unwrap().len(), 0);
    assert_eq!(store.count_questions("Missing").unwrap(), 0);
}

#[test]
fn inactive_category_hides_its_questions() {
    let mut store = store_with_active_category("Science");
    store
        .save_question(&candidate("Science", "Visible?", &[]))
        .unwrap();
    assert_eq!(store.count_questions("Science").unwrap(), 1);
    store.set_category_active("Science", false).unwrap();
    assert_eq!(store.count_questions("Science").unwrap(), 0);
    assert_eq!(store.get_questions("Science", 1, 10).unwrap().len(), 0);
}

#[test]
fn pages_cut_the_visible_questions_in_insertion_order() {
    let mut store = store_with_active_category("Science");
    for i in 0..5 {
        store
            .save_question(&candidate("Science", &format!("q{}", i), &[]))
            .unwrap();
    }
    let page1 = store.get_questions("Science", 1, 2).unwrap();
    let page2 = store.get_questions("Science", 2, 2).unwrap();
    let page3 = store.get_questions("Science", 3, 2).unwrap();
    let page4 = store.get_questions("Science", 4, 2).unwrap();
    assert_eq!(
        page1.iter().map(|q| q.question.clone()).collect::<Vec<_>>(),
        vec!["q0", "q1"]
    );
    assert_eq!(
        page2.iter().map(|q| q.question.clone()).collect::<Vec<_>>(),
        vec!["q2", "q3"]
    );
    assert_eq!(
        page3.iter().map(|q| q.question.clone()).collect::<Vec<_>>(),
        vec!["q4"]
    );
    assert!(page4.is_empty());
    // page 0 and page 1 both denote the first page
    let page0 = store.get_questions("Science", 0, 2).unwrap();
    assert_eq!(page0.len(), 2);
    // a negative page never produces a negative offset
    let negative = store.get_questions("Science", -3, 2).unwrap();
    assert_eq!(negative.len(), 2);
    // a non-positive size behaves as size 1
    let tiny = store.get_questions("Science", 1, 0).unwrap();
    assert_eq!(tiny.len(), 1);
}

#[test]
fn extreme_pages_and_sizes_never_wrap() {
    let mut store = store_with_active_category("Science");
    for i in 0..3 {
        store
            .save_question(&candidate("Science", &format!("q{}", i), &[]))
            .unwrap();
    }
    // a huge size returns everything
    assert_eq!(store.get_questions("Science", 1, i64::MAX).unwrap().len(), 3);
    // a huge page starts far past the data and the offset saturates
    assert_eq!(store.get_questions("Science", i64::MAX, i64::MAX).unwrap().len(), 0);
    assert_eq!(store.get_questions("Science", i64::MAX, 2).unwrap().len(), 0);
}

#[test]
fn classify_follows_the_driver_error_priority() {
    let conn = RepositoryError::classify(
        Some("down".to_string()),
        Some(("x".to_string(), "y".to_string())),
        None,
        None,
        "f".to_string(),
    );
    assert!(matches!(conn, RepositoryError::ConnectionError(m) if m == "down"));
    let db = RepositoryError::classify(
        None,
        Some(("23505".to_string(), "duplicate".to_string())),
        Some("conv".to_string()),
        None,
        "f".to_string(),
    );
    assert!(matches!(db, RepositoryError::DatabaseError(c, m) if c == "23505" && m == "duplicate"));
    let conv =
        RepositoryError::classify(None, None, Some("conv".to_string()), None, "f".to_string());
    assert!(matches!(conv, RepositoryError::ConversionError(m) if m == "conv"));
    let io = RepositoryError::classify(None, None, None, Some("io".to_string()), "f".to_string());
    assert!(matches!(io, RepositoryError::IOError(m) if m == "io"));
    let unknown = RepositoryError::classify(None, None, None, None, "odd".to_string());
    assert!(matches!(unknown, RepositoryError::UnknownError(Some(m)) if m == "odd"));
}

#[test]
fn repository_error_messages() {
    assert_eq!(
        RepositoryError::ConnectionError("down".to_string()).message(),
        "down"
    );
    assert_eq!(RepositoryError::UnknownError(None).message(), "Unknown Error");
}
