use quizzer::controllers::PaginatedQuestions;
use quizzer::responses::PaginatedResponse;

#[test]
fn page_count_is_ceiling_of_total_over_limit() {
    let p = PaginatedQuestions::new(Vec::new(), 1, 10, 3);
    assert_eq!(p.page_count, 4);
    assert_eq!(p.page, 1);
    assert_eq!(p.size, 0);
    assert!(!p.last);

    let p = PaginatedQuestions::new(Vec::new(), 1, 9, 3);
    assert_eq!(p.page_count, 3);

    let p = PaginatedQuestions::new(Vec::new(), 1, 1, 10);
    assert_eq!(p.page_count, 1);
    assert!(p.last);
}

#[test]
fn page_at_or_past_page_count_is_last() {
    let at = PaginatedQuestions::new(Vec::new(), 4, 10, 3);
    assert!(at.last);
    let past = PaginatedQuestions::new(Vec::new(), 7, 10, 3);
    assert!(past.last);
    let before = PaginatedQuestions::new(Vec::new(), 3, 10, 3);
    assert!(!before.last);
}

#[test]
fn zero_total_is_one_empty_page() {
    let p = PaginatedQuestions::new(Vec::new(), 1, 0, 10);
    assert_eq!(p.page_count, 1);
    assert!(p.last);
}

#[test]
fn non_positive_limit_behaves_as_limit_one() {
    let zero = PaginatedQuestions::new(Vec::new(), 2, 5, 0);
    let one = PaginatedQuestions::new(Vec::new(), 2, 5, 1);
    assert_eq!(zero.page_count, one.page_count);
    assert_eq!(zero.last, one.last);

    let negative = PaginatedQuestions::new(Vec::new(), 2, 5, -7);
    assert_eq!(negative.page_count, one.page_count);
    assert_eq!(negative.last, one.last);
}

#[test]
fn paginated_response_uses_the_same_policy() {
    let p: PaginatedResponse<u64> = PaginatedResponse::new(vec![1, 2, 3], 1, 10, 3);
    assert_eq!(p.page_count, 4);
    assert_eq!(p.size, 3);
    assert!(!p.last);

    let empty: PaginatedResponse<u64> = PaginatedResponse::new(Vec::new(), 1, 0, 0);
    assert_eq!(empty.page_count, 1);
    assert!(empty.last);
}
