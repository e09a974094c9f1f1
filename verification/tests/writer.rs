use accounts_indexer::models::{AccessKey, Account};
use accounts_indexer::writer::{
    chunk_ranges, decide_after_attempt, RetryDecision, WriteOutcome, CHUNK_SIZE, RETRY_BOUND,
};

#[test]
fn insert_query_numbers_placeholders_consecutively() {
    assert_eq!(
        AccessKey::insert_query(2).unwrap(),
        "INSERT INTO access_keys VALUES ($1, $2, $3, $4, $5), ($6, $7, $8, $9, $10) ON CONFLICT DO NOTHING"
    );
    assert_eq!(
        Account::insert_query(1).unwrap(),
        "INSERT INTO accounts VALUES ($1, $2, $3, $4, $5) ON CONFLICT DO NOTHING"
    );
    assert!(AccessKey::insert_query(0).is_none());
    assert!(Account::insert_query(0).is_none());
}

#[test]
fn insert_query_for_three_rows_reaches_two_digit_placeholders() {
    assert_eq!(
        Account::insert_query(3).unwrap(),
        "INSERT INTO accounts VALUES ($1, $2, $3, $4, $5), ($6, $7, $8, $9, $10), ($11, $12, $13, $14, $15) ON CONFLICT DO NOTHING"
    );
}

#[test]
fn table_names_and_field_counts() {
    assert_eq!(AccessKey::name(), "access_keys");
    assert_eq!(Account::name(), "accounts");
    assert_eq!(AccessKey::field_count(), 5);
    assert_eq!(Account::field_count(), 5);
}

#[test]
fn delete_queries_are_guarded_on_the_deletion_marker() {
    assert!(Account::delete_query().contains("deleted_by_receipt_id IS NULL"));
    assert!(AccessKey::delete_query().contains("deleted_by_receipt_id IS NULL"));
    assert!(AccessKey::delete_query().contains("public_key = $1"));
    assert!(AccessKey::cascade_delete_query().contains("deleted_by_receipt_id IS NULL"));
    assert!(!AccessKey::cascade_delete_query().contains("public_key"));
}

#[test]
fn chunk_ranges_cover_rows_in_full_groups_of_ten() {
    let r = chunk_ranges(25, CHUNK_SIZE);
    assert_eq!(r, vec![(0, 10), (10, 20), (20, 25)]);
    let r = chunk_ranges(10, CHUNK_SIZE);
    assert_eq!(r, vec![(0, 10)]);
    let r = chunk_ranges(0, CHUNK_SIZE);
    assert!(r.is_empty());
    let r = chunk_ranges(1, CHUNK_SIZE);
    assert_eq!(r, vec![(0, 1)]);
}

#[test]
fn retry_decisions_follow_the_bound() {
    assert!(matches!(
        decide_after_attempt(1, &WriteOutcome::Succeeded),
        RetryDecision::Done
    ));
    assert!(matches!(
        decide_after_attempt(RETRY_BOUND, &WriteOutcome::Succeeded),
        RetryDecision::Done
    ));
    assert!(matches!(
        decide_after_attempt(1, &WriteOutcome::TransientFailure),
        RetryDecision::Retry
    ));
    assert!(matches!(
        decide_after_attempt(RETRY_BOUND - 1, &WriteOutcome::TransientFailure),
        RetryDecision::Retry
    ));
    assert!(matches!(
        decide_after_attempt(RETRY_BOUND, &WriteOutcome::TransientFailure),
        RetryDecision::Fatal
    ));
}
