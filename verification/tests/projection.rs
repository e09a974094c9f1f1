use accounts_indexer::events::Event;
use accounts_indexer::extract::{collect_implicit_candidates, extract_chunk_events};
use accounts_indexer::input::{
    Action, ExecutionOutcomeWithReceipt, ExecutionStatus, Permission, Receipt, ReceiptEnum,
};
use accounts_indexer::reduce::reduce_chunk;

fn action_receipt(
    receiver: &str,
    receipt_id: &str,
    status: ExecutionStatus,
    actions: Vec<Action>,
) -> ExecutionOutcomeWithReceipt {
    ExecutionOutcomeWithReceipt {
        status,
        receipt: Receipt {
            receiver_id: receiver.to_string(),
            receipt_id: receipt_id.to_string(),
            receipt: ReceiptEnum::Action { actions },
        },
    }
}

fn implicit_id() -> String {
    "aa".repeat(32)
}

fn expected_key_text(hex_id: &str) -> String {
    let bytes = hex::decode(hex_id).unwrap();
    let key = near_crypto::ED25519PublicKey::try_from(&bytes[..]).unwrap();
    near_crypto::PublicKey::from(key).to_string()
}

#[test]
fn transfer_to_implicit_account_creates_account_and_key() {
    let id = implicit_id();
    let outcomes = vec![action_receipt(
        &id,
        "r1",
        ExecutionStatus::SuccessValue,
        vec![Action::Transfer],
    )];
    let live: Vec<String> = vec![];
    let events = extract_chunk_events(&outcomes, &live);
    assert_eq!(events.len(), 2);
    match &events[0] {
        Event::AccountCreated { account_id, receipt_id } => {
            assert_eq!(account_id, &id);
            assert_eq!(receipt_id, "r1");
        }
        _ => panic!("expected an account creation"),
    }
    match &events[1] {
        Event::KeyCreated { public_key, account_id, receipt_id, permission_kind } => {
            assert_eq!(public_key, &expected_key_text(&id));
            assert!(public_key.starts_with("ed25519:"));
            assert_eq!(account_id, &id);
            assert_eq!(receipt_id, "r1");
            assert_eq!(permission_kind, "FULL_ACCESS");
        }
        _ => panic!("expected a key creation"),
    }
}

#[test]
fn transfer_to_existing_live_account_is_ignored() {
    let id = implicit_id();
    let outcomes = vec![action_receipt(
        &id,
        "r1",
        ExecutionStatus::SuccessValue,
        vec![Action::Transfer],
    )];
    let live: Vec<String> = vec![id.clone()];
    let events = extract_chunk_events(&outcomes, &live);
    assert_eq!(events.len(), 0);
}

#[test]
fn transfer_to_malformed_receiver_is_silently_ignored() {
    let bad_hex = "zz".repeat(32);
    let short = "ab".repeat(16);
    let live: Vec<String> = vec![];
    for receiver in [bad_hex.as_str(), short.as_str(), "alice.near"] {
        let outcomes = vec![action_receipt(
            receiver,
            "r1",
            ExecutionStatus::SuccessValue,
            vec![Action::Transfer],
        )];
        let events = extract_chunk_events(&outcomes, &live);
        assert_eq!(events.len(), 0);
    }
}

#[test]
fn failed_and_unknown_receipts_are_excluded() {
    let live: Vec<String> = vec![];
    let outcomes = vec![
        action_receipt(
            "alice.near",
            "r1",
            ExecutionStatus::Failure,
            vec![Action::CreateAccount],
        ),
        action_receipt(
            "bob.near",
            "r2",
            ExecutionStatus::Unknown,
            vec![Action::CreateAccount],
        ),
        ExecutionOutcomeWithReceipt {
            status: ExecutionStatus::SuccessValue,
            receipt: Receipt {
                receiver_id: "carol.near".to_string(),
                receipt_id: "r3".to_string(),
                receipt: ReceiptEnum::Data,
            },
        },
    ];
    let events = extract_chunk_events(&outcomes, &live);
    assert_eq!(events.len(), 0);
}

#[test]
fn create_then_delete_in_one_batch_yields_one_row_with_both_markers() {
    let live: Vec<String> = vec![];
    let outcomes = vec![
        action_receipt(
            "alice.near",
            "r1",
            ExecutionStatus::SuccessValue,
            vec![Action::CreateAccount],
        ),
        action_receipt(
            "alice.near",
            "r2",
            ExecutionStatus::SuccessReceiptId,
            vec![Action::DeleteAccount],
        ),
    ];
    let deltas = reduce_chunk(&outcomes, &live, 77);
    assert_eq!(deltas.accounts_to_create.len(), 0);
    assert_eq!(deltas.accounts_to_update.len(), 1);
    let row = &deltas.accounts_to_update[0];
    assert_eq!(row.account_id, "alice.near");
    assert_eq!(row.created_by_receipt_id.as_deref(), Some("r1"));
    assert_eq!(row.created_by_block_height, Some(77));
    assert_eq!(row.deleted_by_receipt_id.as_deref(), Some("r2"));
    assert_eq!(row.deleted_by_block_height, Some(77));
}

#[test]
fn two_transfers_to_same_implicit_receiver_create_one_row() {
    let id = implicit_id();
    let live: Vec<String> = vec![];
    let outcomes = vec![
        action_receipt(&id, "r1", ExecutionStatus::SuccessValue, vec![Action::Transfer]),
        action_receipt(&id, "r2", ExecutionStatus::SuccessValue, vec![Action::Transfer]),
    ];
    let deltas = reduce_chunk(&outcomes, &live, 9);
    assert_eq!(deltas.accounts_to_create.len(), 1);
    assert_eq!(deltas.accounts_to_update.len(), 0);
    let row = &deltas.accounts_to_create[0];
    assert_eq!(row.account_id, id);
    // last-write-wins within the batch: the second transfer's receipt stands
    assert_eq!(row.created_by_receipt_id.as_deref(), Some("r2"));
    assert_eq!(deltas.access_keys_to_create.len(), 1);
    assert_eq!(deltas.access_keys_to_create[0].public_key, expected_key_text(&id));
}

#[test]
fn add_key_then_delete_key_in_one_batch_merges_into_one_row() {
    let live: Vec<String> = vec![];
    let outcomes = vec![
        action_receipt(
            "alice.near",
            "r1",
            ExecutionStatus::SuccessValue,
            vec![Action::AddKey {
                public_key: "ed25519:K".to_string(),
                permission: Permission::FullAccess,
            }],
        ),
        action_receipt(
            "alice.near",
            "r2",
            ExecutionStatus::SuccessValue,
            vec![Action::DeleteKey { public_key: "ed25519:K".to_string() }],
        ),
    ];
    let deltas = reduce_chunk(&outcomes, &live, 5);
    assert_eq!(deltas.access_keys_to_create.len(), 0);
    assert_eq!(deltas.access_keys_from_deleted_accounts.len(), 0);
    assert_eq!(deltas.access_keys_to_update.len(), 1);
    let row = &deltas.access_keys_to_update[0];
    assert_eq!(row.public_key, "ed25519:K");
    assert_eq!(row.account_id, "alice.near");
    assert_eq!(row.created_by_receipt_id.as_deref(), Some("r1"));
    assert_eq!(row.deleted_by_receipt_id.as_deref(), Some("r2"));
    assert_eq!(row.permission_kind, "FULL_ACCESS");
}

#[test]
fn delete_account_without_create_yields_pure_tombstone() {
    let live: Vec<String> = vec![];
    let outcomes = vec![action_receipt(
        "alice.near",
        "rd",
        ExecutionStatus::SuccessValue,
        vec![Action::DeleteAccount],
    )];
    let deltas = reduce_chunk(&outcomes, &live, 12);
    assert_eq!(deltas.accounts_to_create.len(), 0);
    assert_eq!(deltas.accounts_to_update.len(), 1);
    let row = &deltas.accounts_to_update[0];
    assert_eq!(row.account_id, "alice.near");
    assert!(row.created_by_receipt_id.is_none());
    assert!(row.created_by_block_height.is_none());
    assert_eq!(row.deleted_by_receipt_id.as_deref(), Some("rd"));
    assert_eq!(row.deleted_by_block_height, Some(12));
    // the cascade tombstone for the account's keys, with the empty sentinel
    assert_eq!(deltas.access_keys_from_deleted_accounts.len(), 1);
    let key_row = &deltas.access_keys_from_deleted_accounts[0];
    assert_eq!(key_row.public_key, "");
    assert_eq!(key_row.account_id, "alice.near");
    assert_eq!(key_row.deleted_by_receipt_id.as_deref(), Some("rd"));
}

#[test]
fn no_row_lands_in_both_create_and_delete_sets() {
    let live: Vec<String> = vec![];
    let outcomes = vec![
        action_receipt(
            "alice.near",
            "r1",
            ExecutionStatus::SuccessValue,
            vec![
                Action::CreateAccount,
                Action::AddKey {
                    public_key: "ed25519:K".to_string(),
                    permission: Permission::FunctionCall,
                },
            ],
        ),
        action_receipt(
            "bob.near",
            "r2",
            ExecutionStatus::SuccessValue,
            vec![Action::CreateAccount, Action::DeleteAccount],
        ),
    ];
    let deltas = reduce_chunk(&outcomes, &live, 3);
    for created in &deltas.accounts_to_create {
        assert!(created.deleted_by_receipt_id.is_none());
        for deleted in &deltas.accounts_to_update {
            assert!(deleted.deleted_by_receipt_id.is_some());
            assert_ne!(created.account_id, deleted.account_id);
        }
    }
    for created in &deltas.access_keys_to_create {
        assert!(created.deleted_by_receipt_id.is_none());
        for deleted in &deltas.access_keys_to_update {
            assert!(
                created.public_key != deleted.public_key
                    || created.account_id != deleted.account_id
            );
        }
    }
    assert_eq!(deltas.accounts_to_create.len(), 1);
    assert_eq!(deltas.accounts_to_update.len(), 1);
    assert_eq!(deltas.access_keys_to_create.len(), 1);
    assert_eq!(deltas.access_keys_to_update.len(), 0);
    assert_eq!(deltas.access_keys_from_deleted_accounts.len(), 1);
    assert_eq!(deltas.access_keys_to_create[0].permission_kind, "FUNCTION_CALL");
}

#[test]
fn implicit_candidates_lists_only_wellformed_transfer_receivers() {
    let id = implicit_id();
    let outcomes = vec![
        action_receipt(&id, "r1", ExecutionStatus::SuccessValue, vec![Action::Transfer]),
        action_receipt(
            "alice.near",
            "r2",
            ExecutionStatus::SuccessValue,
            vec![Action::Transfer],
        ),
        action_receipt(&id, "r3", ExecutionStatus::Failure, vec![Action::Transfer]),
        action_receipt(&id, "r4", ExecutionStatus::SuccessValue, vec![Action::CreateAccount]),
    ];
    let candidates = collect_implicit_candidates(&outcomes);
    assert_eq!(candidates.len(), 1);
    assert_eq!(candidates[0], id);
}

#[test]
fn delete_then_create_in_one_batch_leaves_a_live_row() {
    // last-write-wins: a later creation fully overwrites the tombstone
    let live: Vec<String> = vec![];
    let outcomes = vec![action_receipt(
        "alice.near",
        "r1",
        ExecutionStatus::SuccessValue,
        vec![Action::DeleteAccount, Action::CreateAccount],
    )];
    let deltas = reduce_chunk(&outcomes, &live, 4);
    assert_eq!(deltas.accounts_to_create.len(), 1);
    assert_eq!(deltas.accounts_to_update.len(), 0);
    let row = &deltas.accounts_to_create[0];
    assert_eq!(row.created_by_receipt_id.as_deref(), Some("r1"));
    assert!(row.deleted_by_receipt_id.is_none());
}
