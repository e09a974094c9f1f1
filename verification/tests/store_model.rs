use accounts_indexer::input::{
    Action, ExecutionOutcomeWithReceipt, ExecutionStatus, Permission, Receipt, ReceiptEnum,
};
use accounts_indexer::models::{AccessKey, Account};
use accounts_indexer::reduce::reduce_chunk;
use accounts_indexer::store::{apply_account_block, apply_key_block};

fn action_receipt(
    receiver: &str,
    receipt_id: &str,
    actions: Vec<Action>,
) -> ExecutionOutcomeWithReceipt {
    ExecutionOutcomeWithReceipt {
        status: ExecutionStatus::SuccessValue,
        receipt: Receipt {
            receiver_id: receiver.to_string(),
            receipt_id: receipt_id.to_string(),
            receipt: ReceiptEnum::Action { actions },
        },
    }
}

fn accounts_eq(a: &[Account], b: &[Account]) -> bool {
    a.len() == b.len()
        && a.iter().zip(b.iter()).all(|(x, y)| {
            x.account_id == y.account_id
                && x.created_by_receipt_id == y.created_by_receipt_id
                && x.created_by_block_height == y.created_by_block_height
                && x.deleted_by_receipt_id == y.deleted_by_receipt_id
                && x.deleted_by_block_height == y.deleted_by_block_height
        })
}

fn keys_eq(a: &[AccessKey], b: &[AccessKey]) -> bool {
    a.len() == b.len()
        && a.iter().zip(b.iter()).all(|(x, y)| {
            x.public_key == y.public_key
                && x.account_id == y.account_id
                && x.created_by_receipt_id == y.created_by_receipt_id
                && x.deleted_by_receipt_id == y.deleted_by_receipt_id
                && x.permission_kind == y.permission_kind
        })
}

#[test]
fn replaying_a_block_changes_nothing() {
    let live: Vec<String> = vec![];
    let outcomes = vec![
        action_receipt(
            "alice.near",
            "r1",
            vec![Action::CreateAccount, Action::AddKey {
                public_key: "ed25519:A".to_string(),
                permission: Permission::FullAccess,
            }],
        ),
        action_receipt("bob.near", "r2", vec![Action::DeleteAccount]),
        action_receipt(
            "carol.near",
            "r3",
            vec![Action::DeleteKey { public_key: "ed25519:C".to_string() }],
        ),
    ];
    let deltas = reduce_chunk(&outcomes, &live, 42);

    // a store that already holds bob (live) and carol's key (live)
    let mut accounts = vec![Account {
        account_id: "bob.near".to_string(),
        created_by_receipt_id: Some("r0".to_string()),
        created_by_block_height: Some(1),
        deleted_by_receipt_id: None,
        deleted_by_block_height: None,
    }];
    let mut keys = vec![AccessKey {
        public_key: "ed25519:C".to_string(),
        account_id: "carol.near".to_string(),
        created_by_receipt_id: Some("r0".to_string()),
        deleted_by_receipt_id: None,
        permission_kind: "FULL_ACCESS".to_string(),
    }];

    apply_account_block(&mut accounts, &deltas.accounts_to_create, &deltas.accounts_to_update);
    apply_key_block(
        &mut keys,
        &deltas.access_keys_to_create,
        &deltas.access_keys_to_update,
        &deltas.access_keys_from_deleted_accounts,
    );
    let accounts_once: Vec<Account> = accounts
        .iter()
        .map(|a| Account {
            account_id: a.account_id.clone(),
            created_by_receipt_id: a.created_by_receipt_id.clone(),
            created_by_block_height: a.created_by_block_height,
            deleted_by_receipt_id: a.deleted_by_receipt_id.clone(),
            deleted_by_block_height: a.deleted_by_block_height,
        })
        .collect();
    let keys_once: Vec<AccessKey> = keys
        .iter()
        .map(|k| AccessKey {
            public_key: k.public_key.clone(),
            account_id: k.account_id.clone(),
            created_by_receipt_id: k.created_by_receipt_id.clone(),
            deleted_by_receipt_id: k.deleted_by_receipt_id.clone(),
            permission_kind: k.permission_kind.clone(),
        })
        .collect();

    // sanity: the first application did its work
    assert_eq!(accounts_once.len(), 2);
    assert_eq!(accounts_once[0].deleted_by_receipt_id.as_deref(), Some("r2"));
    assert_eq!(keys_once[0].deleted_by_receipt_id.as_deref(), Some("r3"));

    // duplicate delivery of the same block
    apply_account_block(&mut accounts, &deltas.accounts_to_create, &deltas.accounts_to_update);
    apply_key_block(
        &mut keys,
        &deltas.access_keys_to_create,
        &deltas.access_keys_to_update,
        &deltas.access_keys_from_deleted_accounts,
    );
    assert!(accounts_eq(&accounts, &accounts_once));
    assert!(keys_eq(&keys, &keys_once));
}

#[test]
fn tombstones_are_never_rewritten() {
    let live: Vec<String> = vec![];
    // bob was deleted long ago; this block tries to delete him again
    let mut accounts = vec![Account {
        account_id: "bob.near".to_string(),
        created_by_receipt_id: Some("r0".to_string()),
        created_by_block_height: Some(1),
        deleted_by_receipt_id: Some("old-delete".to_string()),
        deleted_by_block_height: Some(2),
    }];
    let outcomes = vec![action_receipt("bob.near", "new-delete", vec![Action::DeleteAccount])];
    let deltas = reduce_chunk(&outcomes, &live, 99);
    apply_account_block(&mut accounts, &deltas.accounts_to_create, &deltas.accounts_to_update);
    assert_eq!(accounts.len(), 1);
    assert_eq!(accounts[0].deleted_by_receipt_id.as_deref(), Some("old-delete"));
    assert_eq!(accounts[0].deleted_by_block_height, Some(2));

    // the same for a key already revoked
    let mut keys = vec![AccessKey {
        public_key: "ed25519:K".to_string(),
        account_id: "bob.near".to_string(),
        created_by_receipt_id: Some("r0".to_string()),
        deleted_by_receipt_id: Some("old-delete".to_string()),
        permission_kind: "FULL_ACCESS".to_string(),
    }];
    apply_key_block(
        &mut keys,
        &deltas.access_keys_to_create,
        &deltas.access_keys_to_update,
        &deltas.access_keys_from_deleted_accounts,
    );
    assert_eq!(keys[0].deleted_by_receipt_id.as_deref(), Some("old-delete"));
}

#[test]
fn cascade_marks_every_live_key_of_the_deleted_account() {
    let live: Vec<String> = vec![];
    let mut keys = vec![
        AccessKey {
            public_key: "ed25519:K1".to_string(),
            account_id: "bob.near".to_string(),
            created_by_receipt_id: Some("r0".to_string()),
            deleted_by_receipt_id: None,
            permission_kind: "FULL_ACCESS".to_string(),
        },
        AccessKey {
            public_key: "ed25519:K2".to_string(),
            account_id: "bob.near".to_string(),
            created_by_receipt_id: Some("r0".to_string()),
            deleted_by_receipt_id: None,
            permission_kind: "FUNCTION_CALL".to_string(),
        },
        AccessKey {
            public_key: "ed25519:K3".to_string(),
            account_id: "alice.near".to_string(),
            created_by_receipt_id: Some("r0".to_string()),
            deleted_by_receipt_id: None,
            permission_kind: "FULL_ACCESS".to_string(),
        },
    ];
    let outcomes = vec![action_receipt("bob.near", "rd", vec![Action::DeleteAccount])];
    let deltas = reduce_chunk(&outcomes, &live, 7);
    apply_key_block(
        &mut keys,
        &deltas.access_keys_to_create,
        &deltas.access_keys_to_update,
        &deltas.access_keys_from_deleted_accounts,
    );
    assert_eq!(keys[0].deleted_by_receipt_id.as_deref(), Some("rd"));
    assert_eq!(keys[1].deleted_by_receipt_id.as_deref(), Some("rd"));
    assert!(keys[2].deleted_by_receipt_id.is_none());
    // the sentinel tombstone row itself is inserted by no statement; the
    // update set touches existing rows only
    assert_eq!(keys.len(), 3);
}
