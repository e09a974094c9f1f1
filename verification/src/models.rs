//! Row models for the two current-state tables, together with their
//! mathematical views. A row is never physically removed; deletion only sets
//! the `deleted_by_*` markers (a tombstone).
use vstd::prelude::*;

verus! {

/// Mathematical view of an account row.
pub struct AccountView {
    pub account_id: Seq<char>,
    pub created_by_receipt_id: Option<Seq<char>>,
    pub created_by_block_height: Option<u64>,
    pub deleted_by_receipt_id: Option<Seq<char>>,
    pub deleted_by_block_height: Option<u64>,
}

impl AccountView {
    /// Presence of the deletion receipt marks the row logically deleted.
    pub open spec fn is_deleted(self) -> bool {
        self.deleted_by_receipt_id is Some
    }
}

/// One row of the `accounts` table.
pub struct Account {
    pub account_id: String,
    pub created_by_receipt_id: Option<String>,
    pub created_by_block_height: Option<u64>,
    pub deleted_by_receipt_id: Option<String>,
    pub deleted_by_block_height: Option<u64>,
}

impl View for Account {
    type V = AccountView;

    open spec fn view(&self) -> AccountView {
        AccountView {
            account_id: self.account_id@,
            created_by_receipt_id: self.created_by_receipt_id.deep_view(),
            created_by_block_height: self.created_by_block_height,
            deleted_by_receipt_id: self.deleted_by_receipt_id.deep_view(),
            deleted_by_block_height: self.deleted_by_block_height,
        }
    }
}

impl DeepView for Account {
    type V = AccountView;

    open spec fn deep_view(&self) -> AccountView {
        self.view()
    }
}

impl Account {
    /// A fresh, live account row recorded by the given receipt.
    pub fn new_from_receipt(receiver_id: &String, receipt_id: &String, block_height: u64) -> (r:
        Account)
        ensures
            r@ == (AccountView {
                account_id: receiver_id@,
                created_by_receipt_id: Some(receipt_id@),
                created_by_block_height: Some(block_height),
                deleted_by_receipt_id: None,
                deleted_by_block_height: None,
            }),
    {
        Account {
            account_id: receiver_id.clone(),
            created_by_receipt_id: Some(receipt_id.clone()),
            created_by_block_height: Some(block_height),
            deleted_by_receipt_id: None,
            deleted_by_block_height: None,
        }
    }
}

impl Account {
    /// The table this row belongs to.
    pub fn name() -> (r: String)
        ensures
            r@ == "accounts"@,
    {
        String::from_str("accounts")
    }

    /// Number of columns a row binds.
    pub fn field_count() -> (r: usize)
        ensures
            r == 5,
    {
        5
    }

    /// The insert-if-absent statement for a group of `items_count` rows;
    /// an empty group has no statement.
    pub fn insert_query(items_count: usize) -> (r: Option<String>)
        requires
            items_count as int * 5 + 1 <= u64::MAX,
        ensures
            r is Some <==> items_count >= 1,
            r is Some ==> r->Some_0@ == crate::writer::spec_insert_query(
                "accounts"@,
                items_count as int,
                5,
            ),
    {
        crate::writer::insert_query_for("accounts", items_count, 5)
    }

    /// The conditional update that applies one account delete row: it sets
    /// the deletion markers only where the key matches and the row is not
    /// already deleted.
    pub fn delete_query() -> (r: String)
        ensures
            r@ == "UPDATE accounts SET deleted_by_receipt_id = $3, deleted_by_block_height = $5\nWHERE account_id = $1 AND deleted_by_receipt_id IS NULL"@,
    {
        String::from_str(
            "UPDATE accounts SET deleted_by_receipt_id = $3, deleted_by_block_height = $5\nWHERE account_id = $1 AND deleted_by_receipt_id IS NULL",
        )
    }
}

/// Mathematical view of an access-key row.
pub struct AccessKeyView {
    pub public_key: Seq<char>,
    pub account_id: Seq<char>,
    pub created_by_receipt_id: Option<Seq<char>>,
    pub deleted_by_receipt_id: Option<Seq<char>>,
    pub permission_kind: Seq<char>,
}

impl AccessKeyView {
    pub open spec fn is_deleted(self) -> bool {
        self.deleted_by_receipt_id is Some
    }
}

/// One row of the `access_keys` table. The natural key is the pair
/// (`public_key`, `account_id`); an empty `public_key` is the sentinel used
/// when deletion is implied by account deletion.
pub struct AccessKey {
    pub public_key: String,
    pub account_id: String,
    pub created_by_receipt_id: Option<String>,
    pub deleted_by_receipt_id: Option<String>,
    pub permission_kind: String,
}

impl View for AccessKey {
    type V = AccessKeyView;

    open spec fn view(&self) -> AccessKeyView {
        AccessKeyView {
            public_key: self.public_key@,
            account_id: self.account_id@,
            created_by_receipt_id: self.created_by_receipt_id.deep_view(),
            deleted_by_receipt_id: self.deleted_by_receipt_id.deep_view(),
            permission_kind: self.permission_kind@,
        }
    }
}

impl DeepView for AccessKey {
    type V = AccessKeyView;

    open spec fn deep_view(&self) -> AccessKeyView {
        self.view()
    }
}

impl AccessKey {
    /// A fresh, live key row granted by the given receipt.
    pub fn from_action_view(
        public_key: &String,
        account_id: &String,
        permission: &crate::input::Permission,
        receipt_id: &String,
    ) -> (r: AccessKey)
        ensures
            r@ == (AccessKeyView {
                public_key: public_key@,
                account_id: account_id@,
                created_by_receipt_id: Some(receipt_id@),
                deleted_by_receipt_id: None,
                permission_kind: permission.spec_kind(),
            }),
    {
        AccessKey {
            public_key: public_key.clone(),
            account_id: account_id.clone(),
            created_by_receipt_id: Some(receipt_id.clone()),
            deleted_by_receipt_id: None,
            permission_kind: String::from_str(permission.kind_str()),
        }
    }

    /// A revocation row: only the natural key and the deleting receipt are
    /// known; creation fields stay unset.
    pub fn access_key_to_delete(public_key: String, account_id: &String, receipt_id: &String) -> (r:
        AccessKey)
        ensures
            r@ == (AccessKeyView {
                public_key: public_key@,
                account_id: account_id@,
                created_by_receipt_id: None,
                deleted_by_receipt_id: Some(receipt_id@),
                permission_kind: Seq::<char>::empty(),
            }),
    {
        AccessKey {
            public_key,
            account_id: account_id.clone(),
            created_by_receipt_id: None,
            deleted_by_receipt_id: Some(receipt_id.clone()),
            permission_kind: String::new(),
        }
    }
}

impl AccessKey {
    /// The table this row belongs to.
    pub fn name() -> (r: String)
        ensures
            r@ == "access_keys"@,
    {
        String::from_str("access_keys")
    }

    /// Number of columns a row binds.
    pub fn field_count() -> (r: usize)
        ensures
            r == 5,
    {
        5
    }

    /// The insert-if-absent statement for a group of `items_count` rows;
    /// an empty group has no statement.
    pub fn insert_query(items_count: usize) -> (r: Option<String>)
        requires
            items_count as int * 5 + 1 <= u64::MAX,
        ensures
            r is Some <==> items_count >= 1,
            r is Some ==> r->Some_0@ == crate::writer::spec_insert_query(
                "access_keys"@,
                items_count as int,
                5,
            ),
    {
        crate::writer::insert_query_for("access_keys", items_count, 5)
    }

    /// The conditional update that applies one exact-key delete row.
    pub fn delete_query() -> (r: String)
        ensures
            r@ == "UPDATE access_keys SET deleted_by_receipt_id = $4\nWHERE account_id = $2 AND public_key = $1 AND deleted_by_receipt_id IS NULL"@,
    {
        String::from_str(
            "UPDATE access_keys SET deleted_by_receipt_id = $4\nWHERE account_id = $2 AND public_key = $1 AND deleted_by_receipt_id IS NULL",
        )
    }

    /// The conditional update that cascades an account deletion over its
    /// keys: it is keyed by account id alone.
    pub fn cascade_delete_query() -> (r: String)
        ensures
            r@ == "UPDATE access_keys SET deleted_by_receipt_id = $4\nWHERE account_id = $2 AND deleted_by_receipt_id IS NULL"@,
    {
        String::from_str(
            "UPDATE access_keys SET deleted_by_receipt_id = $4\nWHERE account_id = $2 AND deleted_by_receipt_id IS NULL",
        )
    }
}

} // verus!
