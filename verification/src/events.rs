//! Lifecycle events extracted from receipts: each action yields zero or more
//! of these, and the batch reducer folds them into row deltas.
use vstd::prelude::*;

verus! {

/// Mathematical view of a lifecycle event.
pub enum EventView {
    AccountCreated { account_id: Seq<char>, receipt_id: Seq<char> },
    AccountDeleted { account_id: Seq<char>, receipt_id: Seq<char> },
    KeyCreated {
        public_key: Seq<char>,
        account_id: Seq<char>,
        receipt_id: Seq<char>,
        permission_kind: Seq<char>,
    },
    KeyDeleted { public_key: Seq<char>, account_id: Seq<char>, receipt_id: Seq<char> },
}

/// One per-entity lifecycle event.
pub enum Event {
    AccountCreated { account_id: String, receipt_id: String },
    AccountDeleted { account_id: String, receipt_id: String },
    KeyCreated {
        public_key: String,
        account_id: String,
        receipt_id: String,
        permission_kind: String,
    },
    KeyDeleted { public_key: String, account_id: String, receipt_id: String },
}

impl View for Event {
    type V = EventView;

    open spec fn view(&self) -> EventView {
        match self {
            Event::AccountCreated { account_id, receipt_id } => EventView::AccountCreated {
                account_id: account_id@,
                receipt_id: receipt_id@,
            },
            Event::AccountDeleted { account_id, receipt_id } => EventView::AccountDeleted {
                account_id: account_id@,
                receipt_id: receipt_id@,
            },
            Event::KeyCreated { public_key, account_id, receipt_id, permission_kind } => (
            EventView::KeyCreated {
                public_key: public_key@,
                account_id: account_id@,
                receipt_id: receipt_id@,
                permission_kind: permission_kind@,
            }),
            Event::KeyDeleted { public_key, account_id, receipt_id } => EventView::KeyDeleted {
                public_key: public_key@,
                account_id: account_id@,
                receipt_id: receipt_id@,
            },
        }
    }
}

impl DeepView for Event {
    type V = EventView;

    open spec fn deep_view(&self) -> EventView {
        self.view()
    }
}

} // verus!
