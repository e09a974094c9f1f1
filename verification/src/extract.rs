//! The action extractor: one receipt in, zero or more lifecycle events out.
//! Only successful receipts are consulted; within a receipt, actions are
//! walked in order. A transfer to an implicit-account id materializes the
//! account (and its synthetic full-access key) only when no live account with
//! that id is already known to the store.
use vstd::prelude::*;

use crate::events::{Event, EventView};
use crate::implicit::{decode_implicit_key, implicit_key_text, is_implicit_account_id};
use crate::input::{Action, ExecutionOutcomeWithReceipt, Receipt, ReceiptEnum};

verus! {

/// Whether a live account with the given id is among the ids read from the
/// store.
pub open spec fn contains_id(ids: Seq<String>, x: Seq<char>) -> bool {
    exists|i: int| 0 <= i < ids.len() && ids[i]@ == x
}

/// The events one action yields, given the receipt it stands in and the set
/// of account ids currently live in the store.
pub open spec fn action_events(
    a: Action,
    receiver_id: Seq<char>,
    receipt_id: Seq<char>,
    live: Seq<String>,
) -> Seq<EventView> {
    match a {
        Action::CreateAccount => seq![
            EventView::AccountCreated { account_id: receiver_id, receipt_id },
        ],
        Action::DeleteAccount => seq![
            EventView::AccountDeleted { account_id: receiver_id, receipt_id },
            EventView::KeyDeleted {
                public_key: Seq::<char>::empty(),
                account_id: receiver_id,
                receipt_id,
            },
        ],
        Action::AddKey { public_key, permission } => seq![
            EventView::KeyCreated {
                public_key: public_key@,
                account_id: receiver_id,
                receipt_id,
                permission_kind: permission.spec_kind(),
            },
        ],
        Action::DeleteKey { public_key } => seq![
            EventView::KeyDeleted { public_key: public_key@, account_id: receiver_id, receipt_id },
        ],
        Action::Transfer => if is_implicit_account_id(receiver_id) && !contains_id(
            live,
            receiver_id,
        ) {
            seq![
                EventView::AccountCreated { account_id: receiver_id, receipt_id },
                EventView::KeyCreated {
                    public_key: implicit_key_text(receiver_id),
                    account_id: receiver_id,
                    receipt_id,
                    permission_kind: "FULL_ACCESS"@,
                },
            ]
        } else {
            Seq::<EventView>::empty()
        },
        Action::Other => Seq::<EventView>::empty(),
    }
}

/// The events of an ordered prefix of a receipt's actions.
pub open spec fn actions_events(
    actions: Seq<Action>,
    receiver_id: Seq<char>,
    receipt_id: Seq<char>,
    live: Seq<String>,
) -> Seq<EventView>
    decreases actions.len(),
{
    if actions.len() == 0 {
        Seq::<EventView>::empty()
    } else {
        actions_events(actions.drop_last(), receiver_id, receipt_id, live) + action_events(
            actions.last(),
            receiver_id,
            receipt_id,
            live,
        )
    }
}

/// The events of one receipt: its actions in order, or nothing for a receipt
/// that carries no actions.
pub open spec fn receipt_events(r: Receipt, live: Seq<String>) -> Seq<EventView> {
    match r.receipt {
        ReceiptEnum::Action { actions } => actions_events(
            actions@,
            r.receiver_id@,
            r.receipt_id@,
            live,
        ),
        ReceiptEnum::Data => Seq::<EventView>::empty(),
    }
}

/// The events of one shard's batch: successful receipts in delivery order.
pub open spec fn chunk_events(
    outcomes: Seq<ExecutionOutcomeWithReceipt>,
    live: Seq<String>,
) -> Seq<EventView>
    decreases outcomes.len(),
{
    if outcomes.len() == 0 {
        Seq::<EventView>::empty()
    } else {
        chunk_events(outcomes.drop_last(), live) + (if outcomes.last().status.is_success() {
            receipt_events(outcomes.last().receipt, live)
        } else {
            Seq::<EventView>::empty()
        })
    }
}

/// Whether a live account with the given id was reported by the store.
pub fn is_known_live(live_ids: &Vec<String>, id: &String) -> (r: bool)
    ensures
        r == contains_id(live_ids@, id@),
{
    let mut i: usize = 0;
    while i < live_ids.len()
        invariant
            i <= live_ids@.len(),
            forall|k: int| 0 <= k < i ==> live_ids@[k]@ != id@,
        decreases live_ids@.len() - i,
    {
        if live_ids[i] == *id {
            return true;
        }
        i = i + 1;
    }
    false
}

/// Extracts the lifecycle events of one shard's batch, in receipt order and,
/// within a receipt, in action order. `live_ids` is the store's answer to the
/// implicit-account existence checks: the candidate ids that currently have a
/// live account row.
pub fn extract_chunk_events(
    outcomes: &Vec<ExecutionOutcomeWithReceipt>,
    live_ids: &Vec<String>,
) -> (r: Vec<Event>)
    ensures
        r.deep_view() == chunk_events(outcomes@, live_ids@),
{
    let mut events: Vec<Event> = Vec::new();
    let mut i: usize = 0;
    while i < outcomes.len()
        invariant
            i <= outcomes@.len(),
            events.deep_view() == chunk_events(outcomes@.take(i as int), live_ids@),
        decreases outcomes@.len() - i,
    {
        let outcome = &outcomes[i];
        if outcome.status.succeeded() {
            extract_receipt_events(&outcome.receipt, live_ids, &mut events);
        }
        proof {
            assert(outcomes@.take(i + 1).drop_last() =~= outcomes@.take(i as int));
            assert(outcomes@.take(i + 1).last() == outcomes@[i as int]);
        }
        i = i + 1;
    }
    proof {
        assert(outcomes@.take(outcomes@.len() as int) =~= outcomes@);
    }
    events
}

/// Appends the events of one receipt to the batch's event list.
pub fn extract_receipt_events(receipt: &Receipt, live_ids: &Vec<String>, events: &mut Vec<Event>)
    ensures
        final(events).deep_view() == old(events).deep_view() + receipt_events(*receipt, live_ids@),
{
    let ghost dv0 = events.deep_view();
    match &receipt.receipt {
        ReceiptEnum::Action { actions } => {
            let mut j: usize = 0;
            while j < actions.len()
                invariant
                    j <= actions@.len(),
                    events.deep_view() == dv0 + actions_events(
                        actions@.take(j as int),
                        receipt.receiver_id@,
                        receipt.receipt_id@,
                        live_ids@,
                    ),
                decreases actions@.len() - j,
            {
                extract_action_events(&actions[j], receipt, live_ids, events);
                proof {
                    assert(actions@.take(j + 1).drop_last() =~= actions@.take(j as int));
                    assert(actions@.take(j + 1).last() == actions@[j as int]);
                }
                j = j + 1;
            }
            proof {
                assert(actions@.take(actions@.len() as int) =~= actions@);
            }
        },
        ReceiptEnum::Data => {
            proof {
                assert(events.deep_view() =~= dv0 + Seq::<EventView>::empty());
            }
        },
    }
}

/// Appends the events of one action to the batch's event list.
pub fn extract_action_events(
    action: &Action,
    receipt: &Receipt,
    live_ids: &Vec<String>,
    events: &mut Vec<Event>,
)
    ensures
        final(events).deep_view() == old(events).deep_view() + action_events(
            *action,
            receipt.receiver_id@,
            receipt.receipt_id@,
            live_ids@,
        ),
{
    let ghost dv0 = events.deep_view();
    let receiver_id = &receipt.receiver_id;
    let receipt_id = &receipt.receipt_id;
    match action {
        Action::CreateAccount => {
            events.push(
                Event::AccountCreated {
                    account_id: receiver_id.clone(),
                    receipt_id: receipt_id.clone(),
                },
            );
            proof {
                assert(events.deep_view() =~= dv0 + action_events(
                    *action,
                    receiver_id@,
                    receipt_id@,
                    live_ids@,
                ));
            }
        },
        Action::DeleteAccount => {
            events.push(
                Event::AccountDeleted {
                    account_id: receiver_id.clone(),
                    receipt_id: receipt_id.clone(),
                },
            );
            events.push(
                Event::KeyDeleted {
                    public_key: String::new(),
                    account_id: receiver_id.clone(),
                    receipt_id: receipt_id.clone(),
                },
            );
            proof {
                assert(events.deep_view() =~= dv0 + action_events(
                    *action,
                    receiver_id@,
                    receipt_id@,
                    live_ids@,
                ));
            }
        },
        Action::AddKey { public_key, permission } => {
            events.push(
                Event::KeyCreated {
                    public_key: public_key.clone(),
                    account_id: receiver_id.clone(),
                    receipt_id: receipt_id.clone(),
                    permission_kind: String::from_str(permission.kind_str()),
                },
            );
            proof {
                assert(events.deep_view() =~= dv0 + action_events(
                    *action,
                    receiver_id@,
                    receipt_id@,
                    live_ids@,
                ));
            }
        },
        Action::DeleteKey { public_key } => {
            events.push(
                Event::KeyDeleted {
                    public_key: public_key.clone(),
                    account_id: receiver_id.clone(),
                    receipt_id: receipt_id.clone(),
                },
            );
            proof {
                assert(events.deep_view() =~= dv0 + action_events(
                    *action,
                    receiver_id@,
                    receipt_id@,
                    live_ids@,
                ));
            }
        },
        Action::Transfer => {
            if !is_known_live(live_ids, receiver_id) {
                if let Some(key_text) = decode_implicit_key(receiver_id.as_str()) {
                    events.push(
                        Event::AccountCreated {
                            account_id: receiver_id.clone(),
                            receipt_id: receipt_id.clone(),
                        },
                    );
                    events.push(
                        Event::KeyCreated {
                            public_key: key_text,
                            account_id: receiver_id.clone(),
                            receipt_id: receipt_id.clone(),
                            permission_kind: String::from_str("FULL_ACCESS"),
                        },
                    );
                }
            }
            proof {
                assert(events.deep_view() =~= dv0 + action_events(
                    *action,
                    receiver_id@,
                    receipt_id@,
                    live_ids@,
                ));
            }
        },
        Action::Other => {
            proof {
                assert(events.deep_view() =~= dv0 + action_events(
                    *action,
                    receiver_id@,
                    receipt_id@,
                    live_ids@,
                ));
            }
        },
    }
}

/// The implicit-account candidates of a batch: every receiver id of a
/// transfer action in a successful action receipt that has the
/// implicit-account shape, in order of occurrence. The store is asked which
/// of these currently have a live row before extraction runs.
pub open spec fn implicit_candidates(outcomes: Seq<ExecutionOutcomeWithReceipt>) -> Seq<Seq<char>>
    decreases outcomes.len(),
{
    if outcomes.len() == 0 {
        Seq::<Seq<char>>::empty()
    } else {
        implicit_candidates(outcomes.drop_last()) + (if outcomes.last().status.is_success() {
            receipt_candidates(outcomes.last().receipt)
        } else {
            Seq::<Seq<char>>::empty()
        })
    }
}

/// The implicit-account candidates named by one receipt.
pub open spec fn receipt_candidates(r: Receipt) -> Seq<Seq<char>> {
    match r.receipt {
        ReceiptEnum::Action { actions } => actions_candidates(actions@, r.receiver_id@),
        ReceiptEnum::Data => Seq::<Seq<char>>::empty(),
    }
}

/// The implicit-account candidate named by one action, if any.
pub open spec fn action_candidates_one(a: Action, receiver_id: Seq<char>) -> Seq<Seq<char>> {
    if a is Transfer && is_implicit_account_id(receiver_id) {
        seq![receiver_id]
    } else {
        Seq::<Seq<char>>::empty()
    }
}

/// The implicit-account candidates named by a prefix of a receipt's actions.
pub open spec fn actions_candidates(actions: Seq<Action>, receiver_id: Seq<char>) -> Seq<Seq<char>>
    decreases actions.len(),
{
    if actions.len() == 0 {
        Seq::<Seq<char>>::empty()
    } else {
        actions_candidates(actions.drop_last(), receiver_id) + action_candidates_one(
            actions.last(),
            receiver_id,
        )
    }
}

/// Collects the implicit-account candidates of a batch, for the store's
/// point-in-time existence check.
pub fn collect_implicit_candidates(outcomes: &Vec<ExecutionOutcomeWithReceipt>) -> (r: Vec<String>)
    ensures
        r.deep_view() == implicit_candidates(outcomes@),
{
    let mut out: Vec<String> = Vec::new();
    let mut i: usize = 0;
    while i < outcomes.len()
        invariant
            i <= outcomes@.len(),
            out.deep_view() == implicit_candidates(outcomes@.take(i as int)),
        decreases outcomes@.len() - i,
    {
        let outcome = &outcomes[i];
        let ghost dv0 = out.deep_view();
        if outcome.status.succeeded() {
            match &outcome.receipt.receipt {
                ReceiptEnum::Action { actions } => {
                    let mut j: usize = 0;
                    while j < actions.len()
                        invariant
                            j <= actions@.len(),
                            out.deep_view() == dv0 + actions_candidates(
                                actions@.take(j as int),
                                outcome.receipt.receiver_id@,
                            ),
                        decreases actions@.len() - j,
                    {
                        let ghost prefix_dv = out.deep_view();
                        match &actions[j] {
                            Action::Transfer => {
                                if decode_implicit_key(
                                    outcome.receipt.receiver_id.as_str(),
                                ).is_some() {
                                    out.push(outcome.receipt.receiver_id.clone());
                                    proof {
                                        assert(out.deep_view() =~= prefix_dv + seq![
                                            outcome.receipt.receiver_id@,
                                        ]);
                                    }
                                } else {
                                    proof {
                                        assert(out.deep_view() =~= prefix_dv + Seq::<
                                            Seq<char>,
                                        >::empty());
                                    }
                                }
                            },
                            _ => {
                                proof {
                                    assert(out.deep_view() =~= prefix_dv + Seq::<
                                        Seq<char>,
                                    >::empty());
                                }
                            },
                        }
                        proof {
                            assert(actions@.take(j + 1).drop_last() =~= actions@.take(j as int));
                            assert(actions@.take(j + 1).last() == actions@[j as int]);
                            assert(dv0 + actions_candidates(
                                actions@.take(j + 1),
                                outcome.receipt.receiver_id@,
                            ) =~= dv0 + actions_candidates(
                                actions@.take(j as int),
                                outcome.receipt.receiver_id@,
                            ) + action_candidates_one(actions@[j as int], outcome.receipt.receiver_id@));
                            assert(out.deep_view() =~= dv0 + actions_candidates(
                                actions@.take(j + 1),
                                outcome.receipt.receiver_id@,
                            ));
                        }
                        j = j + 1;
                    }
                    proof {
                        assert(actions@.take(actions@.len() as int) =~= actions@);
                    }
                },
                ReceiptEnum::Data => {
                    proof {
                        assert(out.deep_view() =~= dv0 + Seq::<Seq<char>>::empty());
                    }
                },
            }
        }
        proof {
            assert(outcomes@.take(i + 1).drop_last() =~= outcomes@.take(i as int));
            assert(outcomes@.take(i + 1).last() == outcomes@[i as int]);
            assert(out.deep_view() =~= implicit_candidates(outcomes@.take(i + 1)));
        }
        i = i + 1;
    }
    proof {
        assert(outcomes@.take(outcomes@.len() as int) =~= outcomes@);
    }
    out
}

} // verus!
