//! The batch reducer: folds one shard's lifecycle events into a per-entity
//! delta, last-write-wins within the batch, with one named merge rule — a
//! delete landing on a row created earlier in the same batch keeps the
//! creation fields and adds the deletion fields. The folded rows are then
//! routed into disjoint write sets.
use vstd::prelude::*;

use crate::events::{Event, EventView};
use crate::models::{AccessKey, AccessKeyView, Account, AccountView};

verus! {

/// A live account row as an account-created event records it.
pub open spec fn fresh_account_row(id: Seq<char>, receipt_id: Seq<char>, h: u64) -> AccountView {
    AccountView {
        account_id: id,
        created_by_receipt_id: Some(receipt_id),
        created_by_block_height: Some(h),
        deleted_by_receipt_id: None,
        deleted_by_block_height: None,
    }
}

/// The named merge rule for a deletion: creation fields of a row built
/// earlier in the batch are preserved; with no earlier row the result is a
/// pure tombstone whose creation fields stay unset.
pub open spec fn merge_account_delete(
    prev: Option<AccountView>,
    id: Seq<char>,
    receipt_id: Seq<char>,
    h: u64,
) -> AccountView {
    match prev {
        Some(row) => AccountView {
            account_id: row.account_id,
            created_by_receipt_id: row.created_by_receipt_id,
            created_by_block_height: row.created_by_block_height,
            deleted_by_receipt_id: Some(receipt_id),
            deleted_by_block_height: Some(h),
        },
        None => AccountView {
            account_id: id,
            created_by_receipt_id: None,
            created_by_block_height: None,
            deleted_by_receipt_id: Some(receipt_id),
            deleted_by_block_height: Some(h),
        },
    }
}

/// The folded account row for one id after a prefix of the batch's events:
/// `None` when no event touched the id, otherwise the last-write-wins result.
pub open spec fn account_row_for(evs: Seq<EventView>, id: Seq<char>, h: u64) -> Option<AccountView>
    decreases evs.len(),
{
    if evs.len() == 0 {
        None
    } else {
        let prev = account_row_for(evs.drop_last(), id, h);
        match evs.last() {
            EventView::AccountCreated { account_id, receipt_id } => if account_id == id {
                Some(fresh_account_row(id, receipt_id, h))
            } else {
                prev
            },
            EventView::AccountDeleted { account_id, receipt_id } => if account_id == id {
                Some(merge_account_delete(prev, id, receipt_id, h))
            } else {
                prev
            },
            _ => prev,
        }
    }
}

pub open spec fn unique_account_ids(rows: Seq<AccountView>) -> bool {
    forall|p: int, q: int|
        0 <= p < q < rows.len() ==> rows[p].account_id != rows[q].account_id
}

pub open spec fn has_account_id(rows: Seq<AccountView>, id: Seq<char>) -> bool {
    exists|p: int| 0 <= p < rows.len() && rows[p].account_id == id
}

/// What the account fold returns: one row per touched id, each the
/// last-write-wins fold of the id's events, and nothing else.
pub open spec fn account_rows_ok(evs: Seq<EventView>, h: u64, rows: Seq<AccountView>) -> bool {
    &&& unique_account_ids(rows)
    &&& forall|p: int|
        0 <= p < rows.len() ==> account_row_for(evs, (#[trigger] rows[p]).account_id, h) == Some(
            rows[p],
        )
    &&& forall|id: Seq<char>| #[trigger]
        account_row_for(evs, id, h) is Some ==> has_account_id(rows, id)
}

/// Finds the row already built for the given account id.
fn find_account(rows: &Vec<Account>, id: &String) -> (r: Option<usize>)
    ensures
        match r {
            Some(j) => j < rows@.len() && rows@[j as int]@.account_id == id@,
            None => !has_account_id(rows.deep_view(), id@),
        },
{
    let mut i: usize = 0;
    while i < rows.len()
        invariant
            i <= rows@.len(),
            forall|p: int| 0 <= p < i ==> rows.deep_view()[p].account_id != id@,
        decreases rows@.len() - i,
    {
        if rows[i].account_id == *id {
            return Some(i);
        }
        i = i + 1;
    }
    None
}

fn clone_opt_string(o: &Option<String>) -> (r: Option<String>)
    ensures
        r.deep_view() == o.deep_view(),
{
    match o {
        Some(s) => Some(s.clone()),
        None => None,
    }
}

/// Folds a batch's events into account rows, one per touched account id.
pub fn reduce_account_events(events: &Vec<Event>, block_height: u64) -> (rows: Vec<Account>)
    ensures
        account_rows_ok(events.deep_view(), block_height, rows.deep_view()),
{
    let ghost evs = events.deep_view();
    let mut rows: Vec<Account> = Vec::new();
    let mut i: usize = 0;
    while i < events.len()
        invariant
            i <= events@.len(),
            evs == events.deep_view(),
            evs.len() == events@.len(),
            forall|k: int| 0 <= k < events@.len() ==> events@[k]@ == evs[k],
            account_rows_ok(evs.take(i as int), block_height, rows.deep_view()),
        decreases events@.len() - i,
    {
        let ghost pre = rows.deep_view();
        proof {
            assert(evs.take(i + 1).drop_last() =~= evs.take(i as int));
            assert(evs.take(i + 1).last() == evs[i as int]);
            assert(events@[i as int]@ == evs[i as int]);
        }
        match &events[i] {
            Event::AccountCreated { account_id, receipt_id } => {
                proof {
                    assert(evs[i as int] == (EventView::AccountCreated {
                        account_id: account_id@,
                        receipt_id: receipt_id@,
                    }));
                }
                let row = Account::new_from_receipt(account_id, receipt_id, block_height);
                match find_account(&rows, account_id) {
                    Some(j) => {
                        rows[j] = row;
                        proof {
                            assert(rows.deep_view() =~= pre.update(j as int, row@));
                            assert(0 <= j < pre.len() && pre[j as int].account_id == account_id@
                                && rows.deep_view() == pre.update(
                                j as int,
                                fresh_account_row(account_id@, receipt_id@, block_height),
                            ));
                            assert(has_account_id(pre, account_id@));
                        }
                    },
                    None => {
                        rows.push(row);
                        proof {
                            assert(rows.deep_view() =~= pre.push(row@));
                            assert(rows.deep_view() == pre.push(
                                fresh_account_row(account_id@, receipt_id@, block_height),
                            ));
                        }
                    },
                }
            },
            Event::AccountDeleted { account_id, receipt_id } => {
                proof {
                    assert(evs[i as int] == (EventView::AccountDeleted {
                        account_id: account_id@,
                        receipt_id: receipt_id@,
                    }));
                }
                match find_account(&rows, account_id) {
                    Some(j) => {
                        let merged = Account {
                            account_id: rows[j].account_id.clone(),
                            created_by_receipt_id: clone_opt_string(&rows[j].created_by_receipt_id),
                            created_by_block_height: rows[j].created_by_block_height,
                            deleted_by_receipt_id: Some(receipt_id.clone()),
                            deleted_by_block_height: Some(block_height),
                        };
                        proof {
                            assert(merged@ == merge_account_delete(
                                Some(pre[j as int]),
                                account_id@,
                                receipt_id@,
                                block_height,
                            ));
                        }
                        rows[j] = merged;
                        proof {
                            assert(rows.deep_view() =~= pre.update(
                                j as int,
                                merge_account_delete(
                                    Some(pre[j as int]),
                                    account_id@,
                                    receipt_id@,
                                    block_height,
                                ),
                            ));
                            assert(0 <= j < pre.len() && pre[j as int].account_id == account_id@
                                && rows.deep_view() == pre.update(
                                j as int,
                                merge_account_delete(
                                    Some(pre[j as int]),
                                    account_id@,
                                    receipt_id@,
                                    block_height,
                                ),
                            ));
                            assert(has_account_id(pre, account_id@));
                        }
                    },
                    None => {
                        let row = Account {
                            account_id: account_id.clone(),
                            created_by_receipt_id: None,
                            created_by_block_height: None,
                            deleted_by_receipt_id: Some(receipt_id.clone()),
                            deleted_by_block_height: Some(block_height),
                        };
                        rows.push(row);
                        proof {
                            assert(rows.deep_view() =~= pre.push(
                                merge_account_delete(None, account_id@, receipt_id@, block_height),
                            ));
                        }
                    },
                }
            },
            _ => {},
        }
        proof {
            lemma_account_step(evs, i as int, block_height, pre, rows.deep_view());
        }
        i = i + 1;
    }
    proof {
        assert(evs.take(evs.len() as int) =~= evs);
    }
    rows
}

/// One fold step preserves the reducer's characterization.
proof fn lemma_account_step(
    evs: Seq<EventView>,
    i: int,
    h: u64,
    pre: Seq<AccountView>,
    post: Seq<AccountView>,
)
    requires
        0 <= i < evs.len(),
        account_rows_ok(evs.take(i), h, pre),
        match evs[i] {
            EventView::AccountCreated { account_id, receipt_id } => if has_account_id(
                pre,
                account_id,
            ) {
                exists|j: int|
                    0 <= j < pre.len() && pre[j].account_id == account_id && post == pre.update(
                        j,
                        fresh_account_row(account_id, receipt_id, h),
                    )
            } else {
                post == pre.push(fresh_account_row(account_id, receipt_id, h))
            },
            EventView::AccountDeleted { account_id, receipt_id } => if has_account_id(
                pre,
                account_id,
            ) {
                exists|j: int|
                    0 <= j < pre.len() && pre[j].account_id == account_id && post == pre.update(
                        j,
                        merge_account_delete(Some(pre[j]), account_id, receipt_id, h),
                    )
            } else {
                post == pre.push(merge_account_delete(None, account_id, receipt_id, h))
            },
            _ => post == pre,
        },
    ensures
        account_rows_ok(evs.take(i + 1), h, post),
{
    assert(evs.take(i + 1).drop_last() =~= evs.take(i));
    assert(evs.take(i + 1).last() == evs[i]);
    match evs[i] {
        EventView::AccountCreated { account_id, receipt_id } => {
            lemma_account_touch(
                evs,
                i,
                h,
                pre,
                post,
                account_id,
                fresh_account_row(
                    account_id,
                    receipt_id,
                    h,
                ),
            );
        },
        EventView::AccountDeleted { account_id, receipt_id } => {
            if has_account_id(pre, account_id) {
                let j = choose|j: int|
                    0 <= j < pre.len() && pre[j].account_id == account_id && post == pre.update(
                        j,
                        merge_account_delete(Some(pre[j]), account_id, receipt_id, h),
                    );
                assert(account_row_for(evs.take(i), account_id, h) == Some(pre[j]));
                lemma_account_touch(
                    evs,
                    i,
                    h,
                    pre,
                    post,
                    account_id,
                    merge_account_delete(Some(pre[j]), account_id, receipt_id, h),
                );
            } else {
                assert(account_row_for(evs.take(i), account_id, h) is Some ==> has_account_id(
                    pre,
                    account_id,
                ));
                lemma_account_touch(
                    evs,
                    i,
                    h,
                    pre,
                    post,
                    account_id,
                    merge_account_delete(None, account_id, receipt_id, h),
                );
            }
        },
        _ => {
            assert forall|id: Seq<char>| #[trigger]
                account_row_for(evs.take(i + 1), id, h) is Some implies has_account_id(
                post,
                id,
            ) by {
                assert(account_row_for(evs.take(i + 1), id, h) == account_row_for(
                    evs.take(i),
                    id,
                    h,
                ));
            }
        },
    }
}

/// One fold step that replaces or appends the row for the touched id keeps
/// the characterization, provided the new row is exactly what the event
/// prescribes for that id.
proof fn lemma_account_touch(
    evs: Seq<EventView>,
    i: int,
    h: u64,
    pre: Seq<AccountView>,
    post: Seq<AccountView>,
    touched: Seq<char>,
    new_row: AccountView,
)
    requires
        0 <= i < evs.len(),
        account_rows_ok(evs.take(i), h, pre),
        evs.take(i + 1).drop_last() == evs.take(i),
        evs.take(i + 1).last() == evs[i],
        new_row.account_id == touched,
        account_row_for(evs.take(i + 1), touched, h) == Some(new_row),
        forall|id: Seq<char>|
            id != touched ==> account_row_for(evs.take(i + 1), id, h) == account_row_for(
                #[trigger] evs.take(i),
                id,
                h,
            ),
        if has_account_id(pre, touched) {
            exists|j: int|
                0 <= j < pre.len() && pre[j].account_id == touched && post == pre.update(j, new_row)
        } else {
            post == pre.push(new_row)
        },
    ensures
        account_rows_ok(evs.take(i + 1), h, post),
{
    if has_account_id(pre, touched) {
        let j = choose|j: int|
            0 <= j < pre.len() && pre[j].account_id == touched && post == pre.update(j, new_row);
        assert(forall|p: int|
            0 <= p < post.len() && p != j ==> post[p] == pre[p] && post[p].account_id != touched);
        assert(post[j] == new_row);
        assert(unique_account_ids(post));
        assert forall|p: int| 0 <= p < post.len() implies account_row_for(
            evs.take(i + 1),
            (#[trigger] post[p]).account_id,
            h,
        ) == Some(post[p]) by {
            if p != j {
                assert(account_row_for(evs.take(i), post[p].account_id, h) == Some(pre[p]));
            }
        }
        assert forall|id: Seq<char>| #[trigger]
            account_row_for(evs.take(i + 1), id, h) is Some implies has_account_id(post, id) by {
            if id == touched {
                assert(post[j].account_id == id);
            } else {
                assert(account_row_for(evs.take(i), id, h) is Some);
                let q = choose|q: int| 0 <= q < pre.len() && pre[q].account_id == id;
                assert(post[q].account_id == id);
            }
        }
    } else {
        let n = pre.len() as int;
        assert(forall|p: int| 0 <= p < n ==> post[p] == pre[p]);
        assert(forall|p: int| 0 <= p < n ==> pre[p].account_id != touched);
        assert(post[n] == new_row);
        assert(unique_account_ids(post));
        assert forall|p: int| 0 <= p < post.len() implies account_row_for(
            evs.take(i + 1),
            (#[trigger] post[p]).account_id,
            h,
        ) == Some(post[p]) by {
            if p < n {
                assert(account_row_for(evs.take(i), post[p].account_id, h) == Some(pre[p]));
            }
        }
        assert forall|id: Seq<char>| #[trigger]
            account_row_for(evs.take(i + 1), id, h) is Some implies has_account_id(post, id) by {
            if id == touched {
                assert(post[n].account_id == id);
            } else {
                assert(account_row_for(evs.take(i), id, h) is Some);
                let q = choose|q: int| 0 <= q < pre.len() && pre[q].account_id == id;
                assert(post[q].account_id == id);
            }
        }
    }
}

/// A live key row as a key-added event records it.
pub open spec fn fresh_key_row(
    pk: Seq<char>,
    aid: Seq<char>,
    receipt_id: Seq<char>,
    permission_kind: Seq<char>,
) -> AccessKeyView {
    AccessKeyView {
        public_key: pk,
        account_id: aid,
        created_by_receipt_id: Some(receipt_id),
        deleted_by_receipt_id: None,
        permission_kind: permission_kind,
    }
}

/// The named merge rule for a key deletion: creation fields and permission of
/// a row built earlier in the batch are preserved; with no earlier row the
/// result is a pure tombstone.
pub open spec fn merge_key_delete(
    prev: Option<AccessKeyView>,
    pk: Seq<char>,
    aid: Seq<char>,
    receipt_id: Seq<char>,
) -> AccessKeyView {
    match prev {
        Some(row) => AccessKeyView {
            public_key: row.public_key,
            account_id: row.account_id,
            created_by_receipt_id: row.created_by_receipt_id,
            deleted_by_receipt_id: Some(receipt_id),
            permission_kind: row.permission_kind,
        },
        None => AccessKeyView {
            public_key: pk,
            account_id: aid,
            created_by_receipt_id: None,
            deleted_by_receipt_id: Some(receipt_id),
            permission_kind: Seq::<char>::empty(),
        },
    }
}

/// The folded key row for one natural key (public key, account id) after a
/// prefix of the batch's events.
pub open spec fn key_row_for(evs: Seq<EventView>, pk: Seq<char>, aid: Seq<char>) -> Option<
    AccessKeyView,
>
    decreases evs.len(),
{
    if evs.len() == 0 {
        None
    } else {
        let prev = key_row_for(evs.drop_last(), pk, aid);
        match evs.last() {
            EventView::KeyCreated { public_key, account_id, receipt_id, permission_kind } => if
            public_key == pk && account_id == aid {
                Some(fresh_key_row(pk, aid, receipt_id, permission_kind))
            } else {
                prev
            },
            EventView::KeyDeleted { public_key, account_id, receipt_id } => if public_key == pk
                && account_id == aid {
                Some(merge_key_delete(prev, pk, aid, receipt_id))
            } else {
                prev
            },
            _ => prev,
        }
    }
}

pub open spec fn same_key(a: AccessKeyView, pk: Seq<char>, aid: Seq<char>) -> bool {
    a.public_key == pk && a.account_id == aid
}

pub open spec fn unique_key_ids(rows: Seq<AccessKeyView>) -> bool {
    forall|p: int, q: int|
        0 <= p < q < rows.len() ==> !same_key(rows[p], rows[q].public_key, rows[q].account_id)
}

pub open spec fn has_key(rows: Seq<AccessKeyView>, pk: Seq<char>, aid: Seq<char>) -> bool {
    exists|p: int| 0 <= p < rows.len() && same_key(rows[p], pk, aid)
}

/// What the key fold returns: one row per touched natural key, each the
/// last-write-wins fold of that key's events, and nothing else.
pub open spec fn key_rows_ok(evs: Seq<EventView>, rows: Seq<AccessKeyView>) -> bool {
    &&& unique_key_ids(rows)
    &&& forall|p: int|
        0 <= p < rows.len() ==> key_row_for(
            evs,
            (#[trigger] rows[p]).public_key,
            rows[p].account_id,
        ) == Some(rows[p])
    &&& forall|pk: Seq<char>, aid: Seq<char>| #[trigger]
        key_row_for(evs, pk, aid) is Some ==> has_key(rows, pk, aid)
}

/// Finds the row already built for the given natural key.
fn find_key(rows: &Vec<AccessKey>, pk: &String, aid: &String) -> (r: Option<usize>)
    ensures
        match r {
            Some(j) => j < rows@.len() && same_key(rows@[j as int]@, pk@, aid@),
            None => !has_key(rows.deep_view(), pk@, aid@),
        },
{
    let mut i: usize = 0;
    while i < rows.len()
        invariant
            i <= rows@.len(),
            forall|p: int| 0 <= p < i ==> !same_key(rows.deep_view()[p], pk@, aid@),
        decreases rows@.len() - i,
    {
        if rows[i].public_key == *pk && rows[i].account_id == *aid {
            return Some(i);
        }
        i = i + 1;
    }
    None
}

/// Folds a batch's events into access-key rows, one per touched natural key.
pub fn reduce_key_events(events: &Vec<Event>) -> (rows: Vec<AccessKey>)
    ensures
        key_rows_ok(events.deep_view(), rows.deep_view()),
{
    let ghost evs = events.deep_view();
    let mut rows: Vec<AccessKey> = Vec::new();
    let mut i: usize = 0;
    while i < events.len()
        invariant
            i <= events@.len(),
            evs == events.deep_view(),
            evs.len() == events@.len(),
            forall|k: int| 0 <= k < events@.len() ==> events@[k]@ == evs[k],
            key_rows_ok(evs.take(i as int), rows.deep_view()),
        decreases events@.len() - i,
    {
        let ghost pre = rows.deep_view();
        proof {
            assert(evs.take(i + 1).drop_last() =~= evs.take(i as int));
            assert(evs.take(i + 1).last() == evs[i as int]);
            assert(events@[i as int]@ == evs[i as int]);
        }
        match &events[i] {
            Event::KeyCreated { public_key, account_id, receipt_id, permission_kind } => {
                proof {
                    assert(evs[i as int] == (EventView::KeyCreated {
                        public_key: public_key@,
                        account_id: account_id@,
                        receipt_id: receipt_id@,
                        permission_kind: permission_kind@,
                    }));
                }
                let row = AccessKey {
                    public_key: public_key.clone(),
                    account_id: account_id.clone(),
                    created_by_receipt_id: Some(receipt_id.clone()),
                    deleted_by_receipt_id: None,
                    permission_kind: permission_kind.clone(),
                };
                match find_key(&rows, public_key, account_id) {
                    Some(j) => {
                        rows[j] = row;
                        proof {
                            assert(rows.deep_view() =~= pre.update(j as int, row@));
                            assert(0 <= j < pre.len() && same_key(pre[j as int], public_key@, account_id@)
                                && rows.deep_view() == pre.update(
                                j as int,
                                fresh_key_row(public_key@, account_id@, receipt_id@, permission_kind@),
                            ));
                            assert(has_key(pre, public_key@, account_id@));
                        }
                    },
                    None => {
                        rows.push(row);
                        proof {
                            assert(rows.deep_view() =~= pre.push(row@));
                            assert(rows.deep_view() == pre.push(
                                fresh_key_row(public_key@, account_id@, receipt_id@, permission_kind@),
                            ));
                        }
                    },
                }
            },
            Event::KeyDeleted { public_key, account_id, receipt_id } => {
                proof {
                    assert(evs[i as int] == (EventView::KeyDeleted {
                        public_key: public_key@,
                        account_id: account_id@,
                        receipt_id: receipt_id@,
                    }));
                }
                match find_key(&rows, public_key, account_id) {
                    Some(j) => {
                        let merged = AccessKey {
                            public_key: rows[j].public_key.clone(),
                            account_id: rows[j].account_id.clone(),
                            created_by_receipt_id: clone_opt_string(&rows[j].created_by_receipt_id),
                            deleted_by_receipt_id: Some(receipt_id.clone()),
                            permission_kind: rows[j].permission_kind.clone(),
                        };
                        proof {
                            assert(merged@ == merge_key_delete(
                                Some(pre[j as int]),
                                public_key@,
                                account_id@,
                                receipt_id@,
                            ));
                        }
                        rows[j] = merged;
                        proof {
                            assert(rows.deep_view() =~= pre.update(
                                j as int,
                                merge_key_delete(
                                    Some(pre[j as int]),
                                    public_key@,
                                    account_id@,
                                    receipt_id@,
                                ),
                            ));
                            assert(0 <= j < pre.len() && same_key(pre[j as int], public_key@, account_id@)
                                && rows.deep_view() == pre.update(
                                j as int,
                                merge_key_delete(
                                    Some(pre[j as int]),
                                    public_key@,
                                    account_id@,
                                    receipt_id@,
                                ),
                            ));
                            assert(has_key(pre, public_key@, account_id@));
                        }
                    },
                    None => {
                        let row = AccessKey {
                            public_key: public_key.clone(),
                            account_id: account_id.clone(),
                            created_by_receipt_id: None,
                            deleted_by_receipt_id: Some(receipt_id.clone()),
                            permission_kind: String::new(),
                        };
                        rows.push(row);
                        proof {
                            assert(rows.deep_view() =~= pre.push(
                                merge_key_delete(None, public_key@, account_id@, receipt_id@),
                            ));
                        }
                    },
                }
            },
            _ => {},
        }
        proof {
            lemma_key_step(evs, i as int, pre, rows.deep_view());
        }
        i = i + 1;
    }
    proof {
        assert(evs.take(evs.len() as int) =~= evs);
    }
    rows
}

/// One fold step preserves the key reducer's characterization.
proof fn lemma_key_step(evs: Seq<EventView>, i: int, pre: Seq<AccessKeyView>, post: Seq<AccessKeyView>)
    requires
        0 <= i < evs.len(),
        key_rows_ok(evs.take(i), pre),
        match evs[i] {
            EventView::KeyCreated { public_key, account_id, receipt_id, permission_kind } => if
            has_key(pre, public_key, account_id) {
                exists|j: int|
                    0 <= j < pre.len() && same_key(pre[j], public_key, account_id) && post
                        == pre.update(
                        j,
                        fresh_key_row(public_key, account_id, receipt_id, permission_kind),
                    )
            } else {
                post == pre.push(fresh_key_row(public_key, account_id, receipt_id, permission_kind))
            },
            EventView::KeyDeleted { public_key, account_id, receipt_id } => if has_key(
                pre,
                public_key,
                account_id,
            ) {
                exists|j: int|
                    0 <= j < pre.len() && same_key(pre[j], public_key, account_id) && post
                        == pre.update(
                        j,
                        merge_key_delete(Some(pre[j]), public_key, account_id, receipt_id),
                    )
            } else {
                post == pre.push(merge_key_delete(None, public_key, account_id, receipt_id))
            },
            _ => post == pre,
        },
    ensures
        key_rows_ok(evs.take(i + 1), post),
{
    assert(evs.take(i + 1).drop_last() =~= evs.take(i));
    assert(evs.take(i + 1).last() == evs[i]);
    match evs[i] {
        EventView::KeyCreated { public_key, account_id, receipt_id, permission_kind } => {
            lemma_key_touch(
                evs,
                i,
                pre,
                post,
                public_key,
                account_id,
                fresh_key_row(public_key, account_id, receipt_id, permission_kind),
            );
        },
        EventView::KeyDeleted { public_key, account_id, receipt_id } => {
            if has_key(pre, public_key, account_id) {
                let j = choose|j: int|
                    0 <= j < pre.len() && same_key(pre[j], public_key, account_id) && post
                        == pre.update(
                        j,
                        merge_key_delete(Some(pre[j]), public_key, account_id, receipt_id),
                    );
                assert(key_row_for(evs.take(i), public_key, account_id) == Some(pre[j]));
                lemma_key_touch(
                    evs,
                    i,
                    pre,
                    post,
                    public_key,
                    account_id,
                    merge_key_delete(Some(pre[j]), public_key, account_id, receipt_id),
                );
            } else {
                assert(key_row_for(evs.take(i), public_key, account_id) is Some ==> has_key(
                    pre,
                    public_key,
                    account_id,
                ));
                lemma_key_touch(
                    evs,
                    i,
                    pre,
                    post,
                    public_key,
                    account_id,
                    merge_key_delete(None, public_key, account_id, receipt_id),
                );
            }
        },
        _ => {
            assert forall|pk: Seq<char>, aid: Seq<char>| #[trigger]
                key_row_for(evs.take(i + 1), pk, aid) is Some implies has_key(post, pk, aid) by {
                assert(key_row_for(evs.take(i + 1), pk, aid) == key_row_for(evs.take(i), pk, aid));
            }
        },
    }
}

/// One fold step that replaces or appends the row for the touched natural key
/// keeps the characterization.
proof fn lemma_key_touch(
    evs: Seq<EventView>,
    i: int,
    pre: Seq<AccessKeyView>,
    post: Seq<AccessKeyView>,
    pk: Seq<char>,
    aid: Seq<char>,
    new_row: AccessKeyView,
)
    requires
        0 <= i < evs.len(),
        key_rows_ok(evs.take(i), pre),
        evs.take(i + 1).drop_last() == evs.take(i),
        evs.take(i + 1).last() == evs[i],
        same_key(new_row, pk, aid),
        key_row_for(evs.take(i + 1), pk, aid) == Some(new_row),
        forall|p: Seq<char>, a: Seq<char>|
            !(p == pk && a == aid) ==> key_row_for(evs.take(i + 1), p, a) == key_row_for(
                #[trigger] evs.take(i),
                p,
                a,
            ),
        if has_key(pre, pk, aid) {
            exists|j: int|
                0 <= j < pre.len() && same_key(pre[j], pk, aid) && post == pre.update(j, new_row)
        } else {
            post == pre.push(new_row)
        },
    ensures
        key_rows_ok(evs.take(i + 1), post),
{
    if has_key(pre, pk, aid) {
        let j = choose|j: int|
            0 <= j < pre.len() && same_key(pre[j], pk, aid) && post == pre.update(j, new_row);
        assert(forall|p: int|
            0 <= p < post.len() && p != j ==> post[p] == pre[p] && !same_key(post[p], pk, aid));
        assert(post[j] == new_row);
        assert(unique_key_ids(post));
        assert forall|p: int| 0 <= p < post.len() implies key_row_for(
            evs.take(i + 1),
            (#[trigger] post[p]).public_key,
            post[p].account_id,
        ) == Some(post[p]) by {
            if p != j {
                assert(key_row_for(evs.take(i), post[p].public_key, post[p].account_id) == Some(
                    pre[p],
                ));
            }
        }
        assert forall|p: Seq<char>, a: Seq<char>| #[trigger]
            key_row_for(evs.take(i + 1), p, a) is Some implies has_key(post, p, a) by {
            if p == pk && a == aid {
                assert(same_key(post[j], p, a));
            } else {
                assert(key_row_for(evs.take(i), p, a) is Some);
                let q = choose|q: int| 0 <= q < pre.len() && same_key(pre[q], p, a);
                assert(same_key(post[q], p, a));
            }
        }
    } else {
        let n = pre.len() as int;
        assert(forall|p: int| 0 <= p < n ==> post[p] == pre[p]);
        assert(forall|p: int| 0 <= p < n ==> !same_key(pre[p], pk, aid));
        assert(post[n] == new_row);
        assert(unique_key_ids(post));
        assert forall|p: int| 0 <= p < post.len() implies key_row_for(
            evs.take(i + 1),
            (#[trigger] post[p]).public_key,
            post[p].account_id,
        ) == Some(post[p]) by {
            if p < n {
                assert(key_row_for(evs.take(i), post[p].public_key, post[p].account_id) == Some(
                    pre[p],
                ));
            }
        }
        assert forall|p: Seq<char>, a: Seq<char>| #[trigger]
            key_row_for(evs.take(i + 1), p, a) is Some implies has_key(post, p, a) by {
            if p == pk && a == aid {
                assert(same_key(post[n], p, a));
            } else {
                assert(key_row_for(evs.take(i), p, a) is Some);
                let q = choose|q: int| 0 <= q < pre.len() && same_key(pre[q], p, a);
                assert(same_key(post[q], p, a));
            }
        }
    }
}


/// The rows of a reduction whose deletion marker is unset, in order: these
/// are inserted.
pub open spec fn live_accounts(rows: Seq<AccountView>) -> Seq<AccountView>
    decreases rows.len(),
{
    if rows.len() == 0 {
        Seq::<AccountView>::empty()
    } else {
        live_accounts(rows.drop_last()) + (if rows.last().is_deleted() {
            Seq::<AccountView>::empty()
        } else {
            seq![rows.last()]
        })
    }
}

/// The rows of a reduction whose deletion marker is set, in order: these
/// drive conditional updates.
pub open spec fn deleted_accounts(rows: Seq<AccountView>) -> Seq<AccountView>
    decreases rows.len(),
{
    if rows.len() == 0 {
        Seq::<AccountView>::empty()
    } else {
        deleted_accounts(rows.drop_last()) + (if rows.last().is_deleted() {
            seq![rows.last()]
        } else {
            Seq::<AccountView>::empty()
        })
    }
}

fn clone_account(r: &Account) -> (c: Account)
    ensures
        c@ == r@,
{
    Account {
        account_id: r.account_id.clone(),
        created_by_receipt_id: clone_opt_string(&r.created_by_receipt_id),
        created_by_block_height: r.created_by_block_height,
        deleted_by_receipt_id: clone_opt_string(&r.deleted_by_receipt_id),
        deleted_by_block_height: r.deleted_by_block_height,
    }
}

fn clone_key(r: &AccessKey) -> (c: AccessKey)
    ensures
        c@ == r@,
{
    AccessKey {
        public_key: r.public_key.clone(),
        account_id: r.account_id.clone(),
        created_by_receipt_id: clone_opt_string(&r.created_by_receipt_id),
        deleted_by_receipt_id: clone_opt_string(&r.deleted_by_receipt_id),
        permission_kind: r.permission_kind.clone(),
    }
}

/// Routes folded account rows: rows without a deletion marker go to the
/// insert set, rows with one drive conditional updates.
pub fn partition_accounts(rows: &Vec<Account>) -> (r: (Vec<Account>, Vec<Account>))
    ensures
        r.0.deep_view() == live_accounts(rows.deep_view()),
        r.1.deep_view() == deleted_accounts(rows.deep_view()),
{
    let ghost rvs = rows.deep_view();
    let mut to_create: Vec<Account> = Vec::new();
    let mut to_update: Vec<Account> = Vec::new();
    let mut i: usize = 0;
    while i < rows.len()
        invariant
            i <= rows@.len(),
            rvs == rows.deep_view(),
            rvs.len() == rows@.len(),
            forall|k: int| 0 <= k < rows@.len() ==> rows@[k]@ == rvs[k],
            to_create.deep_view() == live_accounts(rvs.take(i as int)),
            to_update.deep_view() == deleted_accounts(rvs.take(i as int)),
        decreases rows@.len() - i,
    {
        let ghost c_pre = to_create.deep_view();
        let ghost u_pre = to_update.deep_view();
        let row = clone_account(&rows[i]);
        if row.deleted_by_receipt_id.is_some() {
            to_update.push(row);
            proof {
                assert(to_update.deep_view() =~= u_pre + seq![rvs[i as int]]);
            }
        } else {
            to_create.push(row);
            proof {
                assert(to_create.deep_view() =~= c_pre + seq![rvs[i as int]]);
            }
        }
        proof {
            assert(rvs.take(i + 1).drop_last() =~= rvs.take(i as int));
            assert(rvs.take(i + 1).last() == rvs[i as int]);
            assert(to_create.deep_view() =~= live_accounts(rvs.take(i + 1)));
            assert(to_update.deep_view() =~= deleted_accounts(rvs.take(i + 1)));
        }
        i = i + 1;
    }
    proof {
        assert(rvs.take(rvs.len() as int) =~= rvs);
    }
    (to_create, to_update)
}

/// Key rows without a deletion marker: these are inserted.
pub open spec fn live_keys(rows: Seq<AccessKeyView>) -> Seq<AccessKeyView>
    decreases rows.len(),
{
    if rows.len() == 0 {
        Seq::<AccessKeyView>::empty()
    } else {
        live_keys(rows.drop_last()) + (if rows.last().is_deleted() {
            Seq::<AccessKeyView>::empty()
        } else {
            seq![rows.last()]
        })
    }
}

/// Key rows deleted by exact identity: their public key names one key.
pub open spec fn deleted_keys(rows: Seq<AccessKeyView>) -> Seq<AccessKeyView>
    decreases rows.len(),
{
    if rows.len() == 0 {
        Seq::<AccessKeyView>::empty()
    } else {
        deleted_keys(rows.drop_last()) + (if rows.last().is_deleted() && rows.last().public_key
            != Seq::<char>::empty() {
            seq![rows.last()]
        } else {
            Seq::<AccessKeyView>::empty()
        })
    }
}

/// Key rows deleted as a cascade of account deletion: the empty public key is
/// the sentinel, and the update is keyed by account id alone.
pub open spec fn cascade_deleted_keys(rows: Seq<AccessKeyView>) -> Seq<AccessKeyView>
    decreases rows.len(),
{
    if rows.len() == 0 {
        Seq::<AccessKeyView>::empty()
    } else {
        cascade_deleted_keys(rows.drop_last()) + (if rows.last().is_deleted() && rows.last().public_key
            == Seq::<char>::empty() {
            seq![rows.last()]
        } else {
            Seq::<AccessKeyView>::empty()
        })
    }
}

/// Routes folded key rows into the three disjoint write sets: insert,
/// delete by exact key, and cascade delete by account id.
pub fn partition_keys(rows: &Vec<AccessKey>) -> (r: (Vec<AccessKey>, Vec<AccessKey>, Vec<AccessKey>))
    ensures
        r.0.deep_view() == live_keys(rows.deep_view()),
        r.1.deep_view() == deleted_keys(rows.deep_view()),
        r.2.deep_view() == cascade_deleted_keys(rows.deep_view()),
{
    let ghost rvs = rows.deep_view();
    let mut to_create: Vec<AccessKey> = Vec::new();
    let mut to_update: Vec<AccessKey> = Vec::new();
    let mut cascade: Vec<AccessKey> = Vec::new();
    let mut i: usize = 0;
    while i < rows.len()
        invariant
            i <= rows@.len(),
            rvs == rows.deep_view(),
            rvs.len() == rows@.len(),
            forall|k: int| 0 <= k < rows@.len() ==> rows@[k]@ == rvs[k],
            to_create.deep_view() == live_keys(rvs.take(i as int)),
            to_update.deep_view() == deleted_keys(rvs.take(i as int)),
            cascade.deep_view() == cascade_deleted_keys(rvs.take(i as int)),
        decreases rows@.len() - i,
    {
        let ghost c_pre = to_create.deep_view();
        let ghost u_pre = to_update.deep_view();
        let ghost k_pre = cascade.deep_view();
        let row = clone_key(&rows[i]);
        if row.deleted_by_receipt_id.is_some() {
            if row.public_key.as_str().is_empty() {
                proof {
                    assert(rvs[i as int].public_key =~= Seq::<char>::empty()) by {
                        assert(row.public_key@.len() == 0);
                    }
                }
                cascade.push(row);
                proof {
                    assert(cascade.deep_view() =~= k_pre + seq![rvs[i as int]]);
                }
            } else {
                proof {
                    assert(rvs[i as int].public_key != Seq::<char>::empty()) by {
                        assert(row.public_key@.len() != 0);
                    }
                }
                to_update.push(row);
                proof {
                    assert(to_update.deep_view() =~= u_pre + seq![rvs[i as int]]);
                }
            }
        } else {
            to_create.push(row);
            proof {
                assert(to_create.deep_view() =~= c_pre + seq![rvs[i as int]]);
            }
        }
        proof {
            assert(rvs.take(i + 1).drop_last() =~= rvs.take(i as int));
            assert(rvs.take(i + 1).last() == rvs[i as int]);
            assert(to_create.deep_view() =~= live_keys(rvs.take(i + 1)));
            assert(to_update.deep_view() =~= deleted_keys(rvs.take(i + 1)));
            assert(cascade.deep_view() =~= cascade_deleted_keys(rvs.take(i + 1)));
        }
        i = i + 1;
    }
    proof {
        assert(rvs.take(rvs.len() as int) =~= rvs);
    }
    (to_create, to_update, cascade)
}


/// Every routed account row is one of the folded rows, with the stated
/// deletion marker.
pub proof fn lemma_account_routing_membership(rows: Seq<AccountView>)
    ensures
        forall|p: int|
            0 <= p < live_accounts(rows).len() ==> rows.contains(#[trigger] live_accounts(rows)[p])
                && !live_accounts(rows)[p].is_deleted(),
        forall|p: int|
            0 <= p < deleted_accounts(rows).len() ==> rows.contains(
                #[trigger] deleted_accounts(rows)[p],
            ) && deleted_accounts(rows)[p].is_deleted(),
    decreases rows.len(),
{
    if rows.len() > 0 {
        lemma_account_routing_membership(rows.drop_last());
        assert forall|p: int| 0 <= p < live_accounts(rows).len() implies rows.contains(
            #[trigger] live_accounts(rows)[p],
        ) && !live_accounts(rows)[p].is_deleted() by {
            if p < live_accounts(rows.drop_last()).len() {
                assert(rows.drop_last().contains(live_accounts(rows.drop_last())[p]));
                let q = choose|q: int|
                    0 <= q < rows.drop_last().len() && rows.drop_last()[q] == live_accounts(
                        rows.drop_last(),
                    )[p];
                assert(rows[q] == live_accounts(rows)[p]);
            } else {
                assert(live_accounts(rows)[p] == rows.last());
                assert(rows[rows.len() - 1] == rows.last());
            }
        }
        assert forall|p: int| 0 <= p < deleted_accounts(rows).len() implies rows.contains(
            #[trigger] deleted_accounts(rows)[p],
        ) && deleted_accounts(rows)[p].is_deleted() by {
            if p < deleted_accounts(rows.drop_last()).len() {
                assert(rows.drop_last().contains(deleted_accounts(rows.drop_last())[p]));
                let q = choose|q: int|
                    0 <= q < rows.drop_last().len() && rows.drop_last()[q] == deleted_accounts(
                        rows.drop_last(),
                    )[p];
                assert(rows[q] == deleted_accounts(rows)[p]);
            } else {
                assert(deleted_accounts(rows)[p] == rows.last());
                assert(rows[rows.len() - 1] == rows.last());
            }
        }
    }
}

/// Disjoint routing for accounts: no account id reaches both the insert set
/// and the update set of one reduction, the insert set holds only unmarked
/// rows, and the update set only marked ones.
pub proof fn lemma_disjoint_routing_accounts(rows: Seq<AccountView>)
    requires
        unique_account_ids(rows),
    ensures
        forall|p: int| 0 <= p < live_accounts(rows).len() ==> !(#[trigger] live_accounts(rows)[p]).is_deleted(),
        forall|p: int|
            0 <= p < deleted_accounts(rows).len() ==> (#[trigger] deleted_accounts(rows)[p]).is_deleted(),
        forall|p: int, q: int|
            0 <= p < live_accounts(rows).len() && 0 <= q < deleted_accounts(rows).len()
                ==> live_accounts(rows)[p].account_id != deleted_accounts(rows)[q].account_id,
{
    lemma_account_routing_membership(rows);
    assert forall|p: int, q: int|
        0 <= p < live_accounts(rows).len() && 0 <= q < deleted_accounts(rows).len() implies
        live_accounts(rows)[p].account_id != deleted_accounts(rows)[q].account_id by {
        let a = choose|a: int| 0 <= a < rows.len() && rows[a] == live_accounts(rows)[p];
        let b = choose|b: int| 0 <= b < rows.len() && rows[b] == deleted_accounts(rows)[q];
        assert(rows[a] != rows[b]);
    }
}

/// Every routed key row is one of the folded rows, with the stated deletion
/// marker and sentinel.
pub proof fn lemma_key_routing_membership(rows: Seq<AccessKeyView>)
    ensures
        forall|p: int|
            0 <= p < live_keys(rows).len() ==> rows.contains(#[trigger] live_keys(rows)[p])
                && !live_keys(rows)[p].is_deleted(),
        forall|p: int|
            0 <= p < deleted_keys(rows).len() ==> rows.contains(#[trigger] deleted_keys(rows)[p])
                && deleted_keys(rows)[p].is_deleted() && deleted_keys(rows)[p].public_key != Seq::<
                char,
            >::empty(),
        forall|p: int|
            0 <= p < cascade_deleted_keys(rows).len() ==> rows.contains(
                #[trigger] cascade_deleted_keys(rows)[p],
            ) && cascade_deleted_keys(rows)[p].is_deleted() && cascade_deleted_keys(
                rows,
            )[p].public_key == Seq::<char>::empty(),
    decreases rows.len(),
{
    if rows.len() > 0 {
        lemma_key_routing_membership(rows.drop_last());
        assert forall|p: int| 0 <= p < live_keys(rows).len() implies rows.contains(
            #[trigger] live_keys(rows)[p],
        ) && !live_keys(rows)[p].is_deleted() by {
            if p < live_keys(rows.drop_last()).len() {
                assert(rows.drop_last().contains(live_keys(rows.drop_last())[p]));
                let q = choose|q: int|
                    0 <= q < rows.drop_last().len() && rows.drop_last()[q] == live_keys(
                        rows.drop_last(),
                    )[p];
                assert(rows[q] == live_keys(rows)[p]);
            } else {
                assert(rows[rows.len() - 1] == rows.last());
            }
        }
        assert forall|p: int| 0 <= p < deleted_keys(rows).len() implies rows.contains(
            #[trigger] deleted_keys(rows)[p],
        ) && deleted_keys(rows)[p].is_deleted() && deleted_keys(rows)[p].public_key != Seq::<
            char,
        >::empty() by {
            if p < deleted_keys(rows.drop_last()).len() {
                assert(rows.drop_last().contains(deleted_keys(rows.drop_last())[p]));
                let q = choose|q: int|
                    0 <= q < rows.drop_last().len() && rows.drop_last()[q] == deleted_keys(
                        rows.drop_last(),
                    )[p];
                assert(rows[q] == deleted_keys(rows)[p]);
            } else {
                assert(rows[rows.len() - 1] == rows.last());
            }
        }
        assert forall|p: int| 0 <= p < cascade_deleted_keys(rows).len() implies rows.contains(
            #[trigger] cascade_deleted_keys(rows)[p],
        ) && cascade_deleted_keys(rows)[p].is_deleted() && cascade_deleted_keys(rows)[p].public_key
            == Seq::<char>::empty() by {
            if p < cascade_deleted_keys(rows.drop_last()).len() {
                assert(rows.drop_last().contains(cascade_deleted_keys(rows.drop_last())[p]));
                let q = choose|q: int|
                    0 <= q < rows.drop_last().len() && rows.drop_last()[q] == cascade_deleted_keys(
                        rows.drop_last(),
                    )[p];
                assert(rows[q] == cascade_deleted_keys(rows)[p]);
            } else {
                assert(rows[rows.len() - 1] == rows.last());
            }
        }
    }
}

/// Disjoint routing for keys: the three write sets of one reduction never
/// share a natural key.
pub proof fn lemma_disjoint_routing_keys(rows: Seq<AccessKeyView>)
    requires
        unique_key_ids(rows),
    ensures
        forall|p: int| 0 <= p < live_keys(rows).len() ==> !(#[trigger] live_keys(rows)[p]).is_deleted(),
        forall|p: int| 0 <= p < deleted_keys(rows).len() ==> (#[trigger] deleted_keys(rows)[p]).is_deleted(),
        forall|p: int|
            0 <= p < cascade_deleted_keys(rows).len() ==> (#[trigger] cascade_deleted_keys(
                rows,
            )[p]).is_deleted(),
        forall|p: int, q: int|
            0 <= p < live_keys(rows).len() && 0 <= q < deleted_keys(rows).len() ==> !same_key(
                live_keys(rows)[p],
                deleted_keys(rows)[q].public_key,
                deleted_keys(rows)[q].account_id,
            ),
        forall|p: int, q: int|
            0 <= p < live_keys(rows).len() && 0 <= q < cascade_deleted_keys(rows).len()
                ==> !same_key(
                live_keys(rows)[p],
                cascade_deleted_keys(rows)[q].public_key,
                cascade_deleted_keys(rows)[q].account_id,
            ),
        forall|p: int, q: int|
            0 <= p < deleted_keys(rows).len() && 0 <= q < cascade_deleted_keys(rows).len()
                ==> !same_key(
                deleted_keys(rows)[p],
                cascade_deleted_keys(rows)[q].public_key,
                cascade_deleted_keys(rows)[q].account_id,
            ),
{
    lemma_key_routing_membership(rows);
    assert forall|p: int, q: int|
        0 <= p < live_keys(rows).len() && 0 <= q < deleted_keys(rows).len() implies !same_key(
        live_keys(rows)[p],
        deleted_keys(rows)[q].public_key,
        deleted_keys(rows)[q].account_id,
    ) by {
        let a = choose|a: int| 0 <= a < rows.len() && rows[a] == live_keys(rows)[p];
        let b = choose|b: int| 0 <= b < rows.len() && rows[b] == deleted_keys(rows)[q];
        assert(rows[a] != rows[b]);
        if a < b {
            assert(!same_key(rows[a], rows[b].public_key, rows[b].account_id));
        } else {
            assert(!same_key(rows[b], rows[a].public_key, rows[a].account_id));
        }
    }
    assert forall|p: int, q: int|
        0 <= p < live_keys(rows).len() && 0 <= q < cascade_deleted_keys(rows).len()
        implies !same_key(
        live_keys(rows)[p],
        cascade_deleted_keys(rows)[q].public_key,
        cascade_deleted_keys(rows)[q].account_id,
    ) by {
        let a = choose|a: int| 0 <= a < rows.len() && rows[a] == live_keys(rows)[p];
        let b = choose|b: int| 0 <= b < rows.len() && rows[b] == cascade_deleted_keys(rows)[q];
        assert(rows[a] != rows[b]);
        if a < b {
            assert(!same_key(rows[a], rows[b].public_key, rows[b].account_id));
        } else {
            assert(!same_key(rows[b], rows[a].public_key, rows[a].account_id));
        }
    }
    assert forall|p: int, q: int|
        0 <= p < deleted_keys(rows).len() && 0 <= q < cascade_deleted_keys(rows).len()
        implies !same_key(
        deleted_keys(rows)[p],
        cascade_deleted_keys(rows)[q].public_key,
        cascade_deleted_keys(rows)[q].account_id,
    ) by {
        let a = choose|a: int| 0 <= a < rows.len() && rows[a] == deleted_keys(rows)[p];
        let b = choose|b: int| 0 <= b < rows.len() && rows[b] == cascade_deleted_keys(rows)[q];
        assert(rows[a] != rows[b] || deleted_keys(rows)[p].public_key != Seq::<char>::empty());
    }
}

/// The write sets one shard's batch produces.
pub struct ChunkDeltas {
    pub accounts_to_create: Vec<Account>,
    pub accounts_to_update: Vec<Account>,
    pub access_keys_to_create: Vec<AccessKey>,
    pub access_keys_to_update: Vec<AccessKey>,
    pub access_keys_from_deleted_accounts: Vec<AccessKey>,
}

/// Extracts one shard's events and reduces them into the five write sets.
/// `live_ids` is the store's answer to the implicit-account existence checks.
pub fn reduce_chunk(
    outcomes: &Vec<crate::input::ExecutionOutcomeWithReceipt>,
    live_ids: &Vec<String>,
    block_height: u64,
) -> (r: ChunkDeltas)
    ensures
        ({
            let evs = crate::extract::chunk_events(outcomes@, live_ids@);
            exists|acct_rows: Seq<AccountView>, key_rows: Seq<AccessKeyView>|
                {
                    &&& account_rows_ok(evs, block_height, acct_rows)
                    &&& key_rows_ok(evs, key_rows)
                    &&& r.accounts_to_create.deep_view() == live_accounts(acct_rows)
                    &&& r.accounts_to_update.deep_view() == deleted_accounts(acct_rows)
                    &&& r.access_keys_to_create.deep_view() == live_keys(key_rows)
                    &&& r.access_keys_to_update.deep_view() == deleted_keys(key_rows)
                    &&& r.access_keys_from_deleted_accounts.deep_view() == cascade_deleted_keys(
                        key_rows,
                    )
                }
        }),
{
    let events = crate::extract::extract_chunk_events(outcomes, live_ids);
    let acct_rows = reduce_account_events(&events, block_height);
    let key_rows = reduce_key_events(&events);
    let (accounts_to_create, accounts_to_update) = partition_accounts(&acct_rows);
    let (access_keys_to_create, access_keys_to_update, access_keys_from_deleted_accounts) =
        partition_keys(&key_rows);
    let r = ChunkDeltas {
        accounts_to_create,
        accounts_to_update,
        access_keys_to_create,
        access_keys_to_update,
        access_keys_from_deleted_accounts,
    };
    proof {
        let evs = crate::extract::chunk_events(outcomes@, live_ids@);
        assert(account_rows_ok(evs, block_height, acct_rows.deep_view()) && key_rows_ok(
            evs,
            key_rows.deep_view(),
        ) && r.accounts_to_create.deep_view() == live_accounts(acct_rows.deep_view())
            && r.accounts_to_update.deep_view() == deleted_accounts(acct_rows.deep_view())
            && r.access_keys_to_create.deep_view() == live_keys(key_rows.deep_view())
            && r.access_keys_to_update.deep_view() == deleted_keys(key_rows.deep_view())
            && r.access_keys_from_deleted_accounts.deep_view() == cascade_deleted_keys(
            key_rows.deep_view(),
        ));
    }
    r
}


/// Whether an event reads or writes the account row for `id`.
pub open spec fn touches_account(e: EventView, id: Seq<char>) -> bool {
    match e {
        EventView::AccountCreated { account_id, .. } => account_id == id,
        EventView::AccountDeleted { account_id, .. } => account_id == id,
        _ => false,
    }
}

/// Whether an event reads or writes the key row for (`pk`, `aid`).
pub open spec fn touches_key(e: EventView, pk: Seq<char>, aid: Seq<char>) -> bool {
    match e {
        EventView::KeyCreated { public_key, account_id, .. } => public_key == pk && account_id
            == aid,
        EventView::KeyDeleted { public_key, account_id, .. } => public_key == pk && account_id
            == aid,
        _ => false,
    }
}

/// A batch none of whose events touches an id folds no row for it.
proof fn lemma_account_untouched_none(evs: Seq<EventView>, id: Seq<char>, h: u64)
    requires
        forall|k: int| 0 <= k < evs.len() ==> !touches_account(#[trigger] evs[k], id),
    ensures
        account_row_for(evs, id, h) is None,
    decreases evs.len(),
{
    if evs.len() > 0 {
        assert(!touches_account(evs[evs.len() - 1], id));
        lemma_account_untouched_none(evs.drop_last(), id, h);
    }
}

/// After a creation that no later event of the batch overrides, the folded
/// row for the id is exactly the fresh live row.
proof fn lemma_account_created_at(
    evs: Seq<EventView>,
    id: Seq<char>,
    rc: Seq<char>,
    h: u64,
    i: int,
)
    requires
        0 <= i < evs.len(),
        evs[i] == (EventView::AccountCreated { account_id: id, receipt_id: rc }),
        forall|k: int| i < k < evs.len() ==> !touches_account(#[trigger] evs[k], id),
    ensures
        account_row_for(evs, id, h) == Some(fresh_account_row(id, rc, h)),
    decreases evs.len(),
{
    if i == evs.len() - 1 {
        assert(evs.last() == evs[i]);
    } else {
        assert(!touches_account(evs[evs.len() - 1], id));
        assert(evs.drop_last()[i] == evs[i]);
        lemma_account_created_at(evs.drop_last(), id, rc, h, i);
    }
}

/// Create-then-delete within one batch: when a batch's events for one id are
/// exactly a creation followed later by a deletion, the fold yields a single
/// row carrying both the creation and the deletion fields — never two rows.
pub proof fn lemma_create_then_delete_in_batch(
    evs: Seq<EventView>,
    id: Seq<char>,
    rc: Seq<char>,
    rd: Seq<char>,
    h: u64,
    i: int,
    j: int,
)
    requires
        0 <= i < j < evs.len(),
        evs[i] == (EventView::AccountCreated { account_id: id, receipt_id: rc }),
        evs[j] == (EventView::AccountDeleted { account_id: id, receipt_id: rd }),
        forall|k: int|
            0 <= k < evs.len() && k != i && k != j ==> !touches_account(#[trigger] evs[k], id),
    ensures
        account_row_for(evs, id, h) == Some(
            AccountView {
                account_id: id,
                created_by_receipt_id: Some(rc),
                created_by_block_height: Some(h),
                deleted_by_receipt_id: Some(rd),
                deleted_by_block_height: Some(h),
            },
        ),
    decreases evs.len(),
{
    if j == evs.len() - 1 {
        assert(evs.drop_last()[i] == evs[i]);
        lemma_account_created_at(evs.drop_last(), id, rc, h, i);
        assert(evs.last() == evs[j]);
    } else {
        assert(!touches_account(evs[evs.len() - 1], id));
        assert(evs.drop_last()[i] == evs[i]);
        assert(evs.drop_last()[j] == evs[j]);
        lemma_create_then_delete_in_batch(evs.drop_last(), id, rc, rd, h, i, j);
    }
}

/// A deletion with no prior creation in the batch folds into a pure
/// tombstone: creation fields unset, deletion fields set — the update path,
/// not the insert path.
pub proof fn lemma_delete_without_create(
    evs: Seq<EventView>,
    id: Seq<char>,
    rd: Seq<char>,
    h: u64,
    j: int,
)
    requires
        0 <= j < evs.len(),
        evs[j] == (EventView::AccountDeleted { account_id: id, receipt_id: rd }),
        forall|k: int| 0 <= k < evs.len() && k != j ==> !touches_account(#[trigger] evs[k], id),
    ensures
        account_row_for(evs, id, h) == Some(
            AccountView {
                account_id: id,
                created_by_receipt_id: None,
                created_by_block_height: None,
                deleted_by_receipt_id: Some(rd),
                deleted_by_block_height: Some(h),
            },
        ),
    decreases evs.len(),
{
    if j == evs.len() - 1 {
        assert(forall|k: int|
            0 <= k < evs.drop_last().len() ==> !touches_account(
                #[trigger] evs.drop_last()[k],
                id,
            ));
        lemma_account_untouched_none(evs.drop_last(), id, h);
        assert(evs.last() == evs[j]);
    } else {
        assert(!touches_account(evs[evs.len() - 1], id));
        assert(evs.drop_last()[j] == evs[j]);
        lemma_delete_without_create(evs.drop_last(), id, rd, h, j);
    }
}

/// After a key grant that no later event of the batch overrides, the folded
/// row for the key is exactly the fresh live row.
proof fn lemma_key_created_at(
    evs: Seq<EventView>,
    pk: Seq<char>,
    aid: Seq<char>,
    rc: Seq<char>,
    perm: Seq<char>,
    i: int,
)
    requires
        0 <= i < evs.len(),
        evs[i] == (EventView::KeyCreated {
            public_key: pk,
            account_id: aid,
            receipt_id: rc,
            permission_kind: perm,
        }),
        forall|k: int| i < k < evs.len() ==> !touches_key(#[trigger] evs[k], pk, aid),
    ensures
        key_row_for(evs, pk, aid) == Some(fresh_key_row(pk, aid, rc, perm)),
    decreases evs.len(),
{
    if i == evs.len() - 1 {
        assert(evs.last() == evs[i]);
    } else {
        assert(!touches_key(evs[evs.len() - 1], pk, aid));
        assert(evs.drop_last()[i] == evs[i]);
        lemma_key_created_at(evs.drop_last(), pk, aid, rc, perm, i);
    }
}

/// Grant-then-revoke within one batch: an add-key followed later by a
/// delete-key of the same key folds into one row whose creation receipt is
/// the granting receipt and whose deletion receipt is the revoking one, the
/// permission preserved.
pub proof fn lemma_add_then_delete_key_in_batch(
    evs: Seq<EventView>,
    pk: Seq<char>,
    aid: Seq<char>,
    rc: Seq<char>,
    rd: Seq<char>,
    perm: Seq<char>,
    i: int,
    j: int,
)
    requires
        0 <= i < j < evs.len(),
        evs[i] == (EventView::KeyCreated {
            public_key: pk,
            account_id: aid,
            receipt_id: rc,
            permission_kind: perm,
        }),
        evs[j] == (EventView::KeyDeleted { public_key: pk, account_id: aid, receipt_id: rd }),
        forall|k: int|
            0 <= k < evs.len() && k != i && k != j ==> !touches_key(#[trigger] evs[k], pk, aid),
    ensures
        key_row_for(evs, pk, aid) == Some(
            AccessKeyView {
                public_key: pk,
                account_id: aid,
                created_by_receipt_id: Some(rc),
                deleted_by_receipt_id: Some(rd),
                permission_kind: perm,
            },
        ),
    decreases evs.len(),
{
    if j == evs.len() - 1 {
        assert(evs.drop_last()[i] == evs[i]);
        lemma_key_created_at(evs.drop_last(), pk, aid, rc, perm, i);
        assert(evs.last() == evs[j]);
    } else {
        assert(!touches_key(evs[evs.len() - 1], pk, aid));
        assert(evs.drop_last()[i] == evs[i]);
        assert(evs.drop_last()[j] == evs[j]);
        lemma_add_then_delete_key_in_batch(evs.drop_last(), pk, aid, rc, rd, perm, i, j);
    }
}


} // verus!
