//! A mathematical model of the two tables and of the statements the writer
//! issues against them: insert-if-natural-key-absent (conflicts silently
//! ignored) and conditional update guarded on the deletion marker being
//! unset. Against the store the write protocols run concurrently; the model
//! serializes them as inserts, then exact-key deletes, then cascade deletes.
//! The laws proved here are what makes duplicate delivery of a block safe:
//! replaying a block's write sets changes nothing, and a tombstone, once set,
//! is never changed by any later projection.
use vstd::prelude::*;

use crate::models::{AccessKey, AccessKeyView, Account, AccountView};
use crate::reduce::{has_account_id, has_key, same_key};

verus! {

/// One insert-if-absent statement: a row is appended only when no row with
/// its natural key is present; a conflict is silently ignored.
pub open spec fn acct_insert(t: Seq<AccountView>, row: AccountView) -> Seq<AccountView> {
    if has_account_id(t, row.account_id) {
        t
    } else {
        t.push(row)
    }
}

/// The insert statements of a create set, in order.
pub open spec fn acct_inserts(t: Seq<AccountView>, rows: Seq<AccountView>) -> Seq<AccountView>
    decreases rows.len(),
{
    if rows.len() == 0 {
        t
    } else {
        acct_insert(acct_inserts(t, rows.drop_last()), rows.last())
    }
}

/// What one conditional update statement does to one stored row: the deletion
/// fields are set only where the natural key matches and the deletion marker
/// is still unset.
pub open spec fn acct_mark(r: AccountView, d: AccountView) -> AccountView {
    if r.account_id == d.account_id && r.deleted_by_receipt_id is None {
        AccountView {
            account_id: r.account_id,
            created_by_receipt_id: r.created_by_receipt_id,
            created_by_block_height: r.created_by_block_height,
            deleted_by_receipt_id: d.deleted_by_receipt_id,
            deleted_by_block_height: d.deleted_by_block_height,
        }
    } else {
        r
    }
}

/// The update statements of a delete set, as one stored row sees them.
pub open spec fn acct_row_marks(r: AccountView, ds: Seq<AccountView>) -> AccountView
    decreases ds.len(),
{
    if ds.len() == 0 {
        r
    } else {
        acct_mark(acct_row_marks(r, ds.drop_last()), ds.last())
    }
}

/// The update statements of a delete set applied to the whole table. Updates
/// touch rows independently, so the table map commutes with the per-row fold.
pub open spec fn acct_updates(t: Seq<AccountView>, ds: Seq<AccountView>) -> Seq<AccountView> {
    Seq::new(t.len(), |i: int| acct_row_marks(t[i], ds))
}

/// One block's account write sets applied to the table: the create set via
/// insert-if-absent, then the delete set via conditional updates.
pub open spec fn acct_apply_block(
    t: Seq<AccountView>,
    create: Seq<AccountView>,
    del: Seq<AccountView>,
) -> Seq<AccountView> {
    acct_updates(acct_inserts(t, create), del)
}

/// A row whose deletion marker is already set is never touched by updates.
proof fn lemma_acct_marks_keep_deleted(r: AccountView, ds: Seq<AccountView>)
    requires
        r.deleted_by_receipt_id is Some,
    ensures
        acct_row_marks(r, ds) == r,
    decreases ds.len(),
{
    if ds.len() > 0 {
        lemma_acct_marks_keep_deleted(r, ds.drop_last());
    }
}

/// When every delete row carries a deletion receipt, a row that comes out of
/// the updates still unmarked was never touched by them.
proof fn lemma_acct_marks_untouched(r: AccountView, ds: Seq<AccountView>)
    requires
        forall|p: int| 0 <= p < ds.len() ==> (#[trigger] ds[p]).deleted_by_receipt_id is Some,
        acct_row_marks(r, ds).deleted_by_receipt_id is None,
    ensures
        acct_row_marks(r, ds) == r,
    decreases ds.len(),
{
    if ds.len() > 0 {
        let x = acct_row_marks(r, ds.drop_last());
        if x.account_id == ds.last().account_id && x.deleted_by_receipt_id is None {
            assert(acct_row_marks(r, ds).deleted_by_receipt_id == ds.last().deleted_by_receipt_id);
        } else {
            lemma_acct_marks_untouched(r, ds.drop_last());
        }
    }
}

/// Updates do not change a row's key, nor the table's length.
proof fn lemma_acct_marks_keep_id(r: AccountView, ds: Seq<AccountView>)
    ensures
        acct_row_marks(r, ds).account_id == r.account_id,
    decreases ds.len(),
{
    if ds.len() > 0 {
        lemma_acct_marks_keep_id(r, ds.drop_last());
    }
}

/// Inserting never removes a key, and afterwards every inserted key is
/// present.
proof fn lemma_acct_inserts_present(t: Seq<AccountView>, rows: Seq<AccountView>)
    ensures
        forall|id: Seq<char>| has_account_id(t, id) ==> #[trigger] has_account_id(
            acct_inserts(t, rows),
            id,
        ),
        forall|p: int|
            0 <= p < rows.len() ==> has_account_id(
                acct_inserts(t, rows),
                (#[trigger] rows[p]).account_id,
            ),
    decreases rows.len(),
{
    if rows.len() > 0 {
        lemma_acct_inserts_present(t, rows.drop_last());
        let s = acct_inserts(t, rows.drop_last());
        assert forall|id: Seq<char>| has_account_id(s, id) implies #[trigger] has_account_id(
            acct_inserts(t, rows),
            id,
        ) by {
            let q = choose|q: int| 0 <= q < s.len() && s[q].account_id == id;
            assert(acct_inserts(t, rows)[q].account_id == id);
        }
        if has_account_id(s, rows.last().account_id) {
            assert(has_account_id(acct_inserts(t, rows), rows.last().account_id));
        } else {
            assert(acct_inserts(t, rows) == s.push(rows.last()));
            assert(acct_inserts(t, rows)[s.len() as int].account_id == rows.last().account_id);
            assert(has_account_id(acct_inserts(t, rows), rows.last().account_id));
        }
        assert forall|p: int| 0 <= p < rows.len() implies has_account_id(
            acct_inserts(t, rows),
            (#[trigger] rows[p]).account_id,
        ) by {
            if p < rows.len() - 1 {
                assert(rows.drop_last()[p] == rows[p]);
                assert(has_account_id(s, rows[p].account_id));
            } else {
                assert(rows[p] == rows.last());
            }
        }
    }
}

/// Insert-if-absent is a no-op on keys that are already present.
proof fn lemma_acct_inserts_noop(t: Seq<AccountView>, rows: Seq<AccountView>)
    requires
        forall|p: int| 0 <= p < rows.len() ==> has_account_id(t, (#[trigger] rows[p]).account_id),
    ensures
        acct_inserts(t, rows) == t,
    decreases rows.len(),
{
    if rows.len() > 0 {
        lemma_acct_inserts_noop(t, rows.drop_last());
    }
}

/// Idempotent replay for accounts: applying one block's write sets twice
/// leaves exactly the table that applying them once leaves. Creation is
/// conflict-ignoring and deletion is guarded on the marker being unset, so
/// the second delivery finds every key present and every marked row marked.
pub proof fn lemma_idempotent_replay_accounts(
    t: Seq<AccountView>,
    create: Seq<AccountView>,
    del: Seq<AccountView>,
)
    requires
        forall|p: int| 0 <= p < del.len() ==> (#[trigger] del[p]).deleted_by_receipt_id is Some,
    ensures
        acct_apply_block(acct_apply_block(t, create, del), create, del) == acct_apply_block(
            t,
            create,
            del,
        ),
{
    let s1 = acct_inserts(t, create);
    let s2 = acct_updates(s1, del);
    lemma_acct_inserts_present(t, create);
    assert forall|p: int| 0 <= p < create.len() implies has_account_id(
        s2,
        (#[trigger] create[p]).account_id,
    ) by {
        let q = choose|q: int| 0 <= q < s1.len() && s1[q].account_id == create[p].account_id;
        lemma_acct_marks_keep_id(s1[q], del);
        assert(s2[q].account_id == create[p].account_id);
    }
    lemma_acct_inserts_noop(s2, create);
    assert forall|i: int| 0 <= i < s2.len() implies acct_row_marks(#[trigger] s2[i], del)
        == s2[i] by {
        if s2[i].deleted_by_receipt_id is Some {
            lemma_acct_marks_keep_deleted(s2[i], del);
        } else {
            lemma_acct_marks_untouched(s1[i], del);
            assert(s2[i] == s1[i]);
        }
    }
    assert(acct_updates(s2, del) =~= s2);
}

/// Monotonic tombstones for accounts: a stored row whose deletion marker is
/// set is unchanged by the projection of any block, and no row is ever
/// removed.
pub proof fn lemma_monotonic_tombstones_accounts(
    t: Seq<AccountView>,
    create: Seq<AccountView>,
    del: Seq<AccountView>,
    i: int,
)
    requires
        0 <= i < t.len(),
        t[i].deleted_by_receipt_id is Some,
    ensures
        acct_apply_block(t, create, del).len() >= t.len(),
        acct_apply_block(t, create, del)[i] == t[i],
{
    lemma_acct_inserts_extend(t, create);
    lemma_acct_marks_keep_deleted(t[i], del);
}

/// Inserting only appends: existing rows keep their place and value.
proof fn lemma_acct_inserts_extend(t: Seq<AccountView>, rows: Seq<AccountView>)
    ensures
        acct_inserts(t, rows).len() >= t.len(),
        forall|i: int| 0 <= i < t.len() ==> acct_inserts(t, rows)[i] == t[i],
    decreases rows.len(),
{
    if rows.len() > 0 {
        lemma_acct_inserts_extend(t, rows.drop_last());
    }
}

/// One insert-if-absent statement on the key table: conflict on the natural
/// key (public key, account id) is silently ignored.
pub open spec fn key_insert(t: Seq<AccessKeyView>, row: AccessKeyView) -> Seq<AccessKeyView> {
    if has_key(t, row.public_key, row.account_id) {
        t
    } else {
        t.push(row)
    }
}

/// The insert statements of a key create set, in order.
pub open spec fn key_inserts(t: Seq<AccessKeyView>, rows: Seq<AccessKeyView>) -> Seq<AccessKeyView>
    decreases rows.len(),
{
    if rows.len() == 0 {
        t
    } else {
        key_insert(key_inserts(t, rows.drop_last()), rows.last())
    }
}

/// What one exact-key conditional update does to one stored row.
pub open spec fn key_mark(r: AccessKeyView, d: AccessKeyView) -> AccessKeyView {
    if same_key(r, d.public_key, d.account_id) && r.deleted_by_receipt_id is None {
        AccessKeyView {
            public_key: r.public_key,
            account_id: r.account_id,
            created_by_receipt_id: r.created_by_receipt_id,
            deleted_by_receipt_id: d.deleted_by_receipt_id,
            permission_kind: r.permission_kind,
        }
    } else {
        r
    }
}

/// What one cascade update does to one stored row: it is keyed by account id
/// alone, marking every still-live key of the deleted account.
pub open spec fn cascade_mark(r: AccessKeyView, d: AccessKeyView) -> AccessKeyView {
    if r.account_id == d.account_id && r.deleted_by_receipt_id is None {
        AccessKeyView {
            public_key: r.public_key,
            account_id: r.account_id,
            created_by_receipt_id: r.created_by_receipt_id,
            deleted_by_receipt_id: d.deleted_by_receipt_id,
            permission_kind: r.permission_kind,
        }
    } else {
        r
    }
}

/// The exact-key update statements of a delete set, as one stored row sees
/// them.
pub open spec fn key_row_marks(r: AccessKeyView, ds: Seq<AccessKeyView>) -> AccessKeyView
    decreases ds.len(),
{
    if ds.len() == 0 {
        r
    } else {
        key_mark(key_row_marks(r, ds.drop_last()), ds.last())
    }
}

/// The cascade update statements, as one stored row sees them.
pub open spec fn cascade_row_marks(r: AccessKeyView, ds: Seq<AccessKeyView>) -> AccessKeyView
    decreases ds.len(),
{
    if ds.len() == 0 {
        r
    } else {
        cascade_mark(cascade_row_marks(r, ds.drop_last()), ds.last())
    }
}

pub open spec fn key_updates(t: Seq<AccessKeyView>, ds: Seq<AccessKeyView>) -> Seq<AccessKeyView> {
    Seq::new(t.len(), |i: int| key_row_marks(t[i], ds))
}

pub open spec fn cascade_updates(t: Seq<AccessKeyView>, ds: Seq<AccessKeyView>) -> Seq<
    AccessKeyView,
> {
    Seq::new(t.len(), |i: int| cascade_row_marks(t[i], ds))
}

/// One block's key write sets applied to the table: inserts, then exact-key
/// deletes, then cascade deletes.
pub open spec fn key_apply_block(
    t: Seq<AccessKeyView>,
    create: Seq<AccessKeyView>,
    del: Seq<AccessKeyView>,
    cascade: Seq<AccessKeyView>,
) -> Seq<AccessKeyView> {
    cascade_updates(key_updates(key_inserts(t, create), del), cascade)
}

/// A key row whose deletion marker is set is never touched by either update
/// kind.
proof fn lemma_key_marks_keep_deleted(r: AccessKeyView, ds: Seq<AccessKeyView>)
    requires
        r.deleted_by_receipt_id is Some,
    ensures
        key_row_marks(r, ds) == r,
        cascade_row_marks(r, ds) == r,
    decreases ds.len(),
{
    if ds.len() > 0 {
        lemma_key_marks_keep_deleted(r, ds.drop_last());
    }
}

/// When every delete row carries a deletion receipt, a row that comes out of
/// the exact-key updates still unmarked was never touched by them.
proof fn lemma_key_marks_untouched(r: AccessKeyView, ds: Seq<AccessKeyView>)
    requires
        forall|p: int| 0 <= p < ds.len() ==> (#[trigger] ds[p]).deleted_by_receipt_id is Some,
        key_row_marks(r, ds).deleted_by_receipt_id is None,
    ensures
        key_row_marks(r, ds) == r,
    decreases ds.len(),
{
    if ds.len() > 0 {
        let x = key_row_marks(r, ds.drop_last());
        if same_key(x, ds.last().public_key, ds.last().account_id) && x.deleted_by_receipt_id
            is None {
            assert(key_row_marks(r, ds).deleted_by_receipt_id == ds.last().deleted_by_receipt_id);
        } else {
            lemma_key_marks_untouched(r, ds.drop_last());
        }
    }
}

/// The cascade counterpart of the lemma above.
proof fn lemma_cascade_marks_untouched(r: AccessKeyView, ds: Seq<AccessKeyView>)
    requires
        forall|p: int| 0 <= p < ds.len() ==> (#[trigger] ds[p]).deleted_by_receipt_id is Some,
        cascade_row_marks(r, ds).deleted_by_receipt_id is None,
    ensures
        cascade_row_marks(r, ds) == r,
    decreases ds.len(),
{
    if ds.len() > 0 {
        let x = cascade_row_marks(r, ds.drop_last());
        if x.account_id == ds.last().account_id && x.deleted_by_receipt_id is None {
            assert(cascade_row_marks(r, ds).deleted_by_receipt_id
                == ds.last().deleted_by_receipt_id);
        } else {
            lemma_cascade_marks_untouched(r, ds.drop_last());
        }
    }
}

/// Updates do not change a key row's natural key.
proof fn lemma_key_marks_keep_key(r: AccessKeyView, ds: Seq<AccessKeyView>)
    ensures
        key_row_marks(r, ds).public_key == r.public_key,
        key_row_marks(r, ds).account_id == r.account_id,
        cascade_row_marks(r, ds).public_key == r.public_key,
        cascade_row_marks(r, ds).account_id == r.account_id,
    decreases ds.len(),
{
    if ds.len() > 0 {
        lemma_key_marks_keep_key(r, ds.drop_last());
    }
}

/// Inserting never removes a key, and afterwards every inserted key is
/// present.
proof fn lemma_key_inserts_present(t: Seq<AccessKeyView>, rows: Seq<AccessKeyView>)
    ensures
        forall|pk: Seq<char>, aid: Seq<char>| has_key(t, pk, aid) ==> #[trigger] has_key(
            key_inserts(t, rows),
            pk,
            aid,
        ),
        forall|p: int|
            0 <= p < rows.len() ==> has_key(
                key_inserts(t, rows),
                (#[trigger] rows[p]).public_key,
                rows[p].account_id,
            ),
    decreases rows.len(),
{
    if rows.len() > 0 {
        lemma_key_inserts_present(t, rows.drop_last());
        let s = key_inserts(t, rows.drop_last());
        assert forall|pk: Seq<char>, aid: Seq<char>| has_key(s, pk, aid) implies #[trigger] has_key(
            key_inserts(t, rows),
            pk,
            aid,
        ) by {
            let q = choose|q: int| 0 <= q < s.len() && same_key(s[q], pk, aid);
            assert(same_key(key_inserts(t, rows)[q], pk, aid));
        }
        if has_key(s, rows.last().public_key, rows.last().account_id) {
            assert(has_key(key_inserts(t, rows), rows.last().public_key, rows.last().account_id));
        } else {
            assert(key_inserts(t, rows) == s.push(rows.last()));
            assert(same_key(
                key_inserts(t, rows)[s.len() as int],
                rows.last().public_key,
                rows.last().account_id,
            ));
            assert(has_key(key_inserts(t, rows), rows.last().public_key, rows.last().account_id));
        }
        assert forall|p: int| 0 <= p < rows.len() implies has_key(
            key_inserts(t, rows),
            (#[trigger] rows[p]).public_key,
            rows[p].account_id,
        ) by {
            if p < rows.len() - 1 {
                assert(rows.drop_last()[p] == rows[p]);
                assert(has_key(s, rows[p].public_key, rows[p].account_id));
            } else {
                assert(rows[p] == rows.last());
            }
        }
    }
}

/// Insert-if-absent is a no-op on keys that are already present.
proof fn lemma_key_inserts_noop(t: Seq<AccessKeyView>, rows: Seq<AccessKeyView>)
    requires
        forall|p: int|
            0 <= p < rows.len() ==> has_key(t, (#[trigger] rows[p]).public_key, rows[p].account_id),
    ensures
        key_inserts(t, rows) == t,
    decreases rows.len(),
{
    if rows.len() > 0 {
        lemma_key_inserts_noop(t, rows.drop_last());
    }
}

/// Idempotent replay for access keys: applying one block's three key write
/// sets twice leaves exactly the table that applying them once leaves.
pub proof fn lemma_idempotent_replay_keys(
    t: Seq<AccessKeyView>,
    create: Seq<AccessKeyView>,
    del: Seq<AccessKeyView>,
    cascade: Seq<AccessKeyView>,
)
    requires
        forall|p: int| 0 <= p < del.len() ==> (#[trigger] del[p]).deleted_by_receipt_id is Some,
        forall|p: int|
            0 <= p < cascade.len() ==> (#[trigger] cascade[p]).deleted_by_receipt_id is Some,
    ensures
        key_apply_block(key_apply_block(t, create, del, cascade), create, del, cascade)
            == key_apply_block(t, create, del, cascade),
{
    let s1 = key_inserts(t, create);
    let s2 = key_updates(s1, del);
    let s3 = cascade_updates(s2, cascade);
    lemma_key_inserts_present(t, create);
    assert forall|p: int| 0 <= p < create.len() implies has_key(
        s3,
        (#[trigger] create[p]).public_key,
        create[p].account_id,
    ) by {
        let q = choose|q: int|
            0 <= q < s1.len() && same_key(s1[q], create[p].public_key, create[p].account_id);
        lemma_key_marks_keep_key(s1[q], del);
        lemma_key_marks_keep_key(s2[q], cascade);
        assert(same_key(s3[q], create[p].public_key, create[p].account_id));
    }
    lemma_key_inserts_noop(s3, create);
    assert forall|i: int| 0 <= i < s3.len() implies key_row_marks(#[trigger] s3[i], del) == s3[i]
        && cascade_row_marks(s3[i], cascade) == s3[i] by {
        if s3[i].deleted_by_receipt_id is Some {
            lemma_key_marks_keep_deleted(s3[i], del);
            lemma_key_marks_keep_deleted(s3[i], cascade);
        } else {
            lemma_cascade_marks_untouched(s2[i], cascade);
            assert(s3[i] == s2[i]);
            lemma_key_marks_untouched(s1[i], del);
            assert(s2[i] == s1[i]);
            lemma_cascade_marks_untouched(s2[i], cascade);
        }
    }
    assert(key_updates(s3, del) =~= s3);
    assert(cascade_updates(key_updates(s3, del), cascade) =~= s3);
}

/// Monotonic tombstones for access keys: a stored row whose deletion marker
/// is set is unchanged by the projection of any block, and no row is ever
/// removed.
pub proof fn lemma_monotonic_tombstones_keys(
    t: Seq<AccessKeyView>,
    create: Seq<AccessKeyView>,
    del: Seq<AccessKeyView>,
    cascade: Seq<AccessKeyView>,
    i: int,
)
    requires
        0 <= i < t.len(),
        t[i].deleted_by_receipt_id is Some,
    ensures
        key_apply_block(t, create, del, cascade).len() >= t.len(),
        key_apply_block(t, create, del, cascade)[i] == t[i],
{
    lemma_key_inserts_extend(t, create);
    lemma_key_marks_keep_deleted(t[i], del);
    lemma_key_marks_keep_deleted(t[i], cascade);
}

/// Inserting only appends: existing rows keep their place and value.
proof fn lemma_key_inserts_extend(t: Seq<AccessKeyView>, rows: Seq<AccessKeyView>)
    ensures
        key_inserts(t, rows).len() >= t.len(),
        forall|i: int| 0 <= i < t.len() ==> key_inserts(t, rows)[i] == t[i],
    decreases rows.len(),
{
    if rows.len() > 0 {
        lemma_key_inserts_extend(t, rows.drop_last());
    }
}


fn store_clone_opt_string(o: &Option<String>) -> (r: Option<String>)
    ensures
        r.deep_view() == o.deep_view(),
{
    match o {
        Some(s) => Some(s.clone()),
        None => None,
    }
}

fn table_has_account(table: &Vec<Account>, id: &String) -> (r: bool)
    ensures
        r == has_account_id(table.deep_view(), id@),
{
    let mut i: usize = 0;
    while i < table.len()
        invariant
            i <= table@.len(),
            forall|k: int| 0 <= k < i ==> table.deep_view()[k].account_id != id@,
        decreases table@.len() - i,
    {
        if table[i].account_id == *id {
            proof {
                assert(table.deep_view()[i as int].account_id == id@);
            }
            return true;
        }
        i = i + 1;
    }
    false
}

/// The insert statements of a create set, run against an in-memory table:
/// the executable reference model of the store's conflict-ignoring inserts.
pub fn apply_account_inserts(table: &mut Vec<Account>, create: &Vec<Account>)
    ensures
        final(table).deep_view() == acct_inserts(old(table).deep_view(), create.deep_view()),
{
    let ghost t0 = table.deep_view();
    let ghost cs = create.deep_view();
    let mut i: usize = 0;
    while i < create.len()
        invariant
            i <= create@.len(),
            cs == create.deep_view(),
            cs.len() == create@.len(),
            forall|k: int| 0 <= k < create@.len() ==> create@[k]@ == cs[k],
            table.deep_view() == acct_inserts(t0, cs.take(i as int)),
        decreases create@.len() - i,
    {
        let ghost pre = table.deep_view();
        let row = &create[i];
        if !table_has_account(table, &row.account_id) {
            let copy = Account {
                account_id: row.account_id.clone(),
                created_by_receipt_id: store_clone_opt_string(&row.created_by_receipt_id),
                created_by_block_height: row.created_by_block_height,
                deleted_by_receipt_id: store_clone_opt_string(&row.deleted_by_receipt_id),
                deleted_by_block_height: row.deleted_by_block_height,
            };
            table.push(copy);
            proof {
                assert(table.deep_view() =~= pre.push(cs[i as int]));
            }
        }
        proof {
            assert(cs.take(i + 1).drop_last() =~= cs.take(i as int));
            assert(cs.take(i + 1).last() == cs[i as int]);
            assert(table.deep_view() == acct_inserts(t0, cs.take(i + 1)));
        }
        i = i + 1;
    }
    proof {
        assert(cs.take(cs.len() as int) =~= cs);
    }
}

/// The conditional updates of a delete set, run against an in-memory table:
/// the executable reference model of the store's guarded updates.
pub fn apply_account_deletes(table: &mut Vec<Account>, del: &Vec<Account>)
    ensures
        final(table).deep_view() == acct_updates(old(table).deep_view(), del.deep_view()),
{
    let ghost t0 = table.deep_view();
    let ghost ds = del.deep_view();
    let mut i: usize = 0;
    while i < table.len()
        invariant
            i <= table@.len(),
            ds == del.deep_view(),
            ds.len() == del@.len(),
            forall|k: int| 0 <= k < del@.len() ==> del@[k]@ == ds[k],
            table@.len() == t0.len(),
            forall|k: int| 0 <= k < i ==> table.deep_view()[k] == acct_row_marks(t0[k], ds),
            forall|k: int| i <= k < t0.len() ==> table.deep_view()[k] == t0[k],
        decreases table@.len() - i,
    {
        let mut j: usize = 0;
        while j < del.len()
            invariant
                i < table@.len(),
                j <= del@.len(),
                ds == del.deep_view(),
                ds.len() == del@.len(),
                forall|k: int| 0 <= k < del@.len() ==> del@[k]@ == ds[k],
                table@.len() == t0.len(),
                forall|k: int| 0 <= k < i ==> table.deep_view()[k] == acct_row_marks(t0[k], ds),
                forall|k: int| i < k < t0.len() ==> table.deep_view()[k] == t0[k],
                table.deep_view()[i as int] == acct_row_marks(t0[i as int], ds.take(j as int)),
            decreases del@.len() - j,
        {
            let ghost pre = table.deep_view();
            if table[i].account_id == del[j].account_id
                && table[i].deleted_by_receipt_id.is_none() {
                let marked = Account {
                    account_id: table[i].account_id.clone(),
                    created_by_receipt_id: store_clone_opt_string(&table[i].created_by_receipt_id),
                    created_by_block_height: table[i].created_by_block_height,
                    deleted_by_receipt_id: store_clone_opt_string(&del[j].deleted_by_receipt_id),
                    deleted_by_block_height: del[j].deleted_by_block_height,
                };
                proof {
                    assert(marked@ == acct_mark(pre[i as int], ds[j as int]));
                }
                table[i] = marked;
                proof {
                    assert(table.deep_view() =~= pre.update(
                        i as int,
                        acct_mark(pre[i as int], ds[j as int]),
                    ));
                }
            } else {
                proof {
                    assert(table.deep_view()[i as int] == acct_mark(pre[i as int], ds[j as int]));
                }
            }
            proof {
                assert(ds.take(j + 1).drop_last() =~= ds.take(j as int));
                assert(ds.take(j + 1).last() == ds[j as int]);
                assert(table.deep_view()[i as int] == acct_row_marks(t0[i as int], ds.take(j + 1)));
            }
            j = j + 1;
        }
        proof {
            assert(ds.take(ds.len() as int) =~= ds);
        }
        i = i + 1;
    }
    proof {
        assert(table.deep_view() =~= acct_updates(t0, ds));
    }
}

/// One block's account write sets, run against an in-memory table: the
/// executable reference model of the projection's account writes.
pub fn apply_account_block(table: &mut Vec<Account>, create: &Vec<Account>, del: &Vec<Account>)
    ensures
        final(table).deep_view() == acct_apply_block(
            old(table).deep_view(),
            create.deep_view(),
            del.deep_view(),
        ),
{
    apply_account_inserts(table, create);
    apply_account_deletes(table, del);
}


fn table_has_key(table: &Vec<AccessKey>, pk: &String, aid: &String) -> (r: bool)
    ensures
        r == has_key(table.deep_view(), pk@, aid@),
{
    let mut i: usize = 0;
    while i < table.len()
        invariant
            i <= table@.len(),
            forall|k: int| 0 <= k < i ==> !same_key(table.deep_view()[k], pk@, aid@),
        decreases table@.len() - i,
    {
        if table[i].public_key == *pk && table[i].account_id == *aid {
            proof {
                assert(same_key(table.deep_view()[i as int], pk@, aid@));
            }
            return true;
        }
        i = i + 1;
    }
    false
}

fn store_clone_key(r: &AccessKey) -> (c: AccessKey)
    ensures
        c@ == r@,
{
    AccessKey {
        public_key: r.public_key.clone(),
        account_id: r.account_id.clone(),
        created_by_receipt_id: store_clone_opt_string(&r.created_by_receipt_id),
        deleted_by_receipt_id: store_clone_opt_string(&r.deleted_by_receipt_id),
        permission_kind: r.permission_kind.clone(),
    }
}

/// The insert statements of a key create set, run against an in-memory
/// table.
pub fn apply_key_inserts(table: &mut Vec<AccessKey>, create: &Vec<AccessKey>)
    ensures
        final(table).deep_view() == key_inserts(old(table).deep_view(), create.deep_view()),
{
    let ghost t0 = table.deep_view();
    let ghost cs = create.deep_view();
    let mut i: usize = 0;
    while i < create.len()
        invariant
            i <= create@.len(),
            cs == create.deep_view(),
            cs.len() == create@.len(),
            forall|k: int| 0 <= k < create@.len() ==> create@[k]@ == cs[k],
            table.deep_view() == key_inserts(t0, cs.take(i as int)),
        decreases create@.len() - i,
    {
        let ghost pre = table.deep_view();
        let row = &create[i];
        if !table_has_key(table, &row.public_key, &row.account_id) {
            let copy = store_clone_key(row);
            table.push(copy);
            proof {
                assert(table.deep_view() =~= pre.push(cs[i as int]));
            }
        }
        proof {
            assert(cs.take(i + 1).drop_last() =~= cs.take(i as int));
            assert(cs.take(i + 1).last() == cs[i as int]);
            assert(table.deep_view() == key_inserts(t0, cs.take(i + 1)));
        }
        i = i + 1;
    }
    proof {
        assert(cs.take(cs.len() as int) =~= cs);
    }
}

/// The exact-key conditional updates of a delete set, run against an
/// in-memory table.
pub fn apply_key_deletes(table: &mut Vec<AccessKey>, del: &Vec<AccessKey>)
    ensures
        final(table).deep_view() == key_updates(old(table).deep_view(), del.deep_view()),
{
    let ghost t0 = table.deep_view();
    let ghost ds = del.deep_view();
    let mut i: usize = 0;
    while i < table.len()
        invariant
            i <= table@.len(),
            ds == del.deep_view(),
            ds.len() == del@.len(),
            forall|k: int| 0 <= k < del@.len() ==> del@[k]@ == ds[k],
            table@.len() == t0.len(),
            forall|k: int| 0 <= k < i ==> table.deep_view()[k] == key_row_marks(t0[k], ds),
            forall|k: int| i <= k < t0.len() ==> table.deep_view()[k] == t0[k],
        decreases table@.len() - i,
    {
        let mut j: usize = 0;
        while j < del.len()
            invariant
                i < table@.len(),
                j <= del@.len(),
                ds == del.deep_view(),
                ds.len() == del@.len(),
                forall|k: int| 0 <= k < del@.len() ==> del@[k]@ == ds[k],
                table@.len() == t0.len(),
                forall|k: int| 0 <= k < i ==> table.deep_view()[k] == key_row_marks(t0[k], ds),
                forall|k: int| i < k < t0.len() ==> table.deep_view()[k] == t0[k],
                table.deep_view()[i as int] == key_row_marks(t0[i as int], ds.take(j as int)),
            decreases del@.len() - j,
        {
            let ghost pre = table.deep_view();
            if table[i].public_key == del[j].public_key && table[i].account_id
                == del[j].account_id && table[i].deleted_by_receipt_id.is_none() {
                let marked = AccessKey {
                    public_key: table[i].public_key.clone(),
                    account_id: table[i].account_id.clone(),
                    created_by_receipt_id: store_clone_opt_string(&table[i].created_by_receipt_id),
                    deleted_by_receipt_id: store_clone_opt_string(&del[j].deleted_by_receipt_id),
                    permission_kind: table[i].permission_kind.clone(),
                };
                proof {
                    assert(marked@ == key_mark(pre[i as int], ds[j as int]));
                }
                table[i] = marked;
                proof {
                    assert(table.deep_view() =~= pre.update(
                        i as int,
                        key_mark(pre[i as int], ds[j as int]),
                    ));
                }
            } else {
                proof {
                    assert(table.deep_view()[i as int] == key_mark(pre[i as int], ds[j as int]));
                }
            }
            proof {
                assert(ds.take(j + 1).drop_last() =~= ds.take(j as int));
                assert(ds.take(j + 1).last() == ds[j as int]);
                assert(table.deep_view()[i as int] == key_row_marks(t0[i as int], ds.take(j + 1)));
            }
            j = j + 1;
        }
        proof {
            assert(ds.take(ds.len() as int) =~= ds);
        }
        i = i + 1;
    }
    proof {
        assert(table.deep_view() =~= key_updates(t0, ds));
    }
}

/// The cascade conditional updates of a cascade-delete set, run against an
/// in-memory table.
pub fn apply_key_cascades(table: &mut Vec<AccessKey>, cascade: &Vec<AccessKey>)
    ensures
        final(table).deep_view() == cascade_updates(old(table).deep_view(), cascade.deep_view()),
{
    let ghost t0 = table.deep_view();
    let ghost ds = cascade.deep_view();
    let mut i: usize = 0;
    while i < table.len()
        invariant
            i <= table@.len(),
            ds == cascade.deep_view(),
            ds.len() == cascade@.len(),
            forall|k: int| 0 <= k < cascade@.len() ==> cascade@[k]@ == ds[k],
            table@.len() == t0.len(),
            forall|k: int| 0 <= k < i ==> table.deep_view()[k] == cascade_row_marks(t0[k], ds),
            forall|k: int| i <= k < t0.len() ==> table.deep_view()[k] == t0[k],
        decreases table@.len() - i,
    {
        let mut j: usize = 0;
        while j < cascade.len()
            invariant
                i < table@.len(),
                j <= cascade@.len(),
                ds == cascade.deep_view(),
                ds.len() == cascade@.len(),
                forall|k: int| 0 <= k < cascade@.len() ==> cascade@[k]@ == ds[k],
                table@.len() == t0.len(),
                forall|k: int| 0 <= k < i ==> table.deep_view()[k] == cascade_row_marks(t0[k], ds),
                forall|k: int| i < k < t0.len() ==> table.deep_view()[k] == t0[k],
                table.deep_view()[i as int] == cascade_row_marks(t0[i as int], ds.take(j as int)),
            decreases cascade@.len() - j,
        {
            let ghost pre = table.deep_view();
            if table[i].account_id == cascade[j].account_id
                && table[i].deleted_by_receipt_id.is_none() {
                let marked = AccessKey {
                    public_key: table[i].public_key.clone(),
                    account_id: table[i].account_id.clone(),
                    created_by_receipt_id: store_clone_opt_string(&table[i].created_by_receipt_id),
                    deleted_by_receipt_id: store_clone_opt_string(
                        &cascade[j].deleted_by_receipt_id,
                    ),
                    permission_kind: table[i].permission_kind.clone(),
                };
                proof {
                    assert(marked@ == cascade_mark(pre[i as int], ds[j as int]));
                }
                table[i] = marked;
                proof {
                    assert(table.deep_view() =~= pre.update(
                        i as int,
                        cascade_mark(pre[i as int], ds[j as int]),
                    ));
                }
            } else {
                proof {
                    assert(table.deep_view()[i as int] == cascade_mark(
                        pre[i as int],
                        ds[j as int],
                    ));
                }
            }
            proof {
                assert(ds.take(j + 1).drop_last() =~= ds.take(j as int));
                assert(ds.take(j + 1).last() == ds[j as int]);
                assert(table.deep_view()[i as int] == cascade_row_marks(
                    t0[i as int],
                    ds.take(j + 1),
                ));
            }
            j = j + 1;
        }
        proof {
            assert(ds.take(ds.len() as int) =~= ds);
        }
        i = i + 1;
    }
    proof {
        assert(table.deep_view() =~= cascade_updates(t0, ds));
    }
}

/// One block's key write sets, run against an in-memory table: the executable
/// reference model of the projection's key writes.
pub fn apply_key_block(
    table: &mut Vec<AccessKey>,
    create: &Vec<AccessKey>,
    del: &Vec<AccessKey>,
    cascade: &Vec<AccessKey>,
)
    ensures
        final(table).deep_view() == key_apply_block(
            old(table).deep_view(),
            create.deep_view(),
            del.deep_view(),
            cascade.deep_view(),
        ),
{
    apply_key_inserts(table, create);
    apply_key_deletes(table, del);
    apply_key_cascades(table, cascade);
}


} // verus!
