//! The retryable writer's decisions: how rows are grouped into statements,
//! when a failed statement group is retried and when the failure is fatal,
//! and the exact text of the statements. Executing a statement suspends on
//! the store and lives outside the library; everything decided here is
//! verified.
use vstd::prelude::*;

verus! {

/// Number of rows placed in one insert statement group.
pub const CHUNK_SIZE: usize = 10;

/// Largest number of attempts made for one statement group before the
/// failure is treated as fatal.
pub const RETRY_BOUND: u64 = 10;

/// The store's answer to one statement group.
pub enum WriteOutcome {
    Succeeded,
    /// A transient failure: connection loss, timeout, deadlock.
    TransientFailure,
}

/// What the writer does next with a statement group.
pub enum RetryDecision {
    /// The group is durably applied.
    Done,
    /// Try the same group again.
    Retry,
    /// The retry bound is exhausted: the process must stop rather than lose a
    /// lifecycle event.
    Fatal,
}

/// Decides the writer's next step after `attempts_made` attempts of one
/// statement group ended with `outcome`.
pub fn decide_after_attempt(attempts_made: u64, outcome: &WriteOutcome) -> (r: RetryDecision)
    requires
        attempts_made >= 1,
    ensures
        r is Done <==> outcome is Succeeded,
        r is Retry <==> outcome is TransientFailure && attempts_made < RETRY_BOUND,
        r is Fatal <==> outcome is TransientFailure && attempts_made >= RETRY_BOUND,
{
    match outcome {
        WriteOutcome::Succeeded => RetryDecision::Done,
        WriteOutcome::TransientFailure => {
            if attempts_made < RETRY_BOUND {
                RetryDecision::Retry
            } else {
                RetryDecision::Fatal
            }
        },
    }
}

/// Partitions `len` rows into consecutive groups of at most `size` rows:
/// every group but the last is full, the groups cover the rows exactly and in
/// order, and no group is empty.
pub fn chunk_ranges(len: usize, size: usize) -> (r: Vec<(usize, usize)>)
    requires
        size > 0,
    ensures
        r@.len() == 0 <==> len == 0,
        forall|i: int|
            0 <= i < r@.len() ==> (#[trigger] r@[i]).0 < r@[i].1 <= len && r@[i].1 - r@[i].0
                <= size,
        forall|i: int|
            0 <= i < r@.len() - 1 ==> (#[trigger] r@[i]).1 == r@[i + 1].0 && r@[i].1 - r@[i].0
                == size,
        r@.len() > 0 ==> r@[0].0 == 0 && r@[r@.len() - 1].1 == len,
{
    let mut r: Vec<(usize, usize)> = Vec::new();
    let mut start: usize = 0;
    while start < len
        invariant
            size > 0,
            start <= len,
            r@.len() == 0 <==> start == 0,
            forall|i: int|
                0 <= i < r@.len() ==> (#[trigger] r@[i]).0 < r@[i].1 <= len && r@[i].1 - r@[i].0
                    <= size,
            forall|i: int| 0 <= i < r@.len() ==> (#[trigger] r@[i]).1 == len || r@[i].1 - r@[i].0 == size,
            forall|i: int| 0 <= i < r@.len() - 1 ==> (#[trigger] r@[i]).1 == r@[i + 1].0,
            r@.len() > 0 ==> r@[0].0 == 0 && r@[r@.len() - 1].1 == start,
        decreases len - start,
    {
        let end = if len - start < size {
            len
        } else {
            start + size
        };
        r.push((start, end));
        start = end;
    }
    proof {
        assert forall|i: int|
            0 <= i < r@.len() - 1 implies (#[trigger] r@[i]).1 == r@[i + 1].0 && r@[i].1 - r@[i].0
            == size by {
            assert(r@[i].1 == r@[i + 1].0);
            assert(r@[i + 1].0 < r@[i + 1].1 <= len);
        }
    }
    r
}

/// The character of one decimal digit.
pub open spec fn digit_char(d: int) -> char {
    if d == 0 {
        '0'
    } else if d == 1 {
        '1'
    } else if d == 2 {
        '2'
    } else if d == 3 {
        '3'
    } else if d == 4 {
        '4'
    } else if d == 5 {
        '5'
    } else if d == 6 {
        '6'
    } else if d == 7 {
        '7'
    } else if d == 8 {
        '8'
    } else {
        '9'
    }
}

/// The decimal rendering of a nonnegative number, most significant digit
/// first.
pub open spec fn spec_dec(n: int) -> Seq<char>
    decreases n,
{
    if n < 10 {
        seq![digit_char(n)]
    } else {
        spec_dec(n / 10).push(digit_char(n % 10))
    }
}

fn digit_str(d: u64) -> (r: &'static str)
    requires
        d < 10,
    ensures
        r@ == seq![digit_char(d as int)],
{
    let r = match d {
        0 => "0",
        1 => "1",
        2 => "2",
        3 => "3",
        4 => "4",
        5 => "5",
        6 => "6",
        7 => "7",
        8 => "8",
        _ => "9",
    };
    proof {
        reveal_strlit("0");
        reveal_strlit("1");
        reveal_strlit("2");
        reveal_strlit("3");
        reveal_strlit("4");
        reveal_strlit("5");
        reveal_strlit("6");
        reveal_strlit("7");
        reveal_strlit("8");
        reveal_strlit("9");
        assert(r@ =~= seq![digit_char(d as int)]);
    }
    r
}

/// Appends the decimal rendering of `n`.
fn push_dec(s: &mut String, n: u64)
    ensures
        final(s)@ == old(s)@ + spec_dec(n as int),
    decreases n,
{
    if n >= 10 {
        push_dec(s, n / 10);
    }
    let ghost mid = s@;
    s.append(digit_str(n % 10));
    proof {
        if n < 10 {
            assert(final(s)@ =~= old(s)@ + spec_dec(n as int));
        } else {
            assert(mid == old(s)@ + spec_dec(n as int / 10));
            assert(final(s)@ =~= old(s)@ + spec_dec(n as int));
        }
    }
}

/// The placeholder list of one row group: `$start` up to
/// `$(start + count - 1)`, comma-separated.
pub open spec fn spec_fields(start: int, count: int) -> Seq<char>
    decreases count,
{
    if count <= 0 {
        Seq::<char>::empty()
    } else if count == 1 {
        seq!['$'] + spec_dec(start)
    } else {
        spec_fields(start, count - 1) + seq![',', ' ', '$'] + spec_dec(start + count - 1)
    }
}

/// One parenthesized placeholder group.
pub open spec fn spec_group(start: int, fields: int) -> Seq<char> {
    seq!['('] + spec_fields(start, fields) + seq![')']
}

/// The placeholder groups of `items` rows of `fields` columns each, numbered
/// consecutively from `$1`.
pub open spec fn spec_placeholders(items: int, fields: int) -> Seq<char>
    decreases items,
{
    if items <= 0 {
        Seq::<char>::empty()
    } else if items == 1 {
        spec_group(1, fields)
    } else {
        spec_placeholders(items - 1, fields) + seq![',', ' '] + spec_group(
            (items - 1) * fields + 1,
            fields,
        )
    }
}

fn push_group(s: &mut String, start: u64, fields: u64)
    requires
        fields >= 1,
        start + fields <= u64::MAX,
    ensures
        final(s)@ == old(s)@ + spec_group(start as int, fields as int),
{
    s.append("(");
    let ghost base = s@;
    proof {
        reveal_strlit("(");
        assert(base == old(s)@ + seq!['(']) by {
            assert(base =~= old(s)@ + seq!['(']);
        }
        assert(s@ == base + spec_fields(start as int, 0)) by {
            assert(s@ =~= base + spec_fields(start as int, 0));
        }
    }
    let mut j: u64 = 0;
    while j < fields
        invariant
            j <= fields,
            start + fields <= u64::MAX,
            fields >= 1,
            base == old(s)@ + seq!['('],
            s@ == base + spec_fields(start as int, j as int),
        decreases fields - j,
    {
        if j > 0 {
            s.append(", ");
        }
        s.append("$");
        push_dec(s, start + j);
        proof {
            reveal_strlit(", ");
            reveal_strlit("$");
            if j == 0 {
                assert(s@ =~= base + (seq!['$'] + spec_dec(start as int)));
            } else {
                assert(s@ =~= base + (spec_fields(start as int, j as int) + seq![',', ' ', '$']
                    + spec_dec(start as int + j as int)));
                assert(spec_fields(start as int, j as int + 1) == spec_fields(
                    start as int,
                    j as int,
                ) + seq![',', ' ', '$'] + spec_dec(start as int + j as int));
            }
            assert(s@ == base + spec_fields(start as int, j as int + 1));
        }
        j = j + 1;
    }
    s.append(")");
    proof {
        reveal_strlit(")");
        assert(final(s)@ =~= old(s)@ + spec_group(start as int, fields as int));
    }
}

/// Appends the placeholder groups for `items` rows of `fields` columns.
fn push_placeholders(s: &mut String, items: u64, fields: u64)
    requires
        items >= 1,
        fields >= 1,
        items * fields + 1 <= u64::MAX,
    ensures
        final(s)@ == old(s)@ + spec_placeholders(items as int, fields as int),
{
    proof {
        assert(s@ == old(s)@ + spec_placeholders(0, fields as int)) by {
            assert(s@ =~= old(s)@ + spec_placeholders(0, fields as int));
        }
    }
    let mut i: u64 = 0;
    while i < items
        invariant
            i <= items,
            items >= 1,
            fields >= 1,
            items * fields + 1 <= u64::MAX,
            s@ == old(s)@ + spec_placeholders(i as int, fields as int),
        decreases items - i,
    {
        if i > 0 {
            s.append(", ");
        }
        proof {
            assert((i as int) * (fields as int) + fields as int + 1 <= (items as int) * (
            fields as int) + 1) by (nonlinear_arith)
                requires
                    i as int <= items as int - 1,
                    fields as int >= 1,
            ;
            assert(i * fields + 1 >= 1);
        }
        push_group(s, i * fields + 1, fields);
        proof {
            reveal_strlit(", ");
            if i == 0 {
                assert(i * fields + 1 == 1) by (nonlinear_arith)
                    requires
                        i == 0,
                ;
                assert(spec_placeholders(1, fields as int) == spec_group(1, fields as int));
                assert(s@ =~= old(s)@ + spec_placeholders(1, fields as int));
            } else {
                assert(s@ =~= old(s)@ + (spec_placeholders(i as int, fields as int) + seq![
                    ',',
                    ' ',
                ] + spec_group((i as int) * (fields as int) + 1, fields as int)));
                assert(spec_placeholders(i as int + 1, fields as int) == spec_placeholders(
                    i as int,
                    fields as int,
                ) + seq![',', ' '] + spec_group((i as int) * (fields as int) + 1, fields as int));
            }
            assert(s@ == old(s)@ + spec_placeholders(i as int + 1, fields as int));
        }
        i = i + 1;
    }
}

/// The insert-if-absent statement for `items` rows of `fields` columns in the
/// named table.
pub open spec fn spec_insert_query(table: Seq<char>, items: int, fields: int) -> Seq<char> {
    "INSERT INTO "@ + table + " VALUES "@ + spec_placeholders(items, fields)
        + " ON CONFLICT DO NOTHING"@
}

/// Builds the insert-if-absent statement; an empty row group has no
/// statement.
pub fn insert_query_for(table: &str, items_count: usize, field_count: usize) -> (r: Option<String>)
    requires
        field_count >= 1,
        items_count as int * field_count as int + 1 <= u64::MAX,
    ensures
        r is Some <==> items_count >= 1,
        r is Some ==> r->Some_0@ == spec_insert_query(
            table@,
            items_count as int,
            field_count as int,
        ),
{
    if items_count == 0 {
        return None;
    }
    let mut s = String::from_str("INSERT INTO ");
    s.append(table);
    s.append(" VALUES ");
    let ghost mid = s@;
    push_placeholders(&mut s, items_count as u64, field_count as u64);
    s.append(" ON CONFLICT DO NOTHING");
    proof {
        assert(s@ =~= spec_insert_query(table@, items_count as int, field_count as int));
    }
    Some(s)
}

} // verus!
