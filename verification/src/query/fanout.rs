//! Why a fan-out gives the answer of one database: what a shard may leave out, and how its part of
//! an aggregate adds up.

use vstd::prelude::*;

use super::laws::{
    consistent, drawn_from, exact, in_order, law_value_order_flips,
    law_value_order_transitive, lemma_copies_add, lemma_copies_alike, lemma_sorted_within,
    lemma_transitive_in, sameness,
};
use super::merge::{
    all_integers, CellModel, combined, copies, finalized, gathered, insert_sorted, integer_sum,
    Keep, kept, largest, limited, present, Row, skipped, smallest, sorted_rows,
};
use super::order::{row_order, same_row, value_order};
use super::plan::{Combine, SortKey};

use crate::storage::doubles::Order;
use crate::storage::exec::{Datum, Table};

verus! {

// ---- the first rows of each shard --------------------------------------------------------------

/// The first `k` rows, or all of them.
pub open spec fn top(rows: Seq<Row>, k: nat) -> Seq<Row> {
    if rows.len() <= k {
        rows
    } else {
        rows.take(k as int)
    }
}

/// Where a row goes among sorted ones.
spec fn slot(rows: Seq<Row>, row: Row, keys: Seq<SortKey>) -> int
    decreases rows.len(),
{
    if rows.len() > 0 && row_order(rows.last(), row, keys, 0) == Order::Greater {
        slot(rows.drop_last(), row, keys)
    } else {
        rows.len() as int
    }
}

proof fn lemma_slot(rows: Seq<Row>, row: Row, keys: Seq<SortKey>)
    ensures
        ({
            let p = slot(rows, row, keys);
            &&& 0 <= p <= rows.len()
            &&& insert_sorted(rows, row, keys) == rows.take(p).push(row) + rows.skip(p)
            &&& forall|i: int|
                p <= i < rows.len() ==> row_order(#[trigger] rows[i], row, keys, 0)
                    == Order::Greater
            &&& p > 0 ==> row_order(rows[p - 1], row, keys, 0) != Order::Greater
        }),
    decreases rows.len(),
{
    let p = slot(rows, row, keys);
    if rows.len() > 0 && row_order(rows.last(), row, keys, 0) == Order::Greater {
        let rest = rows.drop_last();
        lemma_slot(rest, row, keys);
        assert(insert_sorted(rows, row, keys) =~= rows.take(p).push(row) + rows.skip(p));
        assert forall|i: int| p <= i < rows.len() implies row_order(
            #[trigger] rows[i],
            row,
            keys,
            0,
        ) == Order::Greater by {
            if i < rest.len() {
                assert(rest[i] == rows[i]);
            }
        }
        if p > 0 {
            assert(rest[p - 1] == rows[p - 1]);
        }
    } else {
        assert(insert_sorted(rows, row, keys) =~= rows.take(p).push(row) + rows.skip(p));
    }
}

/// A row's place among the first rows is its place among all of them, where that is one of the
/// first.
proof fn lemma_slot_in_top(rows: Seq<Row>, row: Row, keys: Seq<SortKey>, k: nat, all: Seq<Row>)
    requires
        in_order(rows, keys),
        drawn_from(rows, all),
        all.contains(row),
        consistent(all, keys),
    ensures
        slot(top(rows, k), row, keys) == (if slot(rows, row, keys) <= k {
            slot(rows, row, keys)
        } else {
            top(rows, k).len() as int
        }),
{
    let p = slot(rows, row, keys);
    let few = top(rows, k);
    let q = slot(few, row, keys);
    lemma_slot(rows, row, keys);
    lemma_slot(few, row, keys);
    assert forall|i: int| 0 <= i < few.len() implies few[i] == rows[i] by {}
    if p <= k {
        if q > p {
            assert(few[q - 1] == rows[q - 1]);
        } else if q < p {
            assert(few[q] == rows[q]);
            if q < p - 1 {
                assert(all.contains(rows[q]) && all.contains(rows[p - 1]));
                lemma_transitive_in(all, keys, rows[q], rows[p - 1], row);
            }
        }
    } else {
        if q < few.len() {
            assert(few[q] == rows[q]);
            if q < p - 1 {
                assert(all.contains(rows[q]) && all.contains(rows[p - 1]));
                lemma_transitive_in(all, keys, rows[q], rows[p - 1], row);
            }
        }
    }
}

/// The first rows after one more came in depend on the first rows before alone.
proof fn lemma_top_of_insert(rows: Seq<Row>, row: Row, keys: Seq<SortKey>, k: nat, all: Seq<Row>)
    requires
        in_order(rows, keys),
        drawn_from(rows, all),
        all.contains(row),
        consistent(all, keys),
    ensures
        top(insert_sorted(rows, row, keys), k) == top(insert_sorted(top(rows, k), row, keys), k),
{
    let few = top(rows, k);
    lemma_slot(rows, row, keys);
    lemma_slot(few, row, keys);
    lemma_slot_in_top(rows, row, keys, k, all);
    assert(top(insert_sorted(rows, row, keys), k) =~= top(insert_sorted(few, row, keys), k));
}

/// How many rows come no later than a row.
spec fn no_later(rows: Seq<Row>, row: Row, keys: Seq<SortKey>) -> nat
    decreases rows.len(),
{
    if rows.len() == 0 {
        0
    } else {
        no_later(rows.drop_last(), row, keys) + (if row_order(rows.last(), row, keys, 0)
            != Order::Greater {
            1nat
        } else {
            0nat
        })
    }
}

proof fn lemma_no_later_adds(a: Seq<Row>, b: Seq<Row>, row: Row, keys: Seq<SortKey>)
    ensures
        no_later(a + b, row, keys) == no_later(a, row, keys) + no_later(b, row, keys),
    decreases b.len(),
{
    if b.len() == 0 {
        assert(a + b =~= a);
    } else {
        lemma_no_later_adds(a, b.drop_last(), row, keys);
        assert((a + b).drop_last() =~= a + b.drop_last());
    }
}

proof fn lemma_no_later_bound(rows: Seq<Row>, row: Row, keys: Seq<SortKey>)
    ensures
        no_later(rows, row, keys) <= rows.len(),
    decreases rows.len(),
{
    if rows.len() > 0 {
        lemma_no_later_bound(rows.drop_last(), row, keys);
    }
}

proof fn lemma_none_later(rows: Seq<Row>, row: Row, keys: Seq<SortKey>)
    requires
        forall|i: int|
            0 <= i < rows.len() ==> row_order(#[trigger] rows[i], row, keys, 0) == Order::Greater,
    ensures
        no_later(rows, row, keys) == 0,
    decreases rows.len(),
{
    if rows.len() > 0 {
        let rest = rows.drop_last();
        assert forall|i: int| 0 <= i < rest.len() implies row_order(
            #[trigger] rest[i],
            row,
            keys,
            0,
        ) == Order::Greater by {
            assert(rest[i] == rows[i]);
        }
        lemma_none_later(rest, row, keys);
        assert(row_order(rows[rows.len() - 1], row, keys, 0) == Order::Greater);
    }
}

proof fn lemma_all_no_later(rows: Seq<Row>, row: Row, keys: Seq<SortKey>)
    requires
        forall|i: int|
            0 <= i < rows.len() ==> row_order(#[trigger] rows[i], row, keys, 0) != Order::Greater,
    ensures
        no_later(rows, row, keys) == rows.len(),
    decreases rows.len(),
{
    if rows.len() > 0 {
        let rest = rows.drop_last();
        assert forall|i: int| 0 <= i < rest.len() implies row_order(
            #[trigger] rest[i],
            row,
            keys,
            0,
        ) != Order::Greater by {
            assert(rest[i] == rows[i]);
        }
        lemma_all_no_later(rest, row, keys);
        assert(row_order(rows[rows.len() - 1], row, keys, 0) != Order::Greater);
    }
}

/// A row goes no earlier than after as many rows as come no later than it.
proof fn lemma_slot_after(rows: Seq<Row>, row: Row, keys: Seq<SortKey>)
    ensures
        slot(rows, row, keys) >= no_later(rows, row, keys),
{
    lemma_slot(rows, row, keys);
    let p = slot(rows, row, keys);
    let (a, b) = (rows.take(p), rows.skip(p));
    assert(rows =~= a + b);
    lemma_no_later_adds(a, b, row, keys);
    lemma_no_later_bound(a, row, keys);
    assert forall|i: int| 0 <= i < b.len() implies row_order(#[trigger] b[i], row, keys, 0)
        == Order::Greater by {
        assert(b[i] == rows[i + p]);
    }
    lemma_none_later(b, row, keys);
}

proof fn lemma_sorting_counts(rows: Seq<Row>, row: Row, keys: Seq<SortKey>)
    ensures
        no_later(sorted_rows(rows, keys), row, keys) == no_later(rows, row, keys),
    decreases rows.len(),
{
    if rows.len() > 0 {
        let before = sorted_rows(rows.drop_last(), keys);
        lemma_sorting_counts(rows.drop_last(), row, keys);
        lemma_slot(before, rows.last(), keys);
        let p = slot(before, rows.last(), keys);
        let (a, b) = (before.take(p), before.skip(p));
        assert(before =~= a + b);
        lemma_no_later_adds(a, b, row, keys);
        lemma_no_later_adds(a.push(rows.last()), b, row, keys);
        assert(a.push(rows.last()).drop_last() =~= a);
    }
}

proof fn lemma_part_drawn(a: Seq<Row>, b: Seq<Row>, all: Seq<Row>)
    requires
        drawn_from(a + b, all),
    ensures
        drawn_from(a, all),
        drawn_from(b, all),
{
    assert forall|i: int| 0 <= i < a.len() implies all.contains(#[trigger] a[i]) by {
        assert((a + b)[i] == a[i]);
    }
    assert forall|i: int| 0 <= i < b.len() implies all.contains(#[trigger] b[i]) by {
        assert((a + b)[a.len() + i] == b[i]);
    }
}

/// A shard's row that comes after `k` others of it changes nothing about the first `k`.
proof fn lemma_row_beyond(a: Seq<Row>, part: Seq<Row>, keys: Seq<SortKey>, k: nat)
    requires
        in_order(part, keys),
        part.len() > k,
    ensures
        top(sorted_rows(a + part, keys), k) == top(sorted_rows(a + part.drop_last(), keys), k),
{
    let rest = part.drop_last();
    let row = part.last();
    let before = sorted_rows(a + rest, keys);
    assert((a + part).drop_last() =~= a + rest);
    assert forall|i: int| 0 <= i < rest.len() implies row_order(#[trigger] rest[i], row, keys, 0)
        != Order::Greater by {
        assert(rest[i] == part[i]);
        assert(row_order(part[i], part[part.len() - 1], keys, 0) != Order::Greater);
    }
    lemma_all_no_later(rest, row, keys);
    lemma_no_later_adds(a, rest, row, keys);
    lemma_sorting_counts(a + rest, row, keys);
    lemma_slot_after(before, row, keys);
    lemma_late_insert(before, row, keys, k);
}

proof fn lemma_late_insert(rows: Seq<Row>, row: Row, keys: Seq<SortKey>, k: nat)
    requires
        slot(rows, row, keys) >= k,
    ensures
        top(insert_sorted(rows, row, keys), k) == top(rows, k),
{
    lemma_slot(rows, row, keys);
    let p = slot(rows, row, keys);
    let out = rows.take(p).push(row) + rows.skip(p);
    assert(top(out, k) =~= rows.take(k as int));
    assert(top(rows, k) =~= rows.take(k as int));
}

/// Where the first rows of two lists are the same, they stay so when one more row comes in.
proof fn lemma_row_within(
    a: Seq<Row>,
    b: Seq<Row>,
    row: Row,
    keys: Seq<SortKey>,
    k: nat,
    all: Seq<Row>,
)
    requires
        consistent(all, keys),
        drawn_from(a, all),
        drawn_from(b, all),
        all.contains(row),
        top(sorted_rows(a, keys), k) == top(sorted_rows(b, keys), k),
    ensures
        top(sorted_rows(a.push(row), keys), k) == top(sorted_rows(b.push(row), keys), k),
{
    assert(a.push(row).drop_last() =~= a);
    assert(b.push(row).drop_last() =~= b);
    lemma_sorted_within(a, keys, all);
    lemma_sorted_within(b, keys, all);
    lemma_top_of_insert(sorted_rows(a, keys), row, keys, k, all);
    lemma_top_of_insert(sorted_rows(b, keys), row, keys, k, all);
}

proof fn lemma_drawn_joins(a: Seq<Row>, b: Seq<Row>, all: Seq<Row>)
    requires
        drawn_from(a, all),
        drawn_from(b, all),
    ensures
        drawn_from(a + b, all),
{
    assert forall|i: int| 0 <= i < (a + b).len() implies all.contains(#[trigger] (a + b)[i]) by {
        if i < a.len() {
            assert((a + b)[i] == a[i]);
        } else {
            assert((a + b)[i] == b[i - a.len()]);
        }
    }
}

/// One more shard: of its rows, which are in order, the first `k` decide.
proof fn lemma_one_shard(
    a: Seq<Row>,
    b: Seq<Row>,
    part: Seq<Row>,
    keys: Seq<SortKey>,
    k: nat,
    all: Seq<Row>,
)
    requires
        consistent(all, keys),
        drawn_from(a + part, all),
        drawn_from(b, all),
        in_order(part, keys),
        top(sorted_rows(a, keys), k) == top(sorted_rows(b, keys), k),
    ensures
        top(sorted_rows(a + part, keys), k) == top(sorted_rows(b + top(part, k), keys), k),
        drawn_from(b + top(part, k), all),
    decreases part.len(),
{
    lemma_part_drawn(a, part, all);
    let few = top(part, k);
    assert forall|i: int| 0 <= i < few.len() implies all.contains(#[trigger] few[i]) by {
        assert(few[i] == part[i]);
    }
    lemma_drawn_joins(b, few, all);
    if part.len() == 0 {
        assert(a + part =~= a);
        assert(b + few =~= b);
    } else {
        let rest = part.drop_last();
        let row = part.last();
        assert(all.contains(part[part.len() - 1]));
        assert(rest.push(row) =~= part);
        lemma_rest(part, keys, all);
        lemma_drawn_joins(a, rest, all);
        lemma_one_shard(a, b, rest, keys, k, all);
        if part.len() <= k {
            assert(a + part =~= (a + rest).push(row));
            assert(b + few =~= (b + top(rest, k)).push(row));
            lemma_row_within(a + rest, b + top(rest, k), row, keys, k, all);
        } else {
            assert(top(rest, k) =~= few);
            lemma_row_beyond(a, part, keys, k);
        }
    }
}

proof fn lemma_rest(part: Seq<Row>, keys: Seq<SortKey>, all: Seq<Row>)
    requires
        part.len() > 0,
        in_order(part, keys),
        drawn_from(part, all),
    ensures
        in_order(part.drop_last(), keys),
        drawn_from(part.drop_last(), all),
{
    let rest = part.drop_last();
    assert forall|i: int, j: int| 0 <= i < j < rest.len() implies row_order(
        #[trigger] rest[i],
        #[trigger] rest[j],
        keys,
        0,
    ) != Order::Greater by {
        assert(rest[i] == part[i] && rest[j] == part[j]);
    }
    assert forall|i: int| 0 <= i < rest.len() implies all.contains(#[trigger] rest[i]) by {
        assert(rest[i] == part[i]);
    }
}

/// Whether each shard sent the first `k` of its rows.
pub open spec fn tops_of(parts: Seq<Table>, tops: Seq<Table>, k: nat) -> bool {
    tops.len() == parts.len() && forall|i: int|
        0 <= i < parts.len() ==> (#[trigger] tops[i]).rows == top(parts[i].rows, k)
}

proof fn lemma_gathered_drawn(parts: Seq<Table>, n: int, all: Seq<Row>)
    requires
        drawn_from(gathered(parts), all),
        0 <= n < parts.len(),
    ensures
        drawn_from(parts[n].rows, all),
    decreases parts.len(),
{
    lemma_part_drawn(gathered(parts.drop_last()), parts.last().rows, all);
    if n < parts.len() - 1 {
        assert(parts.drop_last()[n] == parts[n]);
        lemma_gathered_drawn(parts.drop_last(), n, all);
    }
}

proof fn lemma_tops(parts: Seq<Table>, tops: Seq<Table>, keys: Seq<SortKey>, k: nat, all: Seq<Row>)
    requires
        consistent(all, keys),
        drawn_from(gathered(parts), all),
        tops_of(parts, tops, k),
        forall|i: int| 0 <= i < parts.len() ==> in_order((#[trigger] parts[i]).rows, keys),
    ensures
        top(sorted_rows(gathered(parts), keys), k) == top(sorted_rows(gathered(tops), keys), k),
        drawn_from(gathered(tops), all),
    decreases parts.len(),
{
    if parts.len() > 0 {
        let (p, t) = (parts.drop_last(), tops.drop_last());
        lemma_part_drawn(gathered(p), parts.last().rows, all);
        assert forall|i: int| 0 <= i < p.len() implies (#[trigger] t[i]).rows == top(
            p[i].rows,
            k,
        ) by {
            assert(t[i] == tops[i] && p[i] == parts[i]);
        }
        assert forall|i: int| 0 <= i < p.len() implies in_order((#[trigger] p[i]).rows, keys) by {
            assert(p[i] == parts[i]);
        }
        lemma_tops(p, t, keys, k, all);
        assert(in_order(parts[parts.len() - 1].rows, keys));
        assert(tops[parts.len() - 1].rows == top(parts[parts.len() - 1].rows, k));
        lemma_one_shard(gathered(p), gathered(t), parts.last().rows, keys, k, all);
    }
}

/// An ordered query with a limit needs of each shard no more than its first rows, as many as the
/// limit: the first rows overall are among them.
pub proof fn law_first_rows_of_each_shard_suffice(
    parts: Seq<Table>,
    tops: Seq<Table>,
    keys: Seq<SortKey>,
    limit: usize,
)
    requires
        consistent(gathered(parts), keys),
        forall|i: int| 0 <= i < parts.len() ==> in_order((#[trigger] parts[i]).rows, keys),
        tops_of(parts, tops, limit as nat),
    ensures
        limited(sorted_rows(gathered(tops), keys), Some(limit)) == limited(
            sorted_rows(gathered(parts), keys),
            Some(limit),
        ),
{
    let all = gathered(parts);
    assert forall|i: int| 0 <= i < all.len() implies all.contains(#[trigger] all[i]) by {}
    lemma_tops(parts, tops, keys, limit as nat, all);
    assert(limited(sorted_rows(gathered(tops), keys), Some(limit)) =~= top(
        sorted_rows(gathered(tops), keys),
        limit as nat,
    ));
    assert(limited(sorted_rows(all, keys), Some(limit)) =~= top(
        sorted_rows(all, keys),
        limit as nat,
    ));
}

/// With an offset, each shard's first `offset + limit` rows suffice.
pub proof fn law_offset_needs_that_many_more(
    parts: Seq<Table>,
    tops: Seq<Table>,
    keys: Seq<SortKey>,
    offset: usize,
    limit: usize,
)
    requires
        keys.len() > 0,
        consistent(gathered(parts), keys),
        forall|i: int| 0 <= i < parts.len() ==> in_order((#[trigger] parts[i]).rows, keys),
        tops_of(parts, tops, (offset + limit) as nat),
    ensures
        finalized(gathered(tops), keys, offset, Some(limit)) == finalized(
            gathered(parts),
            keys,
            offset,
            Some(limit),
        ),
{
    let all = gathered(parts);
    let k = (offset + limit) as nat;
    assert forall|i: int| 0 <= i < all.len() implies all.contains(#[trigger] all[i]) by {}
    lemma_tops(parts, tops, keys, k, all);
    let (x, y) = (sorted_rows(gathered(tops), keys), sorted_rows(all, keys));
    lemma_top_decides(x, offset, limit);
    lemma_top_decides(y, offset, limit);
}

proof fn lemma_top_decides(rows: Seq<Row>, offset: usize, limit: usize)
    ensures
        limited(skipped(rows, offset), Some(limit)) == limited(
            skipped(top(rows, (offset + limit) as nat), offset),
            Some(limit),
        ),
{
    assert(limited(skipped(rows, offset), Some(limit)) =~= limited(
        skipped(top(rows, (offset + limit) as nat), offset),
        Some(limit),
    ));
}

// ---- duplicates --------------------------------------------------------------------------------

/// The rows without duplicates, the first of each.
pub open spec fn distinct(rows: Seq<Row>) -> Seq<Row> {
    kept(rows, Seq::empty(), Keep::First)
}

/// Whether each shard sent its rows without duplicates.
pub open spec fn distinct_of(parts: Seq<Table>, sent: Seq<Table>) -> bool {
    sent.len() == parts.len() && forall|i: int|
        0 <= i < parts.len() ==> (#[trigger] sent[i]).rows == distinct(parts[i].rows)
}

/// A row counts in a list exactly where it counts in the list without duplicates.
proof fn lemma_distinct_keeps_one(rows: Seq<Row>, row: Row, all: Seq<Row>)
    requires
        sameness(all),
        drawn_from(rows, all),
        all.contains(row),
    ensures
        (copies(rows, row) > 0) == (copies(distinct(rows), row) > 0),
    decreases rows.len(),
{
    if rows.len() > 0 {
        let rest = rows.drop_last();
        let last = rows.last();
        assert forall|i: int| 0 <= i < rest.len() implies all.contains(#[trigger] rest[i]) by {
            assert(rest[i] == rows[i]);
        }
        assert(all.contains(rows[rows.len() - 1]));
        lemma_distinct_keeps_one(rest, row, all);
        if copies(rest, last) == 0 {
            assert(distinct(rows).drop_last() =~= distinct(rest));
        } else if same_row(last, row) {
            lemma_copies_alike(rest, last, row, all);
        }
    }
}

/// Removing duplicates from a list and then from what follows gives the same as removing them from
/// the whole.
proof fn lemma_distinct_join(
    a: Seq<Row>,
    b: Seq<Row>,
    part: Seq<Row>,
    all: Seq<Row>,
)
    requires
        sameness(all),
        drawn_from(a, all),
        drawn_from(b, all),
        drawn_from(part, all),
        distinct(a) == distinct(b),
        forall|row: Row| #[trigger]
            all.contains(row) ==> (copies(a, row) > 0) == (copies(b, row) > 0),
    ensures
        distinct(a + part) == distinct(b + distinct(part)),
        forall|row: Row| #[trigger]
            all.contains(row) ==> (copies(a + part, row) > 0) == (copies(b + distinct(part), row)
                > 0),
    decreases part.len(),
{
    if part.len() == 0 {
        assert(a + part =~= a);
        assert(b + distinct(part) =~= b);
    } else {
        let rest = part.drop_last();
        let last = part.last();
        assert forall|i: int| 0 <= i < rest.len() implies all.contains(#[trigger] rest[i]) by {
            assert(rest[i] == part[i]);
        }
        assert(all.contains(part[part.len() - 1]));
        lemma_distinct_join(a, b, rest, all);
        assert((a + part).drop_last() =~= a + rest);
        lemma_copies_add(a, rest, last);
        lemma_copies_add(b, distinct(rest), last);
        lemma_distinct_keeps_one(rest, last, all);
        if copies(rest, last) == 0 {
            assert(distinct(part) =~= distinct(rest).push(last));
            assert((b + distinct(part)).drop_last() =~= b + distinct(rest));
        }
        assert forall|row: Row| #[trigger] all.contains(row) implies (copies(a + part, row) > 0)
            == (copies(b + distinct(part), row) > 0) by {
            lemma_copies_add(a, part, row);
            lemma_copies_add(b, distinct(part), row);
            lemma_distinct_keeps_one(part, row, all);
        }
    }
}

proof fn lemma_distinct_parts(parts: Seq<Table>, sent: Seq<Table>, all: Seq<Row>)
    requires
        sameness(all),
        drawn_from(gathered(parts), all),
        distinct_of(parts, sent),
    ensures
        distinct(gathered(sent)) == distinct(gathered(parts)),
        drawn_from(gathered(sent), all),
        forall|row: Row| #[trigger]
            all.contains(row) ==> (copies(gathered(parts), row) > 0) == (copies(
                gathered(sent),
                row,
            ) > 0),
    decreases parts.len(),
{
    if parts.len() > 0 {
        let (p, s) = (parts.drop_last(), sent.drop_last());
        let part = parts.last().rows;
        lemma_part_drawn(gathered(p), part, all);
        assert forall|i: int| 0 <= i < p.len() implies (#[trigger] s[i]).rows == distinct(
            p[i].rows,
        ) by {
            assert(s[i] == sent[i] && p[i] == parts[i]);
        }
        lemma_distinct_parts(p, s, all);
        assert(sent[parts.len() - 1].rows == distinct(parts[parts.len() - 1].rows));
        lemma_distinct_join(gathered(p), gathered(s), part, all);
        lemma_distinct_drawn(part, all);
        lemma_drawn_joins(gathered(s), distinct(part), all);
    }
}

proof fn lemma_distinct_drawn(rows: Seq<Row>, all: Seq<Row>)
    requires
        drawn_from(rows, all),
    ensures
        drawn_from(distinct(rows), all),
    decreases rows.len(),
{
    if rows.len() > 0 {
        let rest = rows.drop_last();
        assert forall|i: int| 0 <= i < rest.len() implies all.contains(#[trigger] rest[i]) by {
            assert(rest[i] == rows[i]);
        }
        lemma_distinct_drawn(rest, all);
        assert(all.contains(rows[rows.len() - 1]));
        assert forall|i: int| 0 <= i < distinct(rows).len() implies all.contains(
            #[trigger] distinct(rows)[i],
        ) by {
            if i < distinct(rest).len() {
                assert(distinct(rows)[i] == distinct(rest)[i]);
            }
        }
    }
}

/// `DISTINCT` may be applied on each shard first: the rows without duplicates are the same.
pub proof fn law_shards_may_drop_duplicates(parts: Seq<Table>, sent: Seq<Table>)
    requires
        sameness(gathered(parts)),
        distinct_of(parts, sent),
    ensures
        distinct(gathered(sent)) == distinct(gathered(parts)),
{
    let all = gathered(parts);
    assert forall|i: int| 0 <= i < all.len() implies all.contains(#[trigger] all[i]) by {}
    lemma_distinct_parts(parts, sent, all);
}

// ---- aggregates --------------------------------------------------------------------------------

/// The values of every shard, one shard after the other.
pub open spec fn joined(parts: Seq<Seq<Datum>>) -> Seq<Datum>
    decreases parts.len(),
{
    if parts.len() == 0 {
        Seq::empty()
    } else {
        joined(parts.drop_last()) + parts.last()
    }
}

/// Whether each shard's part of an aggregate is a value of its own.
pub open spec fn partials_of(kind: Combine, parts: Seq<Seq<Datum>>, partials: Seq<Datum>) -> bool {
    partials.len() == parts.len() && forall|i: int|
        0 <= i < parts.len() ==> combined(kind, #[trigger] parts[i]) == CellModel::Value(
            partials[i],
        )
}

proof fn lemma_present_adds(a: Seq<Datum>, b: Seq<Datum>)
    ensures
        present(a + b) == present(a) + present(b),
    decreases b.len(),
{
    if b.len() == 0 {
        assert(a + b =~= a);
        assert(present(a) + present(b) =~= present(a));
    } else {
        lemma_present_adds(a, b.drop_last());
        assert((a + b).drop_last() =~= a + b.drop_last());
        assert(present(a + b) =~= present(a) + present(b));
    }
}

proof fn lemma_sum_adds(a: Seq<Datum>, b: Seq<Datum>)
    ensures
        integer_sum(a + b) == integer_sum(a) + integer_sum(b),
    decreases b.len(),
{
    if b.len() == 0 {
        assert(a + b =~= a);
    } else {
        lemma_sum_adds(a, b.drop_last());
        assert((a + b).drop_last() =~= a + b.drop_last());
    }
}

/// Whether every value is a whole number or nothing.
pub open spec fn whole_or_null(values: Seq<Datum>) -> bool {
    forall|i: int| 0 <= i < values.len() ==> (#[trigger] values[i]) is Integer || values[i] is Null
}

/// Whether the sum of the whole numbers is one in 64 bits.
pub open spec fn sum_held(values: Seq<Datum>) -> bool {
    i64::MIN <= integer_sum(present(values)) <= i64::MAX
}

proof fn lemma_present_integers(values: Seq<Datum>)
    requires
        whole_or_null(values),
    ensures
        all_integers(present(values)),
    decreases values.len(),
{
    if values.len() > 0 {
        let rest = values.drop_last();
        assert forall|i: int| 0 <= i < rest.len() implies (#[trigger] rest[i]) is Integer
            || rest[i] is Null by {
            assert(rest[i] == values[i]);
        }
        lemma_present_integers(rest);
        assert(values[values.len() - 1] is Integer || values[values.len() - 1] is Null);
        assert forall|i: int| 0 <= i < present(values).len() implies (
        #[trigger] present(values)[i]) is Integer by {
            if i < present(rest).len() {
                assert(present(values)[i] == present(rest)[i]);
            }
        }
    }
}

proof fn lemma_sums(parts: Seq<Seq<Datum>>, partials: Seq<Datum>)
    requires
        partials_of(Combine::Sum, parts, partials),
        forall|i: int|
            0 <= i < parts.len() ==> whole_or_null(#[trigger] parts[i]) && sum_held(parts[i]),
    ensures
        integer_sum(present(partials)) == integer_sum(present(joined(parts))),
        present(partials).len() > 0 <==> present(joined(parts)).len() > 0,
        whole_or_null(partials),
        whole_or_null(joined(parts)),
    decreases parts.len(),
{
    if parts.len() > 0 {
        let (p, q) = (parts.drop_last(), partials.drop_last());
        assert forall|i: int| 0 <= i < p.len() implies combined(Combine::Sum, #[trigger] p[i])
            == CellModel::Value(q[i]) by {
            assert(p[i] == parts[i] && q[i] == partials[i]);
        }
        assert forall|i: int| 0 <= i < p.len() implies whole_or_null(#[trigger] p[i]) && sum_held(
            p[i],
        ) by {
            assert(p[i] == parts[i]);
        }
        lemma_sums(p, q);
        let last = parts.last();
        assert(whole_or_null(parts[parts.len() - 1]));
        assert(combined(Combine::Sum, parts[parts.len() - 1]) == CellModel::Value(
            partials[parts.len() - 1],
        ));
        lemma_present_adds(joined(p), last);
        lemma_sum_adds(present(joined(p)), present(last));
        lemma_present_integers(last);
        assert(q.push(partials.last()) =~= partials);
        assert(present(partials) == (if partials.last() is Null {
            present(q)
        } else {
            present(q).push(partials.last())
        }));
        assert(present(q).push(partials.last()).drop_last() =~= present(q));
        assert forall|i: int| 0 <= i < joined(parts).len() implies (
        #[trigger] joined(parts)[i]) is Integer || joined(parts)[i] is Null by {
            if i < joined(p).len() {
                assert(joined(parts)[i] == joined(p)[i]);
            } else {
                assert(joined(parts)[i] == last[i - joined(p).len()]);
            }
        }
        assert forall|i: int| 0 <= i < partials.len() implies (#[trigger] partials[i]) is Integer
            || partials[i] is Null by {
            if i < q.len() {
                assert(partials[i] == q[i]);
            }
        }
        if present(last).len() == 0 {
            assert(integer_sum(present(last)) == 0);
        }
    }
}

/// Sums add up: the sum of the shards' sums of whole numbers is the sum over all of them. Counts,
/// which are summed, add up with them.
pub proof fn law_sums_add_up(parts: Seq<Seq<Datum>>, partials: Seq<Datum>)
    requires
        partials_of(Combine::Sum, parts, partials),
        forall|i: int|
            0 <= i < parts.len() ==> whole_or_null(#[trigger] parts[i]) && sum_held(parts[i]),
    ensures
        combined(Combine::Sum, partials) == combined(Combine::Sum, joined(parts)),
{
    lemma_sums(parts, partials);
    lemma_present_integers(partials);
    lemma_present_integers(joined(parts));
}

pub open spec fn exact_values(values: Seq<Datum>, mixed: bool) -> bool {
    forall|i: int| 0 <= i < values.len() ==> exact(#[trigger] values[i], mixed)
}

spec fn smaller(a: Datum, b: Datum) -> Datum {
    if value_order(a, b) == Order::Greater {
        b
    } else {
        a
    }
}

spec fn larger(a: Datum, b: Datum) -> Datum {
    if value_order(a, b) == Order::Greater {
        a
    } else {
        b
    }
}

proof fn lemma_extremes_exact(values: Seq<Datum>, mixed: bool)
    requires
        exact_values(values, mixed),
        values.len() > 0,
    ensures
        exact(smallest(values), mixed),
        exact(largest(values), mixed),
    decreases values.len(),
{
    if values.len() > 1 {
        let rest = values.drop_last();
        assert forall|i: int| 0 <= i < rest.len() implies exact(#[trigger] rest[i], mixed) by {
            assert(rest[i] == values[i]);
        }
        lemma_extremes_exact(rest, mixed);
        assert(exact(values[values.len() - 1], mixed));
    } else {
        assert(exact(values[0], mixed));
    }
}

proof fn lemma_extremes_join(a: Seq<Datum>, b: Seq<Datum>, mixed: bool)
    requires
        exact_values(a, mixed),
        exact_values(b, mixed),
        a.len() > 0,
        b.len() > 0,
    ensures
        smallest(a + b) == smaller(smallest(a), smallest(b)),
        largest(a + b) == larger(largest(a), largest(b)),
    decreases b.len(),
{
    assert((a + b).drop_last() =~= a + b.drop_last());
    assert((a + b).last() == b.last());
    if b.len() == 1 {
        assert(a + b.drop_last() =~= a);
    } else {
        let rest = b.drop_last();
        assert forall|i: int| 0 <= i < rest.len() implies exact(#[trigger] rest[i], mixed) by {
            assert(rest[i] == b[i]);
        }
        lemma_extremes_join(a, rest, mixed);
        lemma_extremes_exact(a, mixed);
        lemma_extremes_exact(rest, mixed);
        assert(exact(b[b.len() - 1], mixed));
        lemma_smaller_thrice(smallest(a), smallest(rest), b.last(), mixed);
        lemma_larger_thrice(largest(a), largest(rest), b.last(), mixed);
    }
}

proof fn lemma_smaller_thrice(x: Datum, y: Datum, z: Datum, mixed: bool)
    requires
        exact(x, mixed),
        exact(y, mixed),
        exact(z, mixed),
    ensures
        smaller(smaller(x, y), z) == smaller(x, smaller(y, z)),
{
    law_value_order_flips(x, y);
    law_value_order_flips(y, z);
    law_value_order_flips(x, z);
    lemma_order_transitive(x, y, z, mixed);
    lemma_order_transitive(z, y, x, mixed);
    lemma_order_transitive(x, z, y, mixed);
    lemma_order_transitive(y, x, z, mixed);
    lemma_order_transitive(z, x, y, mixed);
    lemma_order_transitive(y, z, x, mixed);
}

proof fn lemma_larger_thrice(x: Datum, y: Datum, z: Datum, mixed: bool)
    requires
        exact(x, mixed),
        exact(y, mixed),
        exact(z, mixed),
    ensures
        larger(larger(x, y), z) == larger(x, larger(y, z)),
{
    law_value_order_flips(x, y);
    law_value_order_flips(y, z);
    law_value_order_flips(x, z);
    lemma_order_transitive(x, y, z, mixed);
    lemma_order_transitive(z, y, x, mixed);
    lemma_order_transitive(x, z, y, mixed);
    lemma_order_transitive(y, x, z, mixed);
    lemma_order_transitive(z, x, y, mixed);
    lemma_order_transitive(y, z, x, mixed);
}

proof fn lemma_order_transitive(x: Datum, y: Datum, z: Datum, mixed: bool)
    requires
        exact(x, mixed),
        exact(y, mixed),
        exact(z, mixed),
    ensures
        value_order(x, y) != Order::Greater && value_order(y, z) != Order::Greater ==> value_order(
            x,
            z,
        ) != Order::Greater && (value_order(x, z) == Order::Equal ==> value_order(x, y)
            == Order::Equal && value_order(y, z) == Order::Equal),
{
    if value_order(x, y) != Order::Greater && value_order(y, z) != Order::Greater {
        law_value_order_transitive(x, y, z, mixed);
    }
}

proof fn lemma_present_exact(values: Seq<Datum>, mixed: bool)
    requires
        exact_values(values, mixed),
    ensures
        exact_values(present(values), mixed),
        forall|i: int| 0 <= i < present(values).len() ==> !((#[trigger] present(values)[i]) is Null),
    decreases values.len(),
{
    if values.len() > 0 {
        let rest = values.drop_last();
        assert forall|i: int| 0 <= i < rest.len() implies exact(#[trigger] rest[i], mixed) by {
            assert(rest[i] == values[i]);
        }
        lemma_present_exact(rest, mixed);
        assert(exact(values[values.len() - 1], mixed));
        assert forall|i: int| 0 <= i < present(values).len() implies exact(
            #[trigger] present(values)[i],
            mixed,
        ) && !(present(values)[i] is Null) by {
            if i < present(rest).len() {
                assert(present(values)[i] == present(rest)[i]);
            }
        }
    }
}

proof fn lemma_extreme_is_one(values: Seq<Datum>)
    requires
        values.len() > 0,
    ensures
        values.contains(smallest(values)),
        values.contains(largest(values)),
    decreases values.len(),
{
    if values.len() > 1 {
        let rest = values.drop_last();
        lemma_extreme_is_one(rest);
        let i = choose|i: int| 0 <= i < rest.len() && rest[i] == smallest(rest);
        assert(values[i] == smallest(rest));
        let j = choose|j: int| 0 <= j < rest.len() && rest[j] == largest(rest);
        assert(values[j] == largest(rest));
        assert(values[values.len() - 1] == values.last());
    } else {
        assert(values[0] == smallest(values));
    }
}

/// Two parts of an aggregate put together; nothing adds nothing.
spec fn extreme(kind: Combine, x: Datum, y: Datum) -> Datum {
    if x is Null {
        y
    } else if y is Null {
        x
    } else if kind == Combine::Min {
        smaller(x, y)
    } else {
        larger(x, y)
    }
}

/// The smallest or largest of some values, null where there are none.
spec fn extreme_of(kind: Combine, values: Seq<Datum>) -> Datum {
    if present(values).len() == 0 {
        Datum::Null
    } else if kind == Combine::Min {
        smallest(present(values))
    } else {
        largest(present(values))
    }
}

proof fn lemma_extreme_present(kind: Combine, values: Seq<Datum>, mixed: bool)
    requires
        exact_values(values, mixed),
    ensures
        (extreme_of(kind, values) is Null) == (present(values).len() == 0),
        exact(extreme_of(kind, values), mixed),
{
    lemma_present_exact(values, mixed);
    let some = present(values);
    if some.len() > 0 {
        lemma_extreme_is_one(some);
        lemma_extremes_exact(some, mixed);
        let i = choose|i: int| 0 <= i < some.len() && some[i] == smallest(some);
        assert(!(some[i] is Null));
        let j = choose|j: int| 0 <= j < some.len() && some[j] == largest(some);
        assert(!(some[j] is Null));
    }
}

proof fn lemma_extreme_join(kind: Combine, a: Seq<Datum>, b: Seq<Datum>, mixed: bool)
    requires
        kind == Combine::Min || kind == Combine::Max,
        exact_values(a, mixed),
        exact_values(b, mixed),
    ensures
        extreme_of(kind, a + b) == extreme(kind, extreme_of(kind, a), extreme_of(kind, b)),
{
    lemma_present_adds(a, b);
    lemma_present_exact(a, mixed);
    lemma_present_exact(b, mixed);
    lemma_extreme_present(kind, a, mixed);
    lemma_extreme_present(kind, b, mixed);
    let (x, y) = (present(a), present(b));
    if x.len() == 0 {
        assert(x + y =~= y);
    } else if y.len() == 0 {
        assert(x + y =~= x);
    } else {
        lemma_extremes_join(x, y, mixed);
    }
}

proof fn lemma_extreme_alone(kind: Combine, v: Datum)
    ensures
        extreme_of(kind, seq![v]) == v,
{
    let one = seq![v];
    assert(one.drop_last() =~= Seq::empty());
    assert(present(one.drop_last()).len() == 0);
    if !(v is Null) {
        assert(present(one) =~= one);
    }
}

proof fn lemma_exact_joins(a: Seq<Datum>, b: Seq<Datum>, mixed: bool)
    requires
        exact_values(a, mixed),
        exact_values(b, mixed),
    ensures
        exact_values(a + b, mixed),
{
    assert forall|i: int| 0 <= i < (a + b).len() implies exact(#[trigger] (a + b)[i], mixed) by {
        if i < a.len() {
            assert((a + b)[i] == a[i]);
        } else {
            assert((a + b)[i] == b[i - a.len()]);
        }
    }
}

proof fn lemma_extremes(kind: Combine, parts: Seq<Seq<Datum>>, partials: Seq<Datum>, mixed: bool)
    requires
        kind == Combine::Min || kind == Combine::Max,
        partials_of(kind, parts, partials),
        forall|i: int| 0 <= i < parts.len() ==> exact_values(#[trigger] parts[i], mixed),
    ensures
        extreme_of(kind, partials) == extreme_of(kind, joined(parts)),
        exact_values(joined(parts), mixed),
        exact_values(partials, mixed),
    decreases parts.len(),
{
    if parts.len() > 0 {
        let (p, q) = (parts.drop_last(), partials.drop_last());
        let last = parts.last();
        let n = parts.len() - 1;
        assert forall|i: int| 0 <= i < p.len() implies combined(kind, #[trigger] p[i])
            == CellModel::Value(q[i]) by {
            assert(p[i] == parts[i] && q[i] == partials[i]);
        }
        assert forall|i: int| 0 <= i < p.len() implies exact_values(#[trigger] p[i], mixed) by {
            assert(p[i] == parts[i]);
        }
        lemma_extremes(kind, p, q, mixed);
        assert(exact_values(parts[n], mixed));
        assert(combined(kind, parts[n]) == CellModel::Value(partials[n]));
        let one = seq![partials.last()];
        assert(extreme_of(kind, last) == partials.last());
        lemma_extreme_present(kind, last, mixed);
        assert(exact_values(one, mixed));
        lemma_extreme_join(kind, joined(p), last, mixed);
        lemma_extreme_join(kind, q, one, mixed);
        lemma_extreme_alone(kind, partials.last());
        assert(q + one =~= partials);
        lemma_exact_joins(joined(p), last, mixed);
        lemma_exact_joins(q, one, mixed);
    }
}

/// The smallest of the shards' smallest values is the smallest of all, and so with the largest.
pub proof fn law_extremes_of_extremes(kind: Combine, parts: Seq<Seq<Datum>>, partials: Seq<Datum>, mixed: bool)
    requires
        kind == Combine::Min || kind == Combine::Max,
        partials_of(kind, parts, partials),
        forall|i: int| 0 <= i < parts.len() ==> exact_values(#[trigger] parts[i], mixed),
    ensures
        combined(kind, partials) == combined(kind, joined(parts)),
{
    lemma_extremes(kind, parts, partials, mixed);
    lemma_extreme_present(kind, partials, mixed);
    lemma_extreme_present(kind, joined(parts), mixed);
}

} // verus!
