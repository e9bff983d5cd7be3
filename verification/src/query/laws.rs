//! What holds of merging, whatever the rows.

use vstd::prelude::*;

use super::merge::{copies, finalized, insert_sorted, kept, set_rows, sorted_rows, truth, Keep, Row};
use super::order::{
    byte_codes, char_codes, key_order, lex_order, row_order, same_row, sort_order, value_order,
};
use super::plan::{PredicateModel, SortKey};
use super::syntax::SetKind;
use crate::storage::doubles::{
    int_key, int_order, is_nan, lemma_int_key_keeps_order, real_key, Order, EXACT_INTEGERS,
};
use crate::storage::exec::Datum;

verus! {

// ---- the order of values -----------------------------------------------------------------------

pub proof fn lemma_lex_flips(a: Seq<int>, b: Seq<int>)
    ensures
        lex_order(a, b) == lex_order(b, a).flipped(),
    decreases a.len(),
{
    if a.len() > 0 && b.len() > 0 && a[0] == b[0] {
        lemma_lex_flips(a.drop_first(), b.drop_first());
    }
}

/// Comparing two values the other way round gives the opposite answer.
pub proof fn law_value_order_flips(a: Datum, b: Datum)
    ensures
        value_order(a, b) == value_order(b, a).flipped(),
{
    match (a, b) {
        (Datum::Text(x), Datum::Text(y)) => lemma_lex_flips(char_codes(x), char_codes(y)),
        (Datum::Blob(x), Datum::Blob(y)) => lemma_lex_flips(byte_codes(x), byte_codes(y)),
        _ => {},
    }
}

pub proof fn lemma_lex_transitive(a: Seq<int>, b: Seq<int>, c: Seq<int>)
    requires
        lex_order(a, b) != Order::Greater,
        lex_order(b, c) != Order::Greater,
    ensures
        lex_order(a, c) != Order::Greater,
        lex_order(a, c) == Order::Equal ==> lex_order(a, b) == Order::Equal && lex_order(b, c)
            == Order::Equal,
    decreases a.len(),
{
    if a.len() > 0 && b.len() > 0 && c.len() > 0 && a[0] == b[0] && b[0] == c[0] {
        lemma_lex_transitive(a.drop_first(), b.drop_first(), c.drop_first());
    }
}

/// Whether a value is ordered exactly. A real beside an integer is compared after rounding the
/// integer, which does not order three of them alike where the rounding tells: where reals are
/// `mixed` with integers, those up to 2^53 are exact, which rounding leaves as they are, and every
/// real that is a number. Without reals every integer is.
pub open spec fn exact(v: Datum, mixed: bool) -> bool {
    match v {
        Datum::Real(bits) => mixed && !is_nan(bits),
        Datum::Integer(n) => mixed ==> -EXACT_INTEGERS <= n <= EXACT_INTEGERS,
        _ => true,
    }
}

/// Among exact values the order of values is transitive.
pub proof fn law_value_order_transitive(a: Datum, b: Datum, c: Datum, mixed: bool)
    requires
        exact(a, mixed),
        exact(b, mixed),
        exact(c, mixed),
        value_order(a, b) != Order::Greater,
        value_order(b, c) != Order::Greater,
    ensures
        value_order(a, c) != Order::Greater,
        value_order(a, c) == Order::Equal ==> value_order(a, b) == Order::Equal && value_order(b, c)
            == Order::Equal,
{
    match (a, b, c) {
        (Datum::Text(x), Datum::Text(y), Datum::Text(z)) => lemma_lex_transitive(
            char_codes(x),
            char_codes(y),
            char_codes(z),
        ),
        (Datum::Blob(x), Datum::Blob(y), Datum::Blob(z)) => lemma_lex_transitive(
            byte_codes(x),
            byte_codes(y),
            byte_codes(z),
        ),
        (Datum::Integer(_) | Datum::Real(_), Datum::Integer(_) | Datum::Real(_), _) => {
            if mixed {
                lemma_number_order(a, b);
                if c is Integer || c is Real {
                    lemma_number_order(b, c);
                    lemma_number_order(a, c);
                }
            }
        },
        _ => {},
    }
}

/// Where a number stands among the reals.
spec fn number_key(v: Datum) -> int {
    match v {
        Datum::Integer(n) => int_key(n as int),
        Datum::Real(bits) => real_key(bits),
        _ => 0,
    }
}

/// Exact numbers are ordered by where they stand among the reals, whatever their types.
proof fn lemma_number_order(a: Datum, b: Datum)
    requires
        exact(a, true),
        exact(b, true),
        a is Integer || a is Real,
        b is Integer || b is Real,
    ensures
        value_order(a, b) == int_order(number_key(a), number_key(b)),
{
    if let (Datum::Integer(x), Datum::Integer(y)) = (a, b) {
        lemma_int_key_keeps_order(x as int, y as int);
    }
}

// ---- the order of rows -------------------------------------------------------------------------

/// Whether the rows can be put in one order: no three of them go round in a circle.
#[verifier::opaque]
pub open spec fn consistent(rows: Seq<Row>, keys: Seq<SortKey>) -> bool {
    forall|a: int, b: int, c: int|
        0 <= a < rows.len() && 0 <= b < rows.len() && 0 <= c < rows.len() && #[trigger] row_order(
            rows[a],
            rows[b],
            keys,
            0,
        ) != Order::Greater && #[trigger] row_order(rows[b], rows[c], keys, 0) != Order::Greater
            ==> row_order(rows[a], rows[c], keys, 0) != Order::Greater
}

pub open spec fn exact_row(row: Row, mixed: bool) -> bool {
    forall|i: int| 0 <= i < row.len() ==> exact(#[trigger] row[i], mixed)
}

proof fn lemma_sort_order_flips(x: Datum, y: Datum, key: SortKey)
    ensures
        sort_order(x, y, key) == sort_order(y, x, key).flipped(),
{
    law_value_order_flips(x, y);
}

proof fn lemma_row_order_flips(a: Row, b: Row, keys: Seq<SortKey>, i: int)
    ensures
        row_order(a, b, keys, i) == row_order(b, a, keys, i).flipped(),
    decreases keys.len() - i,
{
    if 0 <= i < keys.len() {
        let key = keys[i];
        if key.column < a.len() && key.column < b.len() {
            lemma_sort_order_flips(a[key.column as int], b[key.column as int], key);
        }
        lemma_row_order_flips(a, b, keys, i + 1);
    }
}

proof fn lemma_sort_order_transitive(x: Datum, y: Datum, z: Datum, key: SortKey, mixed: bool)
    requires
        exact(x, mixed),
        exact(y, mixed),
        exact(z, mixed),
        sort_order(x, y, key) != Order::Greater,
        sort_order(y, z, key) != Order::Greater,
    ensures
        sort_order(x, z, key) != Order::Greater,
        sort_order(x, z, key) == Order::Equal ==> sort_order(x, y, key) == Order::Equal
            && sort_order(y, z, key) == Order::Equal,
{
    if !(x is Null) && !(y is Null) && !(z is Null) {
        if key.descending {
            law_value_order_flips(x, y);
            law_value_order_flips(y, z);
            law_value_order_flips(x, z);
            law_value_order_transitive(z, y, x, mixed);
        } else {
            law_value_order_transitive(x, y, z, mixed);
        }
    }
}

proof fn lemma_row_order_transitive(a: Row, b: Row, c: Row, keys: Seq<SortKey>, i: int, mixed: bool)
    requires
        exact_row(a, mixed),
        exact_row(b, mixed),
        exact_row(c, mixed),
        a.len() == b.len() == c.len(),
        row_order(a, b, keys, i) != Order::Greater,
        row_order(b, c, keys, i) != Order::Greater,
    ensures
        row_order(a, c, keys, i) != Order::Greater,
    decreases keys.len() - i,
{
    if 0 <= i < keys.len() {
        let key = keys[i];
        if key.column < a.len() {
            let k = key.column as int;
            assert(exact(a[k], mixed) && exact(b[k], mixed) && exact(c[k], mixed));
            lemma_sort_order_transitive(a[k], b[k], c[k], key, mixed);
            if sort_order(a[k], b[k], key) == Order::Equal && sort_order(b[k], c[k], key)
                == Order::Equal {
                lemma_row_order_transitive(a, b, c, keys, i + 1, mixed);
            }
        } else {
            lemma_row_order_transitive(a, b, c, keys, i + 1, mixed);
        }
    }
}

/// Rows of one length that hold exact values can be put in one order, whatever the keys.
pub proof fn law_exact_rows_are_consistent(rows: Seq<Row>, keys: Seq<SortKey>, mixed: bool)
    requires
        forall|i: int| 0 <= i < rows.len() ==> exact_row(#[trigger] rows[i], mixed),
        forall|i: int, j: int|
            0 <= i < rows.len() && 0 <= j < rows.len() ==> (#[trigger] rows[i]).len() == (
            #[trigger] rows[j]).len(),
    ensures
        consistent(rows, keys),
{
    reveal(consistent);
    assert forall|a: int, b: int, c: int|
        0 <= a < rows.len() && 0 <= b < rows.len() && 0 <= c < rows.len() && #[trigger] row_order(
            rows[a],
            rows[b],
            keys,
            0,
        ) != Order::Greater && #[trigger] row_order(rows[b], rows[c], keys, 0)
            != Order::Greater implies row_order(rows[a], rows[c], keys, 0) != Order::Greater by {
        lemma_row_order_transitive(rows[a], rows[b], rows[c], keys, 0, mixed);
    }
}

// ---- sorting -----------------------------------------------------------------------------------

proof fn lemma_insert_adds_one(rows: Seq<Row>, row: Row, keys: Seq<SortKey>)
    ensures
        insert_sorted(rows, row, keys).len() == rows.len() + 1,
    decreases rows.len(),
{
    if rows.len() > 0 && row_order(rows.last(), row, keys, 0) == Order::Greater {
        lemma_insert_adds_one(rows.drop_last(), row, keys);
    }
}

proof fn lemma_insert_keeps_rows(rows: Seq<Row>, row: Row, keys: Seq<SortKey>)
    ensures
        insert_sorted(rows, row, keys).to_multiset() =~= rows.to_multiset().insert(row),
    decreases rows.len(),
{
    broadcast use vstd::seq_lib::group_to_multiset_ensures;

    if rows.len() > 0 && row_order(rows.last(), row, keys, 0) == Order::Greater {
        lemma_insert_keeps_rows(rows.drop_last(), row, keys);
        assert(rows.drop_last().push(rows.last()) =~= rows);
    }
}

/// Sorting keeps every row, and as often as it was there.
pub proof fn law_sorting_keeps_every_row(rows: Seq<Row>, keys: Seq<SortKey>)
    ensures
        sorted_rows(rows, keys).to_multiset() == rows.to_multiset(),
        sorted_rows(rows, keys).len() == rows.len(),
    decreases rows.len(),
{
    broadcast use vstd::seq_lib::group_to_multiset_ensures;

    if rows.len() == 0 {
        assert(sorted_rows(rows, keys) =~= rows);
    } else {
        law_sorting_keeps_every_row(rows.drop_last(), keys);
        let before = sorted_rows(rows.drop_last(), keys);
        lemma_insert_keeps_rows(before, rows.last(), keys);
        lemma_insert_adds_one(before, rows.last(), keys);
        assert(rows.drop_last().push(rows.last()) =~= rows);
        assert(sorted_rows(rows, keys).to_multiset() =~= rows.to_multiset());
    }
}

/// Whether no row comes before one that is smaller.
pub open spec fn in_order(rows: Seq<Row>, keys: Seq<SortKey>) -> bool {
    forall|i: int, j: int|
        0 <= i < j < rows.len() ==> row_order(#[trigger] rows[i], #[trigger] rows[j], keys, 0)
            != Order::Greater
}

/// Whether every row of `part` is one of `all`.
pub open spec fn drawn_from(part: Seq<Row>, all: Seq<Row>) -> bool {
    forall|i: int| 0 <= i < part.len() ==> all.contains(#[trigger] part[i])
}

pub proof fn lemma_transitive_in(all: Seq<Row>, keys: Seq<SortKey>, x: Row, y: Row, z: Row)
    requires
        consistent(all, keys),
        all.contains(x),
        all.contains(y),
        all.contains(z),
        row_order(x, y, keys, 0) != Order::Greater,
        row_order(y, z, keys, 0) != Order::Greater,
    ensures
        row_order(x, z, keys, 0) != Order::Greater,
{
    reveal(consistent);
    let a = choose|a: int| 0 <= a < all.len() && all[a] == x;
    let b = choose|b: int| 0 <= b < all.len() && all[b] == y;
    let c = choose|c: int| 0 <= c < all.len() && all[c] == z;
    assert(row_order(all[a], all[b], keys, 0) != Order::Greater);
    assert(row_order(all[b], all[c], keys, 0) != Order::Greater);
}

proof fn lemma_insert_in_order(rows: Seq<Row>, row: Row, keys: Seq<SortKey>, all: Seq<Row>)
    requires
        in_order(rows, keys),
        drawn_from(rows, all),
        all.contains(row),
        consistent(all, keys),
    ensures
        in_order(insert_sorted(rows, row, keys), keys),
        drawn_from(insert_sorted(rows, row, keys), all),
    decreases rows.len(),
{
    let out = insert_sorted(rows, row, keys);
    if rows.len() > 0 && row_order(rows.last(), row, keys, 0) == Order::Greater {
        let rest = rows.drop_last();
        let head = insert_sorted(rest, row, keys);
        assert forall|i: int| 0 <= i < rest.len() implies all.contains(#[trigger] rest[i]) by {
            assert(rest[i] == rows[i]);
        }
        lemma_insert_in_order(rest, row, keys, all);
        lemma_row_order_flips(rows.last(), row, keys, 0);
        assert forall|i: int| 0 <= i < head.len() implies row_order(
            #[trigger] head[i],
            rows.last(),
            keys,
            0,
        ) != Order::Greater by {
            lemma_insert_holds(rest, row, keys, i);
            if head[i] != row {
                let k = choose|k: int| 0 <= k < rest.len() && rest[k] == head[i];
                assert(rows[k] == rest[k]);
                assert(row_order(rows[k], rows[rows.len() - 1], keys, 0) != Order::Greater);
            }
        }
        assert(all.contains(rows[rows.len() - 1]));
        assert forall|i: int| 0 <= i < out.len() implies all.contains(#[trigger] out[i]) by {
            if i < head.len() {
                assert(out[i] == head[i]);
            }
        }
        assert forall|i: int, j: int| 0 <= i < j < out.len() implies row_order(
            #[trigger] out[i],
            #[trigger] out[j],
            keys,
            0,
        ) != Order::Greater by {
            assert(out[i] == head[i]);
            if j < head.len() {
                assert(out[j] == head[j]);
            }
        }
    } else {
        assert forall|i: int| 0 <= i < out.len() implies all.contains(#[trigger] out[i]) by {
            if i < rows.len() {
                assert(out[i] == rows[i]);
            }
        }
        assert forall|i: int, j: int| 0 <= i < j < out.len() implies row_order(
            #[trigger] out[i],
            #[trigger] out[j],
            keys,
            0,
        ) != Order::Greater by {
            assert(out[i] == rows[i]);
            if j < rows.len() {
                assert(out[j] == rows[j]);
            } else {
                let last = rows[rows.len() - 1];
                if i < rows.len() - 1 {
                    assert(row_order(rows[i], last, keys, 0) != Order::Greater);
                    lemma_transitive_in(all, keys, rows[i], last, row);
                }
            }
        }
    }
}

proof fn lemma_insert_holds(rows: Seq<Row>, row: Row, keys: Seq<SortKey>, i: int)
    requires
        0 <= i < insert_sorted(rows, row, keys).len(),
    ensures
        insert_sorted(rows, row, keys)[i] == row || rows.contains(
            insert_sorted(rows, row, keys)[i],
        ),
    decreases rows.len(),
{
    let out = insert_sorted(rows, row, keys);
    if rows.len() > 0 && row_order(rows.last(), row, keys, 0) == Order::Greater {
        let rest = rows.drop_last();
        let head = insert_sorted(rest, row, keys);
        if i < head.len() {
            lemma_insert_holds(rest, row, keys, i);
            if head[i] != row {
                let k = choose|k: int| 0 <= k < rest.len() && rest[k] == head[i];
                assert(rows[k] == out[i]);
            }
        } else {
            assert(rows[rows.len() - 1] == out[i]);
        }
    } else if i < rows.len() {
        assert(rows[i] == out[i]);
    }
}

pub proof fn lemma_sorted_within(rows: Seq<Row>, keys: Seq<SortKey>, all: Seq<Row>)
    requires
        consistent(all, keys),
        drawn_from(rows, all),
    ensures
        in_order(sorted_rows(rows, keys), keys),
        drawn_from(sorted_rows(rows, keys), all),
    decreases rows.len(),
{
    if rows.len() > 0 {
        let rest = rows.drop_last();
        assert forall|i: int| 0 <= i < rest.len() implies all.contains(#[trigger] rest[i]) by {
            assert(rest[i] == rows[i]);
        }
        lemma_sorted_within(rest, keys, all);
        assert(all.contains(rows[rows.len() - 1]));
        lemma_insert_in_order(sorted_rows(rest, keys), rows.last(), keys, all);
    }
}

/// Sorting puts rows in order wherever they can be put in one.
pub proof fn law_sorting_orders(rows: Seq<Row>, keys: Seq<SortKey>)
    requires
        consistent(rows, keys),
    ensures
        in_order(sorted_rows(rows, keys), keys),
{
    assert forall|i: int| 0 <= i < rows.len() implies rows.contains(#[trigger] rows[i]) by {}
    lemma_sorted_within(rows, keys, rows);
}

/// The rows that the keys do not tell apart from `row`, in order.
pub open spec fn tied(rows: Seq<Row>, row: Row, keys: Seq<SortKey>) -> Seq<Row>
    decreases rows.len(),
{
    if rows.len() == 0 {
        Seq::empty()
    } else if row_order(rows.last(), row, keys, 0) == Order::Equal {
        tied(rows.drop_last(), row, keys).push(rows.last())
    } else {
        tied(rows.drop_last(), row, keys)
    }
}

proof fn lemma_insert_ties(
    rows: Seq<Row>,
    row: Row,
    with: Row,
    keys: Seq<SortKey>,
    all: Seq<Row>,
)
    requires
        in_order(rows, keys),
        drawn_from(rows, all),
        all.contains(row),
        all.contains(with),
        consistent(all, keys),
    ensures
        tied(insert_sorted(rows, row, keys), with, keys) == (if row_order(row, with, keys, 0)
            == Order::Equal {
            tied(rows, with, keys).push(row)
        } else {
            tied(rows, with, keys)
        }),
    decreases rows.len(),
{
    let out = insert_sorted(rows, row, keys);
    if rows.len() > 0 && row_order(rows.last(), row, keys, 0) == Order::Greater {
        let rest = rows.drop_last();
        let head = insert_sorted(rest, row, keys);
        assert forall|i: int| 0 <= i < rest.len() implies all.contains(#[trigger] rest[i]) by {
            assert(rest[i] == rows[i]);
        }
        assert(in_order(rest, keys));
        lemma_insert_ties(rest, row, with, keys, all);
        assert(out.drop_last() =~= head);
        assert(out.last() == rows.last());
        assert(all.contains(rows[rows.len() - 1]));
        if row_order(row, with, keys, 0) == Order::Equal && row_order(rows.last(), with, keys, 0)
            == Order::Equal {
            lemma_row_order_flips(row, with, keys, 0);
            lemma_transitive_in(all, keys, rows.last(), with, row);
        }
    } else {
        assert(out.drop_last() =~= rows);
        assert(out.last() == row);
    }
}

proof fn lemma_ties_within(rows: Seq<Row>, with: Row, keys: Seq<SortKey>, all: Seq<Row>)
    requires
        consistent(all, keys),
        drawn_from(rows, all),
        all.contains(with),
    ensures
        tied(sorted_rows(rows, keys), with, keys) == tied(rows, with, keys),
    decreases rows.len(),
{
    if rows.len() > 0 {
        let rest = rows.drop_last();
        assert forall|i: int| 0 <= i < rest.len() implies all.contains(#[trigger] rest[i]) by {
            assert(rest[i] == rows[i]);
        }
        lemma_ties_within(rest, with, keys, all);
        lemma_sorted_within(rest, keys, all);
        assert(all.contains(rows[rows.len() - 1]));
        lemma_insert_ties(sorted_rows(rest, keys), rows.last(), with, keys, all);
    }
}

/// Sorting is stable: rows that the keys do not tell apart keep their order.
pub proof fn law_sorting_is_stable(rows: Seq<Row>, keys: Seq<SortKey>, row: Row)
    requires
        consistent(rows, keys),
        rows.contains(row),
    ensures
        tied(sorted_rows(rows, keys), row, keys) == tied(rows, row, keys),
{
    assert forall|i: int| 0 <= i < rows.len() implies rows.contains(#[trigger] rows[i]) by {}
    lemma_ties_within(rows, row, keys, rows);
}

/// A result never holds more rows than its limit, nor more than there are beyond its offset.
pub proof fn law_limit_bounds_the_result(
    rows: Seq<Row>,
    order_by: Seq<SortKey>,
    offset: usize,
    limit: Option<usize>,
)
    ensures
        limit is Some ==> finalized(rows, order_by, offset, limit).len() <= limit->0,
        finalized(rows, order_by, offset, limit).len() <= (if offset < rows.len() {
            rows.len() - offset
        } else {
            0
        }),
{
    law_sorting_keeps_every_row(rows, order_by);
}

// ---- rows as sets ------------------------------------------------------------------------------

/// Whether being the same is an equivalence among the rows.
pub open spec fn sameness(rows: Seq<Row>) -> bool {
    forall|a: int, b: int, c: int|
        0 <= a < rows.len() && 0 <= b < rows.len() && 0 <= c < rows.len() && #[trigger] same_row(
            rows[a],
            rows[b],
        ) && #[trigger] same_row(rows[b], rows[c]) ==> same_row(rows[a], rows[c])
}

proof fn lemma_key_order_flips(a: Row, b: Row)
    ensures
        key_order(a, b) == key_order(b, a).flipped(),
    decreases a.len(),
{
    if a.len() > 0 && b.len() > 0 {
        law_value_order_flips(a[0], b[0]);
        lemma_key_order_flips(a.drop_first(), b.drop_first());
    }
}

/// Sameness of rows is symmetric.
pub proof fn law_same_row_is_symmetric(a: Row, b: Row)
    ensures
        same_row(a, b) == same_row(b, a),
{
    lemma_key_order_flips(a, b);
}

proof fn lemma_exact_same_transitive(a: Row, b: Row, c: Row, mixed: bool)
    requires
        exact_row(a, mixed),
        exact_row(b, mixed),
        exact_row(c, mixed),
        same_row(a, b),
        same_row(b, c),
    ensures
        same_row(a, c),
    decreases a.len(),
{
    if a.len() > 0 && b.len() > 0 && c.len() > 0 {
        assert(exact(a[0], mixed) && exact(b[0], mixed) && exact(c[0], mixed));
        law_value_order_transitive(a[0], b[0], c[0], mixed);
        law_value_order_flips(a[0], b[0]);
        law_value_order_flips(b[0], c[0]);
        law_value_order_transitive(c[0], b[0], a[0], mixed);
        law_value_order_flips(a[0], c[0]);
        let x = a.drop_first();
        let y = b.drop_first();
        let z = c.drop_first();
        assert forall|i: int| 0 <= i < x.len() implies exact(#[trigger] x[i], mixed) by {
            assert(x[i] == a[i + 1]);
        }
        assert forall|i: int| 0 <= i < y.len() implies exact(#[trigger] y[i], mixed) by {
            assert(y[i] == b[i + 1]);
        }
        assert forall|i: int| 0 <= i < z.len() implies exact(#[trigger] z[i], mixed) by {
            assert(z[i] == c[i + 1]);
        }
        lemma_exact_same_transitive(x, y, z, mixed);
    }
}

/// Among rows of exact values, being the same is an equivalence.
pub proof fn law_exact_rows_have_sameness(rows: Seq<Row>, mixed: bool)
    requires
        forall|i: int| 0 <= i < rows.len() ==> exact_row(#[trigger] rows[i], mixed),
    ensures
        sameness(rows),
{
    assert forall|a: int, b: int, c: int|
        0 <= a < rows.len() && 0 <= b < rows.len() && 0 <= c < rows.len() && #[trigger] same_row(
            rows[a],
            rows[b],
        ) && #[trigger] same_row(rows[b], rows[c]) implies same_row(rows[a], rows[c]) by {
        lemma_exact_same_transitive(rows[a], rows[b], rows[c], mixed);
    }
}

proof fn lemma_same_in(all: Seq<Row>, x: Row, y: Row, z: Row)
    requires
        sameness(all),
        all.contains(x),
        all.contains(y),
        all.contains(z),
        same_row(x, y),
    ensures
        same_row(x, z) == same_row(y, z),
{
    let a = choose|a: int| 0 <= a < all.len() && all[a] == x;
    let b = choose|b: int| 0 <= b < all.len() && all[b] == y;
    let c = choose|c: int| 0 <= c < all.len() && all[c] == z;
    law_same_row_is_symmetric(x, y);
    if same_row(y, z) {
        assert(same_row(all[a], all[b]) && same_row(all[b], all[c]));
    }
    if same_row(x, z) {
        assert(same_row(all[b], all[a]) && same_row(all[a], all[c]));
    }
}

/// Rows that are the same are counted alike.
pub proof fn lemma_copies_alike(rows: Seq<Row>, x: Row, y: Row, all: Seq<Row>)
    requires
        sameness(all),
        drawn_from(rows, all),
        all.contains(x),
        all.contains(y),
        same_row(x, y),
    ensures
        copies(rows, x) == copies(rows, y),
    decreases rows.len(),
{
    if rows.len() > 0 {
        let rest = rows.drop_last();
        assert forall|i: int| 0 <= i < rest.len() implies all.contains(#[trigger] rest[i]) by {
            assert(rest[i] == rows[i]);
        }
        lemma_copies_alike(rest, x, y, all);
        let last = rows[rows.len() - 1];
        assert(all.contains(last));
        lemma_same_in(all, x, y, last);
        law_same_row_is_symmetric(last, x);
        law_same_row_is_symmetric(last, y);
    }
}

/// How many of `earlier` copies a rule keeps, where the right side has `right` of them.
pub open spec fn kept_count(keep: Keep, left: nat, right: nat) -> nat {
    match keep {
        Keep::First => if left > 0 {
            1
        } else {
            0
        },
        Keep::FirstShared => if left > 0 && right > 0 {
            1
        } else {
            0
        },
        Keep::FirstMissing => if left > 0 && right == 0 {
            1
        } else {
            0
        },
        Keep::Shared => if left < right {
            left
        } else {
            right
        },
        Keep::Beyond => if left > right {
            (left - right) as nat
        } else {
            0
        },
    }
}

proof fn lemma_kept_copies(left: Seq<Row>, right: Seq<Row>, keep: Keep, row: Row, all: Seq<Row>)
    requires
        sameness(all),
        drawn_from(left, all),
        drawn_from(right, all),
        all.contains(row),
    ensures
        copies(kept(left, right, keep), row) == kept_count(
            keep,
            copies(left, row),
            copies(right, row),
        ),
    decreases left.len(),
{
    if left.len() > 0 {
        let rest = left.drop_last();
        let last = left[left.len() - 1];
        assert forall|i: int| 0 <= i < rest.len() implies all.contains(#[trigger] rest[i]) by {
            assert(rest[i] == left[i]);
        }
        assert(all.contains(last));
        lemma_kept_copies(rest, right, keep, row, all);
        let before = kept(rest, right, keep);
        assert(before.push(last).drop_last() =~= before);
        if same_row(last, row) {
            lemma_copies_alike(rest, last, row, all);
            lemma_copies_alike(right, last, row, all);
        }
    }
}

/// Of every row, `UNION ALL` keeps all copies of both sides, `INTERSECT ALL` as many as both sides
/// have, `EXCEPT ALL` as many as the left has beyond the right; without `ALL` a row occurs once or
/// not at all: once where either side has it, where both have it, where only the left has it.
pub proof fn law_set_operators_count_copies(left: Seq<Row>, right: Seq<Row>, row: Row)
    requires
        sameness(left + right),
        (left + right).contains(row),
    ensures
        ({
            let l = copies(left, row);
            let r = copies(right, row);
            &&& copies(set_rows(SetKind::Union, true, left, right), row) == l + r
            &&& copies(set_rows(SetKind::Union, false, left, right), row) == 1
            &&& copies(set_rows(SetKind::Intersect, true, left, right), row) == (if l < r {
                l
            } else {
                r
            })
            &&& copies(set_rows(SetKind::Intersect, false, left, right), row) == (if l > 0 && r
                > 0 {
                1nat
            } else {
                0
            })
            &&& copies(set_rows(SetKind::Except, true, left, right), row) == (if l > r {
                (l - r) as nat
            } else {
                0
            })
            &&& copies(set_rows(SetKind::Except, false, left, right), row) == (if l > 0 && r == 0 {
                1nat
            } else {
                0
            })
        }),
{
    let all = left + right;
    assert forall|i: int| 0 <= i < all.len() implies all.contains(#[trigger] all[i]) by {}
    assert forall|i: int| 0 <= i < left.len() implies all.contains(#[trigger] left[i]) by {
        assert(all[i] == left[i]);
    }
    assert forall|i: int| 0 <= i < right.len() implies all.contains(#[trigger] right[i]) by {
        assert(all[left.len() + i] == right[i]);
    }
    lemma_copies_add(left, right, row);
    lemma_kept_copies(all, Seq::empty(), Keep::First, row, all);
    lemma_kept_copies(left, right, Keep::Shared, row, all);
    lemma_kept_copies(left, right, Keep::FirstShared, row, all);
    lemma_kept_copies(left, right, Keep::Beyond, row, all);
    lemma_kept_copies(left, right, Keep::FirstMissing, row, all);
    lemma_contained_is_counted(all, row);
}

pub proof fn lemma_copies_add(left: Seq<Row>, right: Seq<Row>, row: Row)
    ensures
        copies(left + right, row) == copies(left, row) + copies(right, row),
    decreases right.len(),
{
    if right.len() == 0 {
        assert(left + right =~= left);
    } else {
        lemma_copies_add(left, right.drop_last(), row);
        assert((left + right).drop_last() =~= left + right.drop_last());
        assert((left + right).last() == right.last());
    }
}

proof fn lemma_key_order_reflexive(a: Row)
    ensures
        same_row(a, a),
    decreases a.len(),
{
    if a.len() > 0 {
        law_value_order_flips(a[0], a[0]);
        lemma_key_order_reflexive(a.drop_first());
    }
}

proof fn lemma_contained_is_counted(rows: Seq<Row>, row: Row)
    requires
        rows.contains(row),
    ensures
        copies(rows, row) > 0,
    decreases rows.len(),
{
    if rows.last() == row {
        lemma_key_order_reflexive(row);
    } else {
        let i = choose|i: int| 0 <= i < rows.len() && rows[i] == row;
        assert(rows.drop_last()[i] == row);
        lemma_contained_is_counted(rows.drop_last(), row);
    }
}

/// Removing duplicates a second time changes nothing.
pub proof fn law_dedup_is_idempotent(rows: Seq<Row>)
    ensures
        kept(kept(rows, Seq::empty(), Keep::First), Seq::empty(), Keep::First) == kept(
            rows,
            Seq::empty(),
            Keep::First,
        ),
    decreases rows.len(),
{
    if rows.len() > 0 {
        let rest = rows.drop_last();
        law_dedup_is_idempotent(rest);
        let before = kept(rest, Seq::empty(), Keep::First);
        if copies(rest, rows.last()) == 0 {
            lemma_kept_is_fewer(rest, Seq::empty(), Keep::First, rows.last());
            let out = before.push(rows.last());
            assert(out.drop_last() =~= before);
        }
    }
}

proof fn lemma_kept_is_fewer(left: Seq<Row>, right: Seq<Row>, keep: Keep, row: Row)
    ensures
        copies(kept(left, right, keep), row) <= copies(left, row),
    decreases left.len(),
{
    if left.len() > 0 {
        lemma_kept_is_fewer(left.drop_last(), right, keep, row);
        let before = kept(left.drop_last(), right, keep);
        assert(before.push(left.last()).drop_last() =~= before);
    }
}

// ---- HAVING ------------------------------------------------------------------------------------

/// In three-valued logic too, the negation of a conjunction is the disjunction of the negations,
/// and the other way round.
pub proof fn law_having_de_morgan(a: PredicateModel, b: PredicateModel, row: Row)
    ensures
        truth(PredicateModel::Not(Box::new(PredicateModel::And(Box::new(a), Box::new(b)))), row)
            == truth(
            PredicateModel::Or(
                Box::new(PredicateModel::Not(Box::new(a))),
                Box::new(PredicateModel::Not(Box::new(b))),
            ),
            row,
        ),
        truth(PredicateModel::Not(Box::new(PredicateModel::Or(Box::new(a), Box::new(b)))), row)
            == truth(
            PredicateModel::And(
                Box::new(PredicateModel::Not(Box::new(a))),
                Box::new(PredicateModel::Not(Box::new(b))),
            ),
            row,
        ),
{
    reveal_with_fuel(truth, 3);
}

} // verus!
