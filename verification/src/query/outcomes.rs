//! What a merged answer is, in plain terms: which row comes first, which rows are left, what an
//! aggregate comes to, and which groups `HAVING` lets through.

use vstd::arithmetic::div_mod::{lemma_fundamental_div_mod, lemma_mod_bound};
use vstd::arithmetic::power2::pow2;
use vstd::prelude::*;

use super::laws::{
    consistent, in_order, law_sorting_keeps_every_row, law_sorting_orders, law_value_order_flips,
};
use super::merge::{
    all_cells, combined, copies, finalized, first_columns, first_values, gathered, group_key,
    grouped, grouped_merge, grouped_table, having_resolves, integer_sum, kept, largest, merged,
    output_cell, predicate_resolves, present, resolves, row_resolves, rows_resolve, set_rows,
    smallest, sorted_rows, surviving, tree_rows, truth, visible_row, CellModel, FoldModel,
    GroupModel, Keep, RealFold, Row,
};
use super::order::{
    byte_codes, char_codes, key_order, lex_order, row_order, same_row, value_order,
};
use super::plan::{
    Combine, CompareOp, GroupedModel, OperandModel, OutputCol, PlanModel, PostProcessModel,
    PredicateModel, SetTree, SortKey,
};
use super::syntax::SetKind;
use crate::storage::doubles::{lemma_integer_beside_real, nearest_even, Order};
use crate::storage::exec::{Datum, Table};

verus! {

// ---- the order of values -----------------------------------------------------------------------

proof fn lemma_first_difference(a: Seq<int>, b: Seq<int>, i: int)
    requires
        0 <= i < a.len(),
        i < b.len(),
        forall|k: int| 0 <= k < i ==> #[trigger] a[k] == b[k],
        a[i] < b[i],
    ensures
        lex_order(a, b) == Order::Less,
    decreases i,
{
    if i > 0 {
        assert(a[0] == b[0]);
        let (x, y) = (a.drop_first(), b.drop_first());
        assert forall|k: int| 0 <= k < i - 1 implies #[trigger] x[k] == y[k] by {
            assert(a[k + 1] == b[k + 1]);
        }
        lemma_first_difference(x, y, i - 1);
    }
}

proof fn lemma_beginning_first(a: Seq<int>, b: Seq<int>)
    requires
        a.len() <= b.len(),
        forall|k: int| 0 <= k < a.len() ==> #[trigger] a[k] == b[k],
    ensures
        lex_order(a, b) == (if a.len() == b.len() {
            Order::Equal
        } else {
            Order::Less
        }),
    decreases a.len(),
{
    if a.len() > 0 {
        assert(a[0] == b[0]);
        let (x, y) = (a.drop_first(), b.drop_first());
        assert forall|k: int| 0 <= k < x.len() implies #[trigger] x[k] == y[k] by {
            assert(a[k + 1] == b[k + 1]);
        }
        lemma_beginning_first(x, y);
    }
}

/// Integers are ordered by size, and only equal ones are equal.
pub proof fn law_integers_by_size(m: i64, n: i64)
    ensures
        (value_order(Datum::Integer(m), Datum::Integer(n)) == Order::Less) <==> m < n,
        (value_order(Datum::Integer(m), Datum::Integer(n)) == Order::Equal) <==> m == n,
        (value_order(Datum::Integer(m), Datum::Integer(n)) == Order::Greater) <==> m > n,
{
}

/// NULL comes before every number, a number before every text, and a text before every blob.
pub proof fn law_storage_classes_in_order(
    n: i64,
    bits: u64,
    text: Seq<char>,
    blob: Seq<u8>,
    other: Datum,
)
    ensures
        value_order(Datum::Null, other) == (if other is Null {
            Order::Equal
        } else {
            Order::Less
        }),
        value_order(Datum::Integer(n), Datum::Text(text)) == Order::Less,
        value_order(Datum::Real(bits), Datum::Text(text)) == Order::Less,
        value_order(Datum::Integer(n), Datum::Blob(blob)) == Order::Less,
        value_order(Datum::Real(bits), Datum::Blob(blob)) == Order::Less,
        value_order(Datum::Text(text), Datum::Blob(blob)) == Order::Less,
        value_order(Datum::Text(text), Datum::Integer(n)) == Order::Greater,
        value_order(Datum::Text(text), Datum::Real(bits)) == Order::Greater,
        value_order(Datum::Blob(blob), Datum::Integer(n)) == Order::Greater,
        value_order(Datum::Blob(blob), Datum::Real(bits)) == Order::Greater,
        value_order(Datum::Blob(blob), Datum::Text(text)) == Order::Greater,
        !(other is Null) ==> value_order(other, Datum::Null) == Order::Greater,
{
}

/// Of two texts the one with the smaller character at the first difference comes first; one that
/// the other begins with comes first.
pub proof fn law_texts_by_first_difference(a: Seq<char>, b: Seq<char>, i: int)
    requires
        0 <= i <= a.len(),
        i <= b.len(),
        forall|k: int| 0 <= k < i ==> #[trigger] a[k] == b[k],
    ensures
        i < a.len() && i < b.len() && (a[i] as int) < (b[i] as int) ==> value_order(
            Datum::Text(a),
            Datum::Text(b),
        ) == Order::Less && value_order(Datum::Text(b), Datum::Text(a)) == Order::Greater,
        i == a.len() && i < b.len() ==> value_order(Datum::Text(a), Datum::Text(b)) == Order::Less
            && value_order(Datum::Text(b), Datum::Text(a)) == Order::Greater,
        i == a.len() && i == b.len() ==> value_order(Datum::Text(a), Datum::Text(b))
            == Order::Equal,
{
    let (x, y) = (char_codes(a), char_codes(b));
    law_value_order_flips(Datum::Text(a), Datum::Text(b));
    assert forall|k: int| 0 <= k < i implies #[trigger] x[k] == y[k] by {
        assert(a[k] == b[k]);
    }
    if i < a.len() && i < b.len() {
        if (a[i] as int) < (b[i] as int) {
            lemma_first_difference(x, y, i);
        }
    } else if i == a.len() {
        lemma_beginning_first(x, y);
    }
}

/// Of two blobs the one with the smaller byte at the first difference comes first; one that the
/// other begins with comes first.
pub proof fn law_blobs_by_first_difference(a: Seq<u8>, b: Seq<u8>, i: int)
    requires
        0 <= i <= a.len(),
        i <= b.len(),
        forall|k: int| 0 <= k < i ==> #[trigger] a[k] == b[k],
    ensures
        i < a.len() && i < b.len() && a[i] < b[i] ==> value_order(Datum::Blob(a), Datum::Blob(b))
            == Order::Less && value_order(Datum::Blob(b), Datum::Blob(a)) == Order::Greater,
        i == a.len() && i < b.len() ==> value_order(Datum::Blob(a), Datum::Blob(b)) == Order::Less
            && value_order(Datum::Blob(b), Datum::Blob(a)) == Order::Greater,
        i == a.len() && i == b.len() ==> value_order(Datum::Blob(a), Datum::Blob(b))
            == Order::Equal,
{
    let (x, y) = (byte_codes(a), byte_codes(b));
    law_value_order_flips(Datum::Blob(a), Datum::Blob(b));
    assert forall|k: int| 0 <= k < i implies #[trigger] x[k] == y[k] by {
        assert(a[k] == b[k]);
    }
    if i < a.len() && i < b.len() {
        if a[i] < b[i] {
            lemma_first_difference(x, y, i);
        }
    } else if i == a.len() {
        lemma_beginning_first(x, y);
    }
}

/// Reals that are numbers: of two that are not negative the one with the smaller pattern comes
/// first, of two negative ones the one with the larger pattern, and a negative one before any that
/// is not. The two zeros are equal.
pub proof fn law_reals_by_size(a: u64, b: u64)
    requires
        a % 0x8000_0000_0000_0000 <= 0x7ff0_0000_0000_0000,
        b % 0x8000_0000_0000_0000 <= 0x7ff0_0000_0000_0000,
    ensures
        ({
            let order = value_order(Datum::Real(a), Datum::Real(b));
            let top = 0x8000_0000_0000_0000u64;
            &&& a == b ==> order == Order::Equal
            &&& a < b < top ==> order == Order::Less
            &&& b < a < top ==> order == Order::Greater
            &&& top <= a < b ==> order == Order::Greater
            &&& top <= b < a ==> order == Order::Less
            &&& a > top && b < top ==> order == Order::Less
            &&& a < top && b > top ==> order == Order::Greater
            &&& a == top && b == 0 ==> order == Order::Equal
            &&& a == 0 && b == top ==> order == Order::Equal
            &&& a == top && 0 < b < top ==> order == Order::Less
        }),
{
}

proof fn lemma_value_itself(v: Datum)
    ensures
        value_order(v, v) == Order::Equal,
{
    match v {
        Datum::Text(s) => law_texts_by_first_difference(s, s, s.len() as int),
        Datum::Blob(s) => law_blobs_by_first_difference(s, s, s.len() as int),
        _ => {},
    }
}

// ---- the order of rows -------------------------------------------------------------------------

/// Whether two rows hold the same values in the columns of the first `k` keys.
pub open spec fn agree_on(a: Row, b: Row, keys: Seq<SortKey>, k: int) -> bool {
    forall|j: int|
        0 <= j < k ==> (#[trigger] keys[j]).column < a.len() && keys[j].column < b.len()
            && a[keys[j].column as int] == b[keys[j].column as int]
}

proof fn lemma_decided_at(a: Row, b: Row, keys: Seq<SortKey>, i: int, k: int)
    requires
        0 <= i <= k <= keys.len(),
        agree_on(a, b, keys, k),
    ensures
        row_order(a, b, keys, i) == row_order(a, b, keys, k),
    decreases k - i,
{
    if i < k {
        assert(keys[i].column < a.len());
        lemma_value_itself(a[keys[i].column as int]);
        lemma_decided_at(a, b, keys, i + 1, k);
    }
}

/// The first key whose column tells two rows apart decides which comes first. An ascending key puts
/// the smaller value first and a descending one the greater; NULL goes where the key says, whichever
/// way it sorts. Of two integers this is their size.
pub proof fn law_first_telling_key_decides(a: Row, b: Row, keys: Seq<SortKey>, k: int)
    requires
        0 <= k < keys.len(),
        agree_on(a, b, keys, k),
        keys[k].column < a.len(),
        keys[k].column < b.len(),
    ensures
        ({
            let x = a[keys[k].column as int];
            let y = b[keys[k].column as int];
            let order = row_order(a, b, keys, 0);
            let down = keys[k].descending;
            &&& !(x is Null) && !(y is Null) && value_order(x, y) == Order::Less ==> order == (
            if down {
                Order::Greater
            } else {
                Order::Less
            })
            &&& !(x is Null) && !(y is Null) && value_order(x, y) == Order::Greater ==> order == (
            if down {
                Order::Less
            } else {
                Order::Greater
            })
            &&& x is Integer && y is Integer && x->Integer_0 < y->Integer_0 ==> order == (if down {
                Order::Greater
            } else {
                Order::Less
            })
            &&& x is Integer && y is Integer && x->Integer_0 > y->Integer_0 ==> order == (if down {
                Order::Less
            } else {
                Order::Greater
            })
            &&& x is Null && !(y is Null) ==> order == (if keys[k].nulls_first {
                Order::Less
            } else {
                Order::Greater
            })
            &&& !(x is Null) && y is Null ==> order == (if keys[k].nulls_first {
                Order::Greater
            } else {
                Order::Less
            })
        }),
{
    lemma_decided_at(a, b, keys, 0, k);
}

/// Rows that hold the same values in the columns of all keys are not told apart.
pub proof fn law_agreeing_rows_tie(a: Row, b: Row, keys: Seq<SortKey>)
    requires
        agree_on(a, b, keys, keys.len() as int),
    ensures
        row_order(a, b, keys, 0) == Order::Equal,
{
    lemma_decided_at(a, b, keys, 0, keys.len() as int);
}

/// Two rows are the same where they have as many values, and each pair of values is equal: of
/// integers, where they are the same integers.
pub proof fn law_same_rows_hold_equal_values(a: Row, b: Row)
    ensures
        same_row(a, b) <==> a.len() == b.len() && forall|i: int|
            0 <= i < a.len() ==> value_order(#[trigger] a[i], b[i]) == Order::Equal,
    decreases a.len(),
{
    if a.len() > 0 && b.len() > 0 {
        let (x, y) = (a.drop_first(), b.drop_first());
        law_same_rows_hold_equal_values(x, y);
        if same_row(a, b) {
            assert forall|i: int| 0 <= i < a.len() implies value_order(#[trigger] a[i], b[i])
                == Order::Equal by {
                if i > 0 {
                    assert(value_order(x[i - 1], y[i - 1]) == Order::Equal);
                }
            }
        }
        if a.len() == b.len() && forall|i: int|
            0 <= i < a.len() ==> value_order(#[trigger] a[i], b[i]) == Order::Equal {
            assert(value_order(a[0], b[0]) == Order::Equal);
            assert forall|i: int| 0 <= i < x.len() implies value_order(#[trigger] x[i], y[i])
                == Order::Equal by {
                assert(value_order(a[i + 1], b[i + 1]) == Order::Equal);
            }
        }
    }
}

/// Groups stand in the order of the first value in which their keys differ.
pub proof fn law_group_keys_by_first_difference(a: Row, b: Row, i: int)
    requires
        0 <= i < a.len(),
        i < b.len(),
        forall|k: int| 0 <= k < i ==> #[trigger] a[k] == b[k],
        value_order(a[i], b[i]) != Order::Equal,
    ensures
        key_order(a, b) == value_order(a[i], b[i]),
    decreases i,
{
    if i > 0 {
        assert(a[0] == b[0]);
        lemma_value_itself(a[0]);
        let (x, y) = (a.drop_first(), b.drop_first());
        assert forall|k: int| 0 <= k < i - 1 implies #[trigger] x[k] == y[k] by {
            assert(a[k + 1] == b[k + 1]);
        }
        law_group_keys_by_first_difference(x, y, i - 1);
    }
}

/// A column that one of the rows lacks tells nothing: the next key decides.
pub proof fn law_missing_columns_decide_nothing(a: Row, b: Row, keys: Seq<SortKey>, k: int)
    requires
        0 <= k < keys.len(),
        keys[k].column >= a.len() || keys[k].column >= b.len(),
    ensures
        row_order(a, b, keys, k) == row_order(a, b, keys, k + 1),
{
}

/// The key of a group is made of the values in the grouping columns.
pub proof fn law_group_keys(row: Row, columns: Seq<usize>, i: int)
    requires
        0 <= i < columns.len(),
    ensures
        group_key(row, columns).len() == columns.len(),
        columns[i] < row.len() ==> group_key(row, columns)[i] == row[columns[i] as int],
        columns[i] >= row.len() ==> group_key(row, columns)[i] is Null,
{
}

/// An integer beside a real is compared by size: with an exponent of `e` and a mantissa of `m`, the
/// real is `m * 2^(e - 52)`. With the signs changed the order is the other way round.
pub proof fn law_integers_beside_reals(n: i64, bits: u64, e: nat, m: nat)
    requires
        0 < n <= 0x20_0000_0000_0000,
        e <= 52,
        0x10_0000_0000_0000 <= m < 0x20_0000_0000_0000,
        bits == (e + 1022) * 0x10_0000_0000_0000 + m,
    ensures
        ({
            let order = value_order(Datum::Integer(n), Datum::Real(bits));
            let scaled = n * pow2((52 - e) as nat);
            &&& scaled < m <==> order == Order::Less
            &&& scaled == m <==> order == Order::Equal
            &&& scaled > m <==> order == Order::Greater
        }),
        value_order(
            Datum::Integer((-n) as i64),
            Datum::Real((bits + 0x8000_0000_0000_0000) as u64),
        ) == value_order(Datum::Real(bits), Datum::Integer(n)),
        value_order(Datum::Integer(0), Datum::Real(bits)) == Order::Less,
        value_order(Datum::Integer((-n) as i64), Datum::Real(bits)) == Order::Less,
{
    lemma_integer_beside_real(n as nat, e, m);
    lemma_integer_beside_real(1, e, m);
}

// ---- sorted rows -------------------------------------------------------------------------------

/// Rows sorted by a key go down its column where it is descending, and up where it is ascending:
/// of two values that are not NULL, neither one that was told to come later is the greater.
pub proof fn law_sorted_by_first_key(rows: Seq<Row>, keys: Seq<SortKey>, i: int, j: int)
    requires
        keys.len() > 0,
        consistent(rows, keys),
        forall|r: int| 0 <= r < rows.len() ==> keys[0].column < (#[trigger] rows[r]).len(),
        0 <= i < j < sorted_rows(rows, keys).len(),
    ensures
        ({
            let x = sorted_rows(rows, keys)[i][keys[0].column as int];
            let y = sorted_rows(rows, keys)[j][keys[0].column as int];
            &&& !(x is Null) && !(y is Null) && keys[0].descending ==> value_order(x, y)
                != Order::Less
            &&& !(x is Null) && !(y is Null) && !keys[0].descending ==> value_order(x, y)
                != Order::Greater
            &&& x is Integer && y is Integer && keys[0].descending ==> x->Integer_0
                >= y->Integer_0
            &&& x is Integer && y is Integer && !keys[0].descending ==> x->Integer_0
                <= y->Integer_0
            &&& keys[0].nulls_first && y is Null ==> x is Null
            &&& !keys[0].nulls_first && x is Null ==> y is Null
        }),
{
    let out = sorted_rows(rows, keys);
    law_sorting_orders(rows, keys);
    law_sorting_keeps_every_row(rows, keys);
    lemma_contained(rows, out, out[i]);
    lemma_contained(rows, out, out[j]);
    assert(row_order(out[i], out[j], keys, 0) != Order::Greater);
    law_first_telling_key_decides(out[i], out[j], keys, 0);
}

proof fn lemma_contained(rows: Seq<Row>, out: Seq<Row>, row: Row)
    requires
        rows.to_multiset() == out.to_multiset(),
        out.contains(row),
    ensures
        rows.contains(row),
{
    broadcast use vstd::seq_lib::group_to_multiset_ensures;

    assert(out.to_multiset().count(row) > 0);
    assert(rows.to_multiset().count(row) > 0);
}

/// The rows of the shards are brought together one shard after the other, each with all its rows.
pub proof fn law_gathering_joins(parts: Seq<Table>, more: Seq<Table>, one: Table)
    ensures
        gathered(parts + more) == gathered(parts) + gathered(more),
        gathered(seq![one]) == one.rows,
        gathered(Seq::<Table>::empty()) == Seq::<Row>::empty(),
    decreases more.len(),
{
    reveal_with_fuel(gathered, 2);
    assert(seq![one].drop_last() =~= Seq::<Table>::empty());
    assert(gathered(seq![one]) =~= one.rows);
    if more.len() == 0 {
        assert(parts + more =~= parts);
        assert(gathered(parts) + gathered(more) =~= gathered(parts));
    } else {
        assert((parts + more).drop_last() =~= parts + more.drop_last());
        law_gathering_joins(parts, more.drop_last(), one);
        assert(gathered(parts + more) =~= gathered(parts) + gathered(more));
    }
}

/// A page of rows: of all rows in their order, those from the offset on, as many as the limit. The
/// rows are those that were given, sorted where there are keys.
pub proof fn law_a_page_of_rows(
    rows: Seq<Row>,
    keys: Seq<SortKey>,
    offset: usize,
    limit: Option<usize>,
    i: int,
)
    ensures
        ({
            let page = finalized(rows, keys, offset, limit);
            let all = if keys.len() > 0 {
                sorted_rows(rows, keys)
            } else {
                rows
            };
            let left = if offset < rows.len() {
                rows.len() - offset
            } else {
                0
            };
            &&& page.len() == (match limit {
                Some(n) => if n < left {
                    n as int
                } else {
                    left
                },
                None => left,
            })
            &&& 0 <= i < page.len() ==> page[i] == all[offset + i]
        }),
{
    law_sorting_keeps_every_row(rows, keys);
}

/// A merge in the order of keys holds the first rows of all shards' rows: it goes by the keys, it
/// holds as many rows as the limit or as there are, and no row that it leaves out comes before one
/// that it holds.
pub proof fn law_merge_gives_the_first_rows<F: Fn(&RealFold) -> u64>(
    keys: Seq<SortKey>,
    limit: Option<usize>,
    parts: Seq<Table>,
    fold: F,
    r: Table,
)
    requires
        merged(PlanModel::Merge { keys, limit }, parts, fold, r),
        consistent(gathered(parts), keys),
    ensures
        in_order(r.rows, keys),
        r.rows.len() == (match limit {
            Some(n) => if n < gathered(parts).len() {
                n as nat
            } else {
                gathered(parts).len()
            },
            None => gathered(parts).len(),
        }),
        exists|rest: Seq<Row>|
            (r.rows + rest).to_multiset() == gathered(parts).to_multiset() && forall|i: int, j: int|
                0 <= i < r.rows.len() && 0 <= j < rest.len() ==> row_order(
                    #[trigger] r.rows[i],
                    #[trigger] rest[j],
                    keys,
                    0,
                ) != Order::Greater,
{
    let rows = gathered(parts);
    let all = sorted_rows(rows, keys);
    law_sorting_orders(rows, keys);
    law_sorting_keeps_every_row(rows, keys);
    let rest = all.skip(r.rows.len() as int);
    assert(r.rows + rest =~= all);
    assert forall|i: int, j: int| 0 <= i < r.rows.len() && 0 <= j < rest.len() implies row_order(
        #[trigger] r.rows[i],
        #[trigger] rest[j],
        keys,
        0,
    ) != Order::Greater by {
        assert(r.rows[i] == all[i]);
        assert(rest[j] == all[r.rows.len() + j]);
    }
}

/// An unordered fan-out gives the shards' rows, one shard after the other, up to the limit.
pub proof fn law_concat_gives_leading_rows<F: Fn(&RealFold) -> u64>(
    limit: Option<usize>,
    parts: Seq<Table>,
    fold: F,
    r: Table,
    i: int,
)
    requires
        merged(PlanModel::Concat { limit }, parts, fold, r),
    ensures
        limit is None ==> r.rows == gathered(parts),
        limit matches Some(n) ==> r.rows.len() == (if n < gathered(parts).len() {
            n as nat
        } else {
            gathered(parts).len()
        }),
        0 <= i < r.rows.len() ==> r.rows[i] == gathered(parts)[i],
{
}

/// `DISTINCT`, `ORDER BY`, `OFFSET` and `LIMIT` on the coordinator: the page of the shards' rows,
/// each once where they are to be distinct.
pub proof fn law_post_processing<F: Fn(&RealFold) -> u64>(
    p: PostProcessModel,
    parts: Seq<Table>,
    fold: F,
    r: Table,
    row: Row,
)
    requires
        merged(PlanModel::PostProcess(p), parts, fold, r),
        super::laws::sameness(gathered(parts)),
        gathered(parts).contains(row),
    ensures
        !p.distinct ==> r.rows == finalized(gathered(parts), p.order_by, p.offset, p.limit),
        p.distinct ==> exists|once: Seq<Row>|
            copies(once, row) == 1 && r.rows == #[trigger] finalized(
                once,
                p.order_by,
                p.offset,
                p.limit,
            ),
{
    if p.distinct {
        let all = gathered(parts);
        assert(all + Seq::<Row>::empty() =~= all);
        super::laws::law_set_operators_count_copies(all, Seq::empty(), row);
        let once = kept(all, Seq::empty(), Keep::First);
        assert(copies(once, row) == 1);
    }
}

/// The columns of an answer are those of the first shard that names any.
pub proof fn law_columns_come_from_the_first_shard(parts: Seq<Table>, i: int)
    requires
        0 <= i < parts.len(),
        parts[i].columns.len() > 0,
        forall|k: int| 0 <= k < i ==> (#[trigger] parts[k]).columns.len() == 0,
    ensures
        first_columns(parts) == parts[i].columns,
    decreases i,
{
    if i > 0 {
        assert(parts[0].columns.len() == 0);
        let rest = parts.drop_first();
        assert forall|k: int| 0 <= k < i - 1 implies (#[trigger] rest[k]).columns.len() == 0 by {
            assert(parts[k + 1].columns.len() == 0);
        }
        law_columns_come_from_the_first_shard(rest, i - 1);
    }
}

/// A set operation takes its left side and its right side as they are written, whatever they are
/// made of; a leaf is the rows of its branch.
pub proof fn law_set_trees_keep_their_sides(
    branches: Seq<Table>,
    i: usize,
    op: SetKind,
    all: bool,
    left: SetTree,
    right: SetTree,
)
    ensures
        i < branches.len() ==> tree_rows(SetTree::Leaf(i), branches) == branches[i as int].rows,
        tree_rows(
            SetTree::Op { op, all, left: Box::new(left), right: Box::new(right) },
            branches,
        ) == set_rows(op, all, tree_rows(left, branches), tree_rows(right, branches)),
{
}

/// The rows that are the same as one are counted one by one.
pub proof fn law_copies_are_counted(rows: Seq<Row>, more: Row, row: Row)
    ensures
        copies(Seq::<Row>::empty(), row) == 0,
        same_row(more, row) ==> copies(rows.push(more), row) == copies(rows, row) + 1,
        !same_row(more, row) ==> copies(rows.push(more), row) == copies(rows, row),
{
    assert(rows.push(more).drop_last() =~= rows);
}

proof fn lemma_kept_is_drawn(left: Seq<Row>, right: Seq<Row>, keep: Keep, row: Row)
    requires
        kept(left, right, keep).contains(row),
    ensures
        left.contains(row),
    decreases left.len(),
{
    if left.len() > 0 {
        let before = left.drop_last();
        let rest = kept(before, right, keep);
        let all = kept(left, right, keep);
        assert(left[left.len() - 1] == left.last());
        let k = choose|k: int| 0 <= k < all.len() && all[k] == row;
        if k < rest.len() {
            assert(rest[k] == row);
            lemma_kept_is_drawn(before, right, keep, row);
            let j = choose|j: int| 0 <= j < before.len() && before[j] == row;
            assert(left[j] == row);
        }
    }
}

/// A set operation makes up no row: what it gives is of its left side, or, of a union, of either.
pub proof fn law_set_results_are_drawn(
    op: SetKind,
    all: bool,
    left: Seq<Row>,
    right: Seq<Row>,
    row: Row,
)
    requires
        set_rows(op, all, left, right).contains(row),
    ensures
        op != SetKind::Union ==> left.contains(row),
        op == SetKind::Union ==> left.contains(row) || right.contains(row),
{
    let found = if op == SetKind::Union {
        left + right
    } else {
        left
    };
    if op == SetKind::Union {
        if !all {
            lemma_kept_is_drawn(found, Seq::empty(), Keep::First, row);
        }
        let k = choose|k: int| 0 <= k < found.len() && found[k] == row;
        if k < left.len() {
            assert(left[k] == row);
        } else {
            assert(right[k - left.len()] == row);
        }
    } else if op == SetKind::Intersect {
        lemma_kept_is_drawn(
            left,
            right,
            if all {
                Keep::Shared
            } else {
                Keep::FirstShared
            },
            row,
        );
    } else {
        lemma_kept_is_drawn(
            left,
            right,
            if all {
                Keep::Beyond
            } else {
                Keep::FirstMissing
            },
            row,
        );
    }
}

/// A plan for one shard gives that shard's answer as it is.
pub proof fn law_one_shard_answers_for_itself<F: Fn(&RealFold) -> u64>(
    part: Table,
    fold: F,
    r: Table,
)
    requires
        merged(PlanModel::SingleShard, seq![part], fold, r),
    ensures
        r == part,
{
}

// ---- aggregates --------------------------------------------------------------------------------

pub open spec fn integer_values(numbers: Seq<i64>) -> Seq<Datum> {
    numbers.map_values(|n: i64| Datum::Integer(n))
}

pub open spec fn total(numbers: Seq<i64>) -> int {
    numbers.fold_left(0, |sum: int, n: i64| sum + n)
}

proof fn lemma_total(numbers: Seq<i64>)
    ensures
        integer_sum(integer_values(numbers)) == total(numbers),
    decreases numbers.len(),
{
    if numbers.len() > 0 {
        lemma_total(numbers.drop_last());
        assert(integer_values(numbers).drop_last() =~= integer_values(numbers.drop_last()));
    }
}

proof fn lemma_integers_present(numbers: Seq<i64>)
    ensures
        present(integer_values(numbers)) == integer_values(numbers),
    decreases numbers.len(),
{
    let values = integer_values(numbers);
    if numbers.len() > 0 {
        lemma_integers_present(numbers.drop_last());
        assert(values.drop_last() =~= integer_values(numbers.drop_last()));
        assert(present(values) =~= values);
    } else {
        assert(present(values) =~= values);
    }
}

/// The sum of integers is their sum.
pub proof fn law_sum_of_integers(numbers: Seq<i64>)
    requires
        numbers.len() > 0,
        i64::MIN <= total(numbers) <= i64::MAX,
    ensures
        combined(Combine::Sum, integer_values(numbers)) == CellModel::Value(
            Datum::Integer(total(numbers) as i64),
        ),
{
    lemma_total(numbers);
    lemma_integers_present(numbers);
}

proof fn lemma_present(values: Seq<Datum>, v: Datum)
    ensures
        present(values).contains(v) <==> values.contains(v) && !(v is Null),
    decreases values.len(),
{
    if values.len() > 0 {
        let rest = values.drop_last();
        lemma_present(rest, v);
        let last = values.last();
        if values.contains(v) {
            let i = choose|i: int| 0 <= i < values.len() && values[i] == v;
            if i < rest.len() {
                assert(rest[i] == v);
            }
        }
        if rest.contains(v) {
            let i = choose|i: int| 0 <= i < rest.len() && rest[i] == v;
            assert(values[i] == v);
        }
        assert(values[values.len() - 1] == last);
        let some = present(values);
        if last is Null {
            assert(some == present(rest));
        } else {
            assert(some == present(rest).push(last));
            if present(rest).contains(v) {
                let i = choose|i: int| 0 <= i < present(rest).len() && present(rest)[i] == v;
                assert(some[i] == v);
            }
            assert(some[some.len() - 1] == last);
            if some.contains(v) && v != last {
                let i = choose|i: int| 0 <= i < some.len() && some[i] == v;
                assert(present(rest)[i] == v);
            }
        }
    }
}

/// NULLs do not count: the values that do are those that are not NULL, all of them and no other, and
/// where there are none every aggregate is NULL.
pub proof fn law_nulls_do_not_count(kind: Combine, values: Seq<Datum>, more: Seq<Datum>)
    requires
        forall|i: int| 0 <= i < more.len() ==> (#[trigger] more[i]) is Null,
    ensures
        combined(kind, values + more) == combined(kind, values),
        combined(kind, more) == CellModel::Value(Datum::Null),
    decreases more.len(),
{
    if more.len() == 0 {
        assert(values + more =~= values);
    } else {
        assert((values + more).drop_last() =~= values + more.drop_last());
        assert(more[more.len() - 1] is Null);
        assert forall|i: int| 0 <= i < more.drop_last().len() implies (
        #[trigger] more.drop_last()[i]) is Null by {
            assert(more[i] is Null);
        }
        law_nulls_do_not_count(kind, values, more.drop_last());
        assert(present(values + more) == present(values + more.drop_last()));
        assert(present(more) == present(more.drop_last()));
    }
}

proof fn lemma_extremes_hold(values: Seq<Datum>)
    requires
        values.len() > 0,
        super::fanout::exact_values(values, true) || super::fanout::exact_values(values, false),
    ensures
        values.contains(smallest(values)),
        values.contains(largest(values)),
        forall|i: int|
            0 <= i < values.len() ==> value_order(smallest(values), #[trigger] values[i])
                != Order::Greater && value_order(largest(values), values[i]) != Order::Less,
    decreases values.len(),
{
    let mixed = super::fanout::exact_values(values, true);
    if values.len() == 1 {
        assert(values[0] == smallest(values));
        lemma_value_itself(values[0]);
    } else {
        let rest = values.drop_last();
        let last = values.last();
        assert forall|i: int| 0 <= i < rest.len() implies super::laws::exact(
            #[trigger] rest[i],
            mixed,
        ) by {
            assert(super::laws::exact(values[i], mixed));
        }
        assert(super::fanout::exact_values(rest, mixed));
        lemma_extremes_hold(rest);
        let (s, l) = (smallest(rest), largest(rest));
        let p = choose|i: int| 0 <= i < rest.len() && rest[i] == s;
        let q = choose|i: int| 0 <= i < rest.len() && rest[i] == l;
        assert(values[p] == s && values[q] == l);
        assert(values[values.len() - 1] == last);
        assert(super::laws::exact(s, mixed) && super::laws::exact(l, mixed));
        assert(super::laws::exact(last, mixed)) by {
            assert(super::laws::exact(values[values.len() - 1], mixed));
        }
        lemma_value_itself(last);
        law_value_order_flips(s, last);
        law_value_order_flips(l, last);
        assert forall|i: int| 0 <= i < values.len() implies value_order(
            smallest(values),
            #[trigger] values[i],
        ) != Order::Greater && value_order(largest(values), values[i]) != Order::Less by {
            if i < rest.len() {
                let v = rest[i];
                assert(v == values[i]);
                assert(super::laws::exact(v, mixed));
                law_value_order_flips(l, v);
                law_value_order_flips(last, v);
                if value_order(s, last) == Order::Greater {
                    super::laws::law_value_order_transitive(last, s, v, mixed);
                }
                if value_order(l, last) != Order::Greater {
                    super::laws::law_value_order_transitive(v, l, last, mixed);
                }
            }
        }
    }
}

/// The smallest and the largest of some values are among them, and no value that counts is smaller
/// or larger.
pub proof fn law_extremes_are_extreme(values: Seq<Datum>, v: Datum)
    requires
        super::fanout::exact_values(values, true) || super::fanout::exact_values(values, false),
        values.contains(v),
        !(v is Null),
    ensures
        combined(Combine::Min, values) matches CellModel::Value(least) && values.contains(least)
            && !(least is Null) && value_order(least, v) != Order::Greater,
        combined(Combine::Max, values) matches CellModel::Value(most) && values.contains(most)
            && !(most is Null) && value_order(most, v) != Order::Less,
{
    let mixed = super::fanout::exact_values(values, true);
    let some = present(values);
    lemma_present(values, v);
    assert forall|i: int| 0 <= i < some.len() implies super::laws::exact(#[trigger] some[i], mixed) by {
        lemma_present(values, some[i]);
        assert(some.contains(some[i]));
        let k = choose|k: int| 0 <= k < values.len() && values[k] == some[i];
        assert(super::laws::exact(values[k], mixed));
    }
    assert(super::fanout::exact_values(some, mixed));
    lemma_extremes_hold(some);
    lemma_present(values, smallest(some));
    lemma_present(values, largest(some));
    let i = choose|i: int| 0 <= i < some.len() && some[i] == v;
    assert(value_order(smallest(some), some[i]) != Order::Greater);
}

/// A sum with a value among it that is no integer is left to arithmetic on reals, over the values
/// that are not NULL.
pub proof fn law_other_sums_are_real(values: Seq<Datum>, v: Datum)
    requires
        values.contains(v),
        !(v is Null),
        !(v is Integer),
    ensures
        combined(Combine::Sum, values) matches CellModel::Fold(FoldModel::Sum(some)) && some
            == present(values),
        present(values).contains(v),
{
    lemma_present(values, v);
    let i = choose|i: int| 0 <= i < present(values).len() && present(values)[i] == v;
    assert(!(present(values)[i] is Integer));
}

/// A mean is the shards' sums over the total of their counts, and NULL where they counted nothing.
pub proof fn law_mean_is_sums_over_counts(
    group: GroupModel,
    sum_col: usize,
    count_col: usize,
    counts: Seq<i64>,
    i: int,
)
    requires
        group.rows.len() == counts.len(),
        forall|k: int|
            0 <= k < counts.len() ==> count_col < (#[trigger] group.rows[k]).len() && sum_col
                < group.rows[k].len() && group.rows[k][count_col as int] == Datum::Integer(
                counts[k],
            ),
    ensures
        ({
            let cell = output_cell(group, OutputCol::Avg { sum_col, count_col });
            &&& total(counts) == 0 ==> cell == CellModel::Value(Datum::Null)
            &&& total(counts) != 0 ==> (cell matches CellModel::Fold(
                FoldModel::Mean { sums, count },
            ) && count == total(counts) && sums.len() == group.rows.len() && (0 <= i
                < sums.len() ==> sums[i] == group.rows[i][sum_col as int]))
        }),
{
    let values = super::merge::column_values(group.rows, count_col);
    assert(values =~= integer_values(counts)) by {
        assert forall|k: int| 0 <= k < counts.len() implies values[k] == integer_values(
            counts,
        )[k] by {
            assert(count_col < group.rows[k].len());
        }
    }
    lemma_total(counts);
    if 0 <= i < counts.len() {
        assert(sum_col < group.rows[i].len());
    }
}

/// The columns of a group's row: a grouping column is the value of the group's key, and an
/// aggregate is that of the column of its rows.
pub proof fn law_group_columns(group: GroupModel, kind: Combine, col: usize, values: Seq<Datum>)
    requires
        values.len() == group.rows.len(),
        forall|k: int|
            0 <= k < values.len() ==> col < (#[trigger] group.rows[k]).len() && group.rows[k][
                col as int
            ] == values[k],
    ensures
        col < group.key.len() ==> output_cell(group, OutputCol::Group(col)) == CellModel::Value(
            group.key[col as int],
        ),
        output_cell(group, OutputCol::Combine { kind, col }) == combined(kind, values),
{
    let found = super::merge::column_values(group.rows, col);
    assert(found =~= values) by {
        assert forall|k: int| 0 <= k < values.len() implies found[k] == values[k] by {
            assert(col < group.rows[k].len());
        }
    }
}

/// The parts of an aggregate without groups: the first value of the row that each shard answers.
pub proof fn law_aggregate_of_the_shards<F: Fn(&RealFold) -> u64>(
    combine: Combine,
    values: Seq<Datum>,
    parts: Seq<Table>,
    fold: F,
    r: Table,
)
    requires
        merged(PlanModel::Aggregate { combine }, parts, fold, r),
        parts.len() == values.len(),
        forall|k: int|
            0 <= k < parts.len() ==> (#[trigger] parts[k]).rows.len() > 0 && parts[k].rows[0].len()
                > 0 && parts[k].rows[0][0] == values[k],
    ensures
        r.rows.len() == 1,
        r.rows[0].len() == 1,
        combined(combine, values) matches CellModel::Value(v) ==> r.rows[0][0] == v,
{
    lemma_first_values(parts, values);
}

/// A shard that answers no row adds nothing to an aggregate, and one that answers a row adds the
/// first value of it.
pub proof fn law_shards_without_rows(parts: Seq<Table>, part: Table)
    ensures
        part.rows.len() == 0 ==> first_values(parts.push(part)) == first_values(parts),
        part.rows.len() > 0 && part.rows[0].len() > 0 ==> first_values(parts.push(part))
            == first_values(parts).push(part.rows[0][0]),
        first_values(Seq::<Table>::empty()).len() == 0,
{
    assert(parts.push(part).drop_last() =~= parts);
}

proof fn lemma_first_values(parts: Seq<Table>, values: Seq<Datum>)
    requires
        parts.len() == values.len(),
        forall|k: int|
            0 <= k < parts.len() ==> (#[trigger] parts[k]).rows.len() > 0 && parts[k].rows[0].len()
                > 0 && parts[k].rows[0][0] == values[k],
    ensures
        first_values(parts) == values,
    decreases parts.len(),
{
    if parts.len() > 0 {
        let (p, v) = (parts.drop_last(), values.drop_last());
        assert forall|k: int| 0 <= k < p.len() implies (#[trigger] p[k]).rows.len() > 0
            && p[k].rows[0].len() > 0 && p[k].rows[0][0] == v[k] by {
            assert(parts[k].rows.len() > 0);
        }
        lemma_first_values(p, v);
        assert(parts[parts.len() - 1].rows.len() > 0);
        assert(first_values(parts) =~= values);
    } else {
        assert(first_values(parts) =~= values);
    }
}

// ---- HAVING ------------------------------------------------------------------------------------

pub open spec fn compare_integers(op: CompareOp, m: i64, n: i64) -> bool {
    match op {
        CompareOp::Eq => m == n,
        CompareOp::Ne => m != n,
        CompareOp::Lt => m < n,
        CompareOp::Le => m <= n,
        CompareOp::Gt => m > n,
        CompareOp::Ge => m >= n,
    }
}

/// A comparison of two integers is true exactly where it holds of the integers.
pub proof fn law_having_compares_integers(
    left: OperandModel,
    op: CompareOp,
    right: OperandModel,
    row: Row,
    m: i64,
    n: i64,
)
    requires
        left == OperandModel::Literal(Datum::Integer(m)) || (left matches OperandModel::Column(i)
            && i < row.len() && row[i as int] == Datum::Integer(m)),
        right == OperandModel::Literal(Datum::Integer(n)) || (right matches OperandModel::Column(i)
            && i < row.len() && row[i as int] == Datum::Integer(n)),
    ensures
        truth(PredicateModel::Compare { left, op, right }, row) == Some(compare_integers(op, m, n)),
{
}

/// A comparison of any two values that are not NULL goes by their order.
pub proof fn law_having_compares_values(
    op: CompareOp,
    x: Datum,
    y: Datum,
    row: Row,
)
    ensures
        ({
            let left = OperandModel::Literal(x);
            let right = OperandModel::Literal(y);
            let found = truth(PredicateModel::Compare { left, op, right }, row);
            let order = value_order(x, y);
            &&& x is Null || y is Null ==> found is None
            &&& !(x is Null) && !(y is Null) ==> found == Some(
                match order {
                    Order::Less => compare_integers(op, 0, 1),
                    Order::Equal => compare_integers(op, 0, 0),
                    Order::Greater => compare_integers(op, 1, 0),
                },
            )
        }),
{
}

/// What may be unknown follows SQL: `AND` is false where one side is, and true where both are; `OR`
/// is true where one side is, and false where both are; `NOT` of the unknown is unknown.
pub proof fn law_having_is_three_valued(a: PredicateModel, b: PredicateModel, row: Row)
    ensures
        ({
            let both = truth(PredicateModel::And(Box::new(a), Box::new(b)), row);
            let either = truth(PredicateModel::Or(Box::new(a), Box::new(b)), row);
            let not = truth(PredicateModel::Not(Box::new(a)), row);
            let (x, y) = (truth(a, row), truth(b, row));
            &&& both == Some(true) <==> x == Some(true) && y == Some(true)
            &&& both == Some(false) <==> x == Some(false) || y == Some(false)
            &&& either == Some(true) <==> x == Some(true) || y == Some(true)
            &&& either == Some(false) <==> x == Some(false) && y == Some(false)
            &&& not == Some(true) <==> x == Some(false)
            &&& not == Some(false) <==> x == Some(true)
        }),
{
}

/// `IS NULL` is true of NULL and of nothing else, and `IS NOT NULL` of everything else; neither is
/// ever unknown.
pub proof fn law_having_is_null(v: Datum, row: Row)
    ensures
        truth(
            PredicateModel::IsNull { value: OperandModel::Literal(v), negated: false },
            row,
        ) == Some(v is Null),
        truth(
            PredicateModel::IsNull { value: OperandModel::Literal(v), negated: true },
            row,
        ) == Some(!(v is Null)),
{
}

/// `HAVING` keeps the groups of which it is true, in their order, and drops the others, those of
/// which it is unknown among them. A group's row that is kept loses its hidden columns and no other.
pub proof fn law_having_keeps_what_is_true(
    rows: Seq<Row>,
    row: Row,
    having: Option<PredicateModel>,
    visible: usize,
    i: int,
)
    ensures
        surviving(Seq::<Row>::empty(), having, visible).len() == 0,
        having is None || truth(having->0, row) == Some(true) ==> surviving(
            rows.push(row),
            having,
            visible,
        ) == surviving(rows, having, visible).push(visible_row(row, visible)),
        having is Some && truth(having->0, row) != Some(true) ==> surviving(
            rows.push(row),
            having,
            visible,
        ) == surviving(rows, having, visible),
        visible_row(row, visible).len() == (if visible < row.len() {
            visible as nat
        } else {
            row.len()
        }),
        0 <= i < visible_row(row, visible).len() ==> visible_row(row, visible)[i] == row[i],
{
    assert(rows.push(row).drop_last() =~= rows);
}

/// A grouped answer is the page of the group rows that `HAVING` keeps, under the names of the plan.
pub proof fn law_grouped_answer(g: GroupedModel, having: Option<PredicateModel>, rows: Seq<Row>)
    ensures
        grouped_table(g, having, rows).columns == g.output_names,
        grouped_table(g, having, rows).rows == finalized(
            surviving(rows, having, g.visible_count),
            g.order_by,
            g.offset,
            g.limit,
        ),
{
}

/// Whether a predicate holds no real in digits.
pub open spec fn without_reals(p: PredicateModel) -> bool
    decreases p,
{
    match p {
        PredicateModel::And(a, b) => without_reals(*a) && without_reals(*b),
        PredicateModel::Or(a, b) => without_reals(*a) && without_reals(*b),
        PredicateModel::Not(a) => without_reals(*a),
        PredicateModel::Compare { left, right, .. } => !(left is RealText) && !(right is RealText),
        PredicateModel::IsNull { value, .. } => !(value is RealText),
    }
}

proof fn lemma_resolved<F: Fn(&RealFold) -> u64>(fold: F, p: PredicateModel, q: PredicateModel)
    requires
        predicate_resolves(fold, p, q),
        without_reals(p),
    ensures
        p == q,
    decreases p,
{
    match (p, q) {
        (PredicateModel::And(a, b), PredicateModel::And(x, y)) => {
            lemma_resolved(fold, *a, *x);
            lemma_resolved(fold, *b, *y);
        },
        (PredicateModel::Or(a, b), PredicateModel::Or(x, y)) => {
            lemma_resolved(fold, *a, *x);
            lemma_resolved(fold, *b, *y);
        },
        (PredicateModel::Not(a), PredicateModel::Not(x)) => {
            lemma_resolved(fold, *a, *x);
        },
        _ => {},
    }
}

/// A grouped answer from the shards' partial rows: there is one row for each group, with the value of
/// every output column that is one, and of those rows the page that `HAVING` keeps is given.
pub proof fn law_grouped_answer_of_the_shards<F: Fn(&RealFold) -> u64>(
    g: GroupedModel,
    partials: Seq<Row>,
    fold: F,
    r: Table,
)
    requires
        grouped_merge(g, partials, fold, r),
        g.having matches Some(p) ==> without_reals(p),
    ensures
        exists|values: Seq<Row>|
            {
                &&& values.len() == grouped(partials, g.group_cols).len()
                &&& forall|i: int, j: int|
                    0 <= i < values.len() && 0 <= j < g.outputs.len() ==> (output_cell(
                        grouped(partials, g.group_cols)[i],
                        g.outputs[j],
                    ) matches CellModel::Value(d) ==> #[trigger] values[i][j] == d)
                &&& r.columns == g.output_names
                &&& r.rows == finalized(
                    #[trigger] surviving(values, g.having, g.visible_count),
                    g.order_by,
                    g.offset,
                    g.limit,
                )
            },
{
    let groups = grouped(partials, g.group_cols);
    let (values, having) = choose|values: Seq<Row>, having: Option<PredicateModel>|
        #![trigger grouped_table(g, having, values)]
        rows_resolve(fold, all_cells(groups, g.outputs), values) && having_resolves(
            fold,
            g.having,
            having,
        ) && r == grouped_table(g, having, values);
    if let Some(p) = g.having {
        lemma_resolved(fold, p, having->0);
    }
    assert(having == g.having);
    assert forall|i: int, j: int|
        0 <= i < values.len() && 0 <= j < g.outputs.len() implies (output_cell(
        groups[i],
        g.outputs[j],
    ) matches CellModel::Value(d) ==> #[trigger] values[i][j] == d) by {
        assert(row_resolves(fold, all_cells(groups, g.outputs)[i], values[i]));
        assert(all_cells(groups, g.outputs)[i][j] == output_cell(groups[i], g.outputs[j]));
        assert(resolves(fold, all_cells(groups, g.outputs)[i][j], values[i][j]));
    }
    assert(r.rows == finalized(
        surviving(values, g.having, g.visible_count),
        g.order_by,
        g.offset,
        g.limit,
    ));
}

/// A number that is no double takes the place of the nearest one: it is off by half a unit at most,
/// and of two that are as near the even one is taken.
pub proof fn law_large_integers_are_rounded(a: nat, unit: nat)
    requires
        unit > 0,
    ensures
        2 * (nearest_even(a, unit) * unit - a) <= unit,
        2 * (a - nearest_even(a, unit) * unit) <= unit,
        2 * (nearest_even(a, unit) * unit - a) == unit || 2 * (a - nearest_even(a, unit) * unit)
            == unit ==> nearest_even(a, unit) % 2 == 0,
{
    let q = (a / unit) as int;
    let r = (a % unit) as int;
    let u = unit as int;
    lemma_fundamental_div_mod(a as int, unit as int);
    lemma_mod_bound(a as int, unit as int);
    assert(a - q * u == r && (q + 1) * u - a == u - r) by (nonlinear_arith)
        requires
            a == u * q + r,
    ;
}

} // verus!
