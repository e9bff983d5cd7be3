//! Combining per-shard results into one.
//!
//! Arithmetic on reals is the caller's: where a result is a sum or a mean that involves one, the
//! functions here hand a [`RealFold`] to a function given to them, and go on with the bit pattern
//! that it returns.

use vstd::prelude::*;

use super::order::{
    compare_keys, compare_rows, compare_values, key_order, row_order, same_row, value_order,
};
use super::plan::{
    predicate_option, Combine, CompareOp, Grouped, GroupedModel, HavingExpr, HavingValue,
    OperandModel, OutputCol, Plan, PlanModel, PostProcess, PredicateModel, SetTree, SortKey,
};
use super::syntax::SetKind;
use crate::storage::doubles::Order;
use crate::storage::exec::{
    copy_row, copy_rows, copy_strings, empty_table, row_view, rows_view, Datum, QueryResult, Table,
    DbValue,
};
use crate::text::views;

verus! {

pub type Row = Seq<Datum>;

// ---- sorting, skipping, truncating -------------------------------------------------------------

/// A sorted list with one more row, behind every row that does not come after it.
pub open spec fn insert_sorted(rows: Seq<Row>, row: Row, keys: Seq<SortKey>) -> Seq<Row>
    decreases rows.len(),
{
    if rows.len() > 0 && row_order(rows.last(), row, keys, 0) == Order::Greater {
        insert_sorted(rows.drop_last(), row, keys).push(rows.last())
    } else {
        rows.push(row)
    }
}

/// The rows in the order of `keys`; rows that no key tells apart keep their order.
pub open spec fn sorted_rows(rows: Seq<Row>, keys: Seq<SortKey>) -> Seq<Row>
    decreases rows.len(),
{
    if rows.len() == 0 {
        Seq::empty()
    } else {
        insert_sorted(sorted_rows(rows.drop_last(), keys), rows.last(), keys)
    }
}

/// The rows from `offset` on.
pub open spec fn skipped(rows: Seq<Row>, offset: usize) -> Seq<Row> {
    if offset < rows.len() {
        rows.subrange(offset as int, rows.len() as int)
    } else {
        Seq::empty()
    }
}

/// The first `limit` rows, or all of them.
pub open spec fn limited(rows: Seq<Row>, limit: Option<usize>) -> Seq<Row> {
    match limit {
        Some(n) => if n < rows.len() {
            rows.take(n as int)
        } else {
            rows
        },
        None => rows,
    }
}

/// Sort where there are keys, skip `offset` rows, then keep `limit`.
pub open spec fn finalized(
    rows: Seq<Row>,
    order_by: Seq<SortKey>,
    offset: usize,
    limit: Option<usize>,
) -> Seq<Row> {
    limited(
        skipped(
            if order_by.len() > 0 {
                sorted_rows(rows, order_by)
            } else {
                rows
            },
            offset,
        ),
        limit,
    )
}

fn insert_row(rows: &mut Vec<Vec<DbValue>>, row: Vec<DbValue>, keys: &Vec<SortKey>)
    ensures
        rows_view(final(rows)@) == insert_sorted(rows_view(old(rows)@), row_view(row@), keys@),
{
    let ghost before = rows_view(rows@);
    let ghost new = row_view(row@);
    let mut at: usize = rows.len();
    assert(before.take(before.len() as int) =~= before);
    assert(before.skip(before.len() as int) =~= Seq::empty());
    assert(insert_sorted(before, new, keys@) + Seq::<Row>::empty() =~= insert_sorted(
        before,
        new,
        keys@,
    ));
    while at > 0 && compare_rows(&rows[at - 1], &row, keys) == Order::Greater
        invariant
            at <= rows@.len(),
            before == rows_view(rows@),
            new == row_view(row@),
            insert_sorted(before, new, keys@) == insert_sorted(before.take(at as int), new, keys@)
                + before.skip(at as int),
        decreases at,
    {
        proof {
            let head = before.take(at as int);
            assert(head.last() == before[at as int - 1]);
            assert(head.drop_last() =~= before.take(at as int - 1));
            assert(insert_sorted(head, new, keys@) + before.skip(at as int) =~= insert_sorted(
                before.take(at as int - 1),
                new,
                keys@,
            ) + before.skip(at as int - 1));
        }
        at = at - 1;
    }
    proof {
        let head = before.take(at as int);
        if at > 0 {
            assert(head.last() == before[at as int - 1]);
        }
        assert(insert_sorted(head, new, keys@) == head.push(new));
    }
    rows.insert(at, row);
    assert(rows_view(rows@) =~= before.take(at as int).push(new) + before.skip(at as int));
}

/// Sorts rows by `keys`; rows that no key tells apart keep their order.
pub fn sort_rows(rows: &mut Vec<Vec<DbValue>>, keys: &Vec<SortKey>)
    ensures
        rows_view(final(rows)@) == sorted_rows(rows_view(old(rows)@), keys@),
{
    let ghost model = rows_view(rows@);
    let mut out: Vec<Vec<DbValue>> = Vec::with_capacity(rows.len());
    let mut i: usize = 0;
    assert(rows_view(out@) =~= sorted_rows(model.take(0), keys@));
    while i < rows.len()
        invariant
            i <= rows@.len(),
            model == rows_view(rows@),
            rows_view(out@) == sorted_rows(model.take(i as int), keys@),
        decreases rows@.len() - i,
    {
        insert_row(&mut out, copy_row(&rows[i]), keys);
        proof {
            assert(model.take(i as int + 1).drop_last() =~= model.take(i as int));
            assert(model.take(i as int + 1).last() == row_view(rows@[i as int]@));
        }
        i = i + 1;
    }
    assert(model.take(rows@.len() as int) =~= model);
    *rows = out;
}

fn truncate_rows(rows: &mut Vec<Vec<DbValue>>, limit: Option<usize>)
    ensures
        rows_view(final(rows)@) == limited(rows_view(old(rows)@), limit),
{
    if let Some(n) = limit {
        if n < rows.len() {
            let ghost before = rows@;
            rows.truncate(n);
            assert(rows_view(rows@) =~= rows_view(before).take(n as int));
        }
    }
}

/// Sort where there are keys, skip `offset` rows, then keep `limit`: the end that every
/// coordinator-side plan shares.
pub fn finalize_rows(
    rows: &mut Vec<Vec<DbValue>>,
    order_by: &Vec<SortKey>,
    offset: usize,
    limit: Option<usize>,
)
    ensures
        rows_view(final(rows)@) == finalized(rows_view(old(rows)@), order_by@, offset, limit),
{
    if order_by.len() > 0 {
        sort_rows(rows, order_by);
    }
    let ghost sorted = rows_view(rows@);
    if offset > 0 {
        if offset < rows.len() {
            let ghost before = rows@;
            *rows = rows.split_off(offset);
            assert(rows_view(rows@) =~= skipped(sorted, offset));
        } else {
            *rows = Vec::new();
            assert(rows_view(rows@) =~= skipped(sorted, offset));
        }
    } else {
        assert(skipped(sorted, offset) =~= sorted);
    }
    truncate_rows(rows, limit);
}

// ---- rows as sets ------------------------------------------------------------------------------

/// How many of the rows are the same as `row`.
pub open spec fn copies(rows: Seq<Row>, row: Row) -> nat
    decreases rows.len(),
{
    if rows.len() == 0 {
        0
    } else {
        copies(rows.drop_last(), row) + (if same_row(rows.last(), row) {
            1nat
        } else {
            0nat
        })
    }
}

/// The rules by which a row of the left side is kept, given how many rows before it are the same,
/// and how many on the right side.
#[derive(Clone, Copy, Debug, PartialEq, Eq, Structural)]
pub enum Keep {
    /// The first of each.
    First,
    /// The first of each that the right side has.
    FirstShared,
    /// The first of each that the right side lacks.
    FirstMissing,
    /// As many of each as the right side has.
    Shared,
    /// Those of each that go beyond what the right side has.
    Beyond,
}

impl Keep {
    pub open spec fn keeps(self, earlier: nat, right: nat) -> bool {
        match self {
            Keep::First => earlier == 0,
            Keep::FirstShared => earlier == 0 && right > 0,
            Keep::FirstMissing => earlier == 0 && right == 0,
            Keep::Shared => earlier < right,
            Keep::Beyond => earlier >= right,
        }
    }
}

/// The rows of the left side that are kept, in order.
pub open spec fn kept(left: Seq<Row>, right: Seq<Row>, keep: Keep) -> Seq<Row>
    decreases left.len(),
{
    if left.len() == 0 {
        Seq::empty()
    } else {
        let before = left.drop_last();
        let row = left.last();
        if keep.keeps(copies(before, row), copies(right, row)) {
            kept(before, right, keep).push(row)
        } else {
            kept(before, right, keep)
        }
    }
}

/// Two branch results under a set operator. `all` keeps duplicates: `INTERSECT ALL` as many of
/// each row as both sides have, `EXCEPT ALL` as many as the left has beyond the right.
pub open spec fn set_rows(op: SetKind, all: bool, left: Seq<Row>, right: Seq<Row>) -> Seq<Row> {
    match op {
        SetKind::Union => if all {
            left + right
        } else {
            kept(left + right, Seq::empty(), Keep::First)
        },
        SetKind::Intersect => kept(
            left,
            right,
            if all {
                Keep::Shared
            } else {
                Keep::FirstShared
            },
        ),
        SetKind::Except => kept(
            left,
            right,
            if all {
                Keep::Beyond
            } else {
                Keep::FirstMissing
            },
        ),
    }
}

/// The rows that a set-operation tree comes to over its branches.
pub open spec fn tree_rows(tree: SetTree, branches: Seq<Table>) -> Seq<Row>
    decreases tree,
{
    match tree {
        SetTree::Leaf(i) => if i < branches.len() {
            branches[i as int].rows
        } else {
            Seq::empty()
        },
        SetTree::Op { op, all, left, right } => set_rows(
            op,
            all,
            tree_rows(*left, branches),
            tree_rows(*right, branches),
        ),
    }
}

fn count_copies(rows: &Vec<Vec<DbValue>>, upto: usize, row: &Vec<DbValue>) -> (r: usize)
    requires
        upto <= rows@.len(),
    ensures
        r == copies(rows_view(rows@).take(upto as int), row_view(row@)),
{
    let ghost model = rows_view(rows@);
    let mut count: usize = 0;
    let mut i: usize = 0;
    while i < upto
        invariant
            i <= upto <= rows@.len(),
            count <= i,
            model == rows_view(rows@),
            count == copies(model.take(i as int), row_view(row@)),
        decreases upto - i,
    {
        proof {
            assert(model.take(i as int + 1).drop_last() =~= model.take(i as int));
            assert(model.take(i as int + 1).last() == row_view(rows@[i as int]@));
        }
        if compare_keys(&rows[i], row) == Order::Equal {
            count = count + 1;
        }
        i = i + 1;
    }
    count
}

fn keeps(keep: Keep, earlier: usize, right: usize) -> (r: bool)
    ensures
        r == keep.keeps(earlier as nat, right as nat),
{
    match keep {
        Keep::First => earlier == 0,
        Keep::FirstShared => earlier == 0 && right > 0,
        Keep::FirstMissing => earlier == 0 && right == 0,
        Keep::Shared => earlier < right,
        Keep::Beyond => earlier >= right,
    }
}

fn keep_rows(left: &Vec<Vec<DbValue>>, right: &Vec<Vec<DbValue>>, keep: Keep) -> (r: Vec<Vec<DbValue>>)
    ensures
        rows_view(r@) == kept(rows_view(left@), rows_view(right@), keep),
{
    let ghost model = rows_view(left@);
    let ghost other = rows_view(right@);
    let mut out: Vec<Vec<DbValue>> = Vec::new();
    let mut i: usize = 0;
    assert(rows_view(out@) =~= kept(model.take(0), other, keep));
    while i < left.len()
        invariant
            i <= left@.len(),
            model == rows_view(left@),
            other == rows_view(right@),
            rows_view(out@) == kept(model.take(i as int), other, keep),
        decreases left@.len() - i,
    {
        proof {
            assert(model.take(i as int + 1).drop_last() =~= model.take(i as int));
            assert(model.take(i as int + 1).last() == row_view(left@[i as int]@));
            assert(other.take(other.len() as int) =~= other);
        }
        let earlier: usize = count_copies(left, i, &left[i]);
        let shared: usize = count_copies(right, right.len(), &left[i]);
        if keeps(keep, earlier, shared) {
            let ghost before = out@;
            out.push(copy_row(&left[i]));
            assert(rows_view(out@) =~= rows_view(before).push(row_view(left@[i as int]@)));
        }
        i = i + 1;
    }
    assert(model.take(left@.len() as int) =~= model);
    out
}

/// Collapse rows that are the same, keeping the first of each.
pub fn dedup_rows(rows: &mut Vec<Vec<DbValue>>)
    ensures
        rows_view(final(rows)@) == kept(rows_view(old(rows)@), Seq::empty(), Keep::First),
{
    let none: Vec<Vec<DbValue>> = Vec::new();
    assert(rows_view(none@) =~= Seq::empty());
    *rows = keep_rows(rows, &none, Keep::First);
}

fn append_rows(into: &mut Vec<Vec<DbValue>>, mut rows: Vec<Vec<DbValue>>)
    ensures
        rows_view(final(into)@) == rows_view(old(into)@) + rows_view(rows@),
{
    let ghost before = into@;
    let ghost more = rows@;
    into.append(&mut rows);
    assert(rows_view(into@) =~= rows_view(before) + rows_view(more));
}

/// Combine two branch results under one set operator.
pub fn apply_set_op(op: SetKind, all: bool, left: Vec<Vec<DbValue>>, right: Vec<Vec<DbValue>>) -> (r:
    Vec<Vec<DbValue>>)
    ensures
        rows_view(r@) == set_rows(op, all, rows_view(left@), rows_view(right@)),
{
    match op {
        SetKind::Union => {
            let mut both = left;
            append_rows(&mut both, right);
            if !all {
                dedup_rows(&mut both);
            }
            both
        },
        SetKind::Intersect => keep_rows(
            &left,
            &right,
            if all {
                Keep::Shared
            } else {
                Keep::FirstShared
            },
        ),
        SetKind::Except => keep_rows(
            &left,
            &right,
            if all {
                Keep::Beyond
            } else {
                Keep::FirstMissing
            },
        ),
    }
}

pub open spec fn tables(parts: Seq<QueryResult>) -> Seq<Table> {
    parts.map_values(|p: QueryResult| p@)
}

/// Evaluate a set-operation tree over branch results, each already a full fan-out.
pub fn evaluate_set_tree(tree: &SetTree, branches: &Vec<QueryResult>) -> (r: Vec<Vec<DbValue>>)
    ensures
        rows_view(r@) == tree_rows(*tree, tables(branches@)),
    decreases tree,
{
    match tree {
        SetTree::Leaf(i) => {
            if *i < branches.len() {
                assert(tables(branches@)[*i as int] == branches@[*i as int]@);
                copy_rows(&branches[*i].rows)
            } else {
                let none: Vec<Vec<DbValue>> = Vec::new();
                assert(rows_view(none@) =~= Seq::empty());
                none
            }
        },
        SetTree::Op { op, all, left, right } => {
            let l = evaluate_set_tree(left, branches);
            let r = evaluate_set_tree(right, branches);
            apply_set_op(*op, *all, l, r)
        },
    }
}

// ---- arithmetic on reals -----------------------------------------------------------------------

/// A computation on reals, for the caller to do. The sum of `Sum` takes integers as their nearest
/// real and anything that is no number as zero, in order. `Mean` is the sum of its integers and
/// reals over `count`. `Literal` is the real that the digits write.
#[derive(Debug)]
pub enum RealFold {
    Sum(Vec<DbValue>),
    Mean { sums: Vec<DbValue>, count: i64 },
    Literal { digits: String, negative: bool },
}

/// What a [`RealFold`] holds.
pub ghost enum FoldModel {
    Sum(Seq<Datum>),
    Mean { sums: Seq<Datum>, count: int },
    Literal { digits: Seq<char>, negative: bool },
}

impl View for RealFold {
    type V = FoldModel;

    open spec fn view(&self) -> FoldModel {
        match self {
            RealFold::Sum(values) => FoldModel::Sum(row_view(values@)),
            RealFold::Mean { sums, count } => FoldModel::Mean {
                sums: row_view(sums@),
                count: *count as int,
            },
            RealFold::Literal { digits, negative } => FoldModel::Literal {
                digits: digits@,
                negative: *negative,
            },
        }
    }
}

/// A value, or the computation on reals that gives one.
#[derive(Debug)]
pub enum Cell {
    Value(DbValue),
    Fold(RealFold),
}

/// What a [`Cell`] holds.
pub ghost enum CellModel {
    Value(Datum),
    Fold(FoldModel),
}

impl View for Cell {
    type V = CellModel;

    open spec fn view(&self) -> CellModel {
        match self {
            Cell::Value(v) => CellModel::Value(v@),
            Cell::Fold(f) => CellModel::Fold(f@),
        }
    }
}

/// Whether `bits` is what `fold` gives for a computation.
pub open spec fn folds_to<F: Fn(&RealFold) -> u64>(fold: F, f: FoldModel, bits: u64) -> bool {
    exists|x: &RealFold| x@ == f && #[trigger] call_ensures(fold, (x,), bits)
}

/// Whether `v` is the value of a cell.
pub open spec fn resolves<F: Fn(&RealFold) -> u64>(fold: F, cell: CellModel, v: Datum) -> bool {
    match cell {
        CellModel::Value(d) => v == d,
        CellModel::Fold(f) => v is Real && folds_to(fold, f, v->Real_0),
    }
}

/// The value of a cell.
pub fn resolve<F: Fn(&RealFold) -> u64>(cell: Cell, fold: &F) -> (r: DbValue)
    requires
        forall|x: &RealFold| call_requires(*fold, (x,)),
    ensures
        resolves(*fold, cell@, r@),
{
    match cell {
        Cell::Value(v) => v,
        Cell::Fold(f) => {
            let bits: u64 = fold(&f);
            assert(folds_to(*fold, f@, bits));
            DbValue::Real(bits)
        },
    }
}

// ---- combining partial aggregates --------------------------------------------------------------

/// The values that are not NULL, in order.
pub open spec fn present(values: Seq<Datum>) -> Seq<Datum>
    decreases values.len(),
{
    if values.len() == 0 {
        Seq::empty()
    } else if values.last() is Null {
        present(values.drop_last())
    } else {
        present(values.drop_last()).push(values.last())
    }
}

pub open spec fn all_integers(values: Seq<Datum>) -> bool {
    forall|i: int| 0 <= i < values.len() ==> (#[trigger] values[i]) is Integer
}

/// The sum of the integers among the values.
pub open spec fn integer_sum(values: Seq<Datum>) -> int
    decreases values.len(),
{
    if values.len() == 0 {
        0
    } else {
        integer_sum(values.drop_last()) + (match values.last() {
            Datum::Integer(n) => n as int,
            _ => 0,
        })
    }
}

/// The smallest of the values, the first of those that are equal.
pub open spec fn smallest(values: Seq<Datum>) -> Datum
    recommends
        values.len() > 0,
    decreases values.len(),
{
    if values.len() <= 1 {
        values[0]
    } else {
        let before = smallest(values.drop_last());
        if value_order(before, values.last()) == Order::Greater {
            values.last()
        } else {
            before
        }
    }
}

/// The largest of the values, the last of those that are equal.
pub open spec fn largest(values: Seq<Datum>) -> Datum
    recommends
        values.len() > 0,
    decreases values.len(),
{
    if values.len() <= 1 {
        values[0]
    } else {
        let before = largest(values.drop_last());
        if value_order(before, values.last()) == Order::Greater {
            before
        } else {
            values.last()
        }
    }
}

/// Whether the integers among the values can be added up, one by one, in 64 bits.
pub open spec fn sums_within(values: Seq<Datum>) -> bool {
    forall|n: int|
        0 <= n <= values.len() ==> i64::MIN <= #[trigger] integer_sum(values.take(n)) <= i64::MAX
}

/// Whether partial results can be combined in 64 bits.
pub open spec fn combines(kind: Combine, values: Seq<Datum>) -> bool {
    kind == Combine::Sum && all_integers(present(values)) ==> sums_within(present(values))
}

/// Partial results of one aggregate combined. NULLs do not count, and nothing at all is NULL. A
/// sum of integers stays an integer.
pub open spec fn combined(kind: Combine, values: Seq<Datum>) -> CellModel {
    let some = present(values);
    if some.len() == 0 {
        CellModel::Value(Datum::Null)
    } else {
        match kind {
            Combine::Sum => if all_integers(some) {
                CellModel::Value(Datum::Integer(integer_sum(some) as i64))
            } else {
                CellModel::Fold(FoldModel::Sum(some))
            },
            Combine::Min => CellModel::Value(smallest(some)),
            Combine::Max => CellModel::Value(largest(some)),
        }
    }
}

fn push_value(out: &mut Vec<DbValue>, v: DbValue)
    ensures
        row_view(final(out)@) == row_view(old(out)@).push(v@),
{
    let ghost before = out@;
    let ghost new = v@;
    out.push(v);
    assert(row_view(out@) =~= row_view(before).push(new));
}

fn drop_nulls(values: &Vec<DbValue>) -> (r: Vec<DbValue>)
    ensures
        row_view(r@) == present(row_view(values@)),
{
    let ghost model = row_view(values@);
    let mut out: Vec<DbValue> = Vec::new();
    let mut i: usize = 0;
    assert(row_view(out@) =~= present(model.take(0)));
    while i < values.len()
        invariant
            i <= values@.len(),
            model == row_view(values@),
            row_view(out@) == present(model.take(i as int)),
        decreases values@.len() - i,
    {
        proof {
            assert(model.take(i as int + 1).drop_last() =~= model.take(i as int));
            assert(model.take(i as int + 1).last() == values@[i as int]@);
        }
        if !values[i].is_null() {
            push_value(&mut out, values[i].copy());
        }
        i = i + 1;
    }
    assert(model.take(values@.len() as int) =~= model);
    out
}

fn only_integers(values: &Vec<DbValue>) -> (r: bool)
    ensures
        r == all_integers(row_view(values@)),
{
    let ghost model = row_view(values@);
    let mut i: usize = 0;
    while i < values.len()
        invariant
            i <= values@.len(),
            model == row_view(values@),
            forall|k: int| 0 <= k < i ==> (#[trigger] model[k]) is Integer,
        decreases values@.len() - i,
    {
        assert(model[i as int] == values@[i as int]@);
        match &values[i] {
            DbValue::Integer(_) => {},
            _ => {
                return false;
            },
        }
        i = i + 1;
    }
    true
}

/// The sum of the integers among the values.
fn sum_integers(values: &Vec<DbValue>) -> (r: i64)
    requires
        sums_within(row_view(values@)),
    ensures
        r == integer_sum(row_view(values@)),
{
    let ghost model = row_view(values@);
    let mut total: i64 = 0;
    let mut i: usize = 0;
    while i < values.len()
        invariant
            i <= values@.len(),
            model == row_view(values@),
            sums_within(model),
            total == integer_sum(model.take(i as int)),
        decreases values@.len() - i,
    {
        proof {
            let next = model.take(i as int + 1);
            assert(next.drop_last() =~= model.take(i as int));
            assert(next.last() == values@[i as int]@);
            assert(i64::MIN <= integer_sum(next) <= i64::MAX);
        }
        match &values[i] {
            DbValue::Integer(n) => {
                total = total + *n;
            },
            _ => {},
        }
        i = i + 1;
    }
    assert(model.take(values@.len() as int) =~= model);
    total
}

fn smallest_of(values: &Vec<DbValue>) -> (r: DbValue)
    requires
        values@.len() > 0,
    ensures
        r@ == smallest(row_view(values@)),
{
    let ghost model = row_view(values@);
    let mut best: usize = 0;
    let mut i: usize = 1;
    while i < values.len()
        invariant
            1 <= i <= values@.len(),
            best < i,
            model == row_view(values@),
            model[best as int] == smallest(model.take(i as int)),
        decreases values@.len() - i,
    {
        proof {
            assert(model.take(i as int + 1).drop_last() =~= model.take(i as int));
            assert(model.take(i as int + 1).last() == model[i as int]);
        }
        if compare_values(&values[best], &values[i]) == Order::Greater {
            best = i;
        }
        i = i + 1;
    }
    assert(model.take(values@.len() as int) =~= model);
    values[best].copy()
}

fn largest_of(values: &Vec<DbValue>) -> (r: DbValue)
    requires
        values@.len() > 0,
    ensures
        r@ == largest(row_view(values@)),
{
    let ghost model = row_view(values@);
    let mut best: usize = 0;
    let mut i: usize = 1;
    while i < values.len()
        invariant
            1 <= i <= values@.len(),
            best < i,
            model == row_view(values@),
            model[best as int] == largest(model.take(i as int)),
        decreases values@.len() - i,
    {
        proof {
            assert(model.take(i as int + 1).drop_last() =~= model.take(i as int));
            assert(model.take(i as int + 1).last() == model[i as int]);
        }
        if compare_values(&values[best], &values[i]) != Order::Greater {
            best = i;
        }
        i = i + 1;
    }
    assert(model.take(values@.len() as int) =~= model);
    values[best].copy()
}

/// Combine partial results of one aggregate.
pub fn combine_values(kind: Combine, values: &Vec<DbValue>) -> (r: Cell)
    requires
        combines(kind, row_view(values@)),
    ensures
        r@ == combined(kind, row_view(values@)),
{
    let some = drop_nulls(values);
    assert(row_view(some@).len() == some@.len());
    if some.len() == 0 {
        return Cell::Value(DbValue::Null);
    }
    match kind {
        Combine::Sum => {
            if only_integers(&some) {
                Cell::Value(DbValue::Integer(sum_integers(&some)))
            } else {
                Cell::Fold(RealFold::Sum(some))
            }
        },
        Combine::Min => Cell::Value(smallest_of(&some)),
        Combine::Max => Cell::Value(largest_of(&some)),
    }
}

// ---- groups ------------------------------------------------------------------------------------

/// The value in a column of a row, NULL where the row has no such column.
pub open spec fn column_value(row: Row, column: usize) -> Datum {
    if column < row.len() {
        row[column as int]
    } else {
        Datum::Null
    }
}

/// The values of one column.
pub open spec fn column_values(rows: Seq<Row>, column: usize) -> Seq<Datum> {
    rows.map_values(|r: Row| column_value(r, column))
}

/// A row's group key.
pub open spec fn group_key(row: Row, columns: Seq<usize>) -> Row {
    columns.map_values(|c: usize| column_value(row, c))
}

/// A group: its key, as its first row has it, and its rows.
pub ghost struct GroupModel {
    pub key: Row,
    pub rows: Seq<Row>,
}

/// The groups, in the order of their keys, with one more row.
pub open spec fn with_row(groups: Seq<GroupModel>, key: Row, row: Row) -> Seq<GroupModel>
    decreases groups.len(),
{
    if groups.len() == 0 {
        seq![GroupModel { key, rows: seq![row] }]
    } else {
        match key_order(groups[0].key, key) {
            Order::Less => seq![groups[0]] + with_row(groups.drop_first(), key, row),
            Order::Equal => seq![
                GroupModel { key: groups[0].key, rows: groups[0].rows.push(row) },
            ] + groups.drop_first(),
            Order::Greater => seq![GroupModel { key, rows: seq![row] }] + groups,
        }
    }
}

/// The rows by group.
pub open spec fn grouped(rows: Seq<Row>, columns: Seq<usize>) -> Seq<GroupModel>
    decreases rows.len(),
{
    if rows.len() == 0 {
        Seq::empty()
    } else {
        with_row(
            grouped(rows.drop_last(), columns),
            group_key(rows.last(), columns),
            rows.last(),
        )
    }
}

/// One output column of a group. A mean counts the integers of its count column and is NULL where
/// they come to zero; its sums are the values of its sum column.
pub open spec fn output_cell(group: GroupModel, col: OutputCol) -> CellModel {
    match col {
        OutputCol::Group(i) => CellModel::Value(column_value(group.key, i)),
        OutputCol::Combine { kind, col } => combined(kind, column_values(group.rows, col)),
        OutputCol::Avg { sum_col, count_col } => {
            let count = integer_sum(column_values(group.rows, count_col));
            if count == 0 {
                CellModel::Value(Datum::Null)
            } else {
                CellModel::Fold(
                    FoldModel::Mean { sums: column_values(group.rows, sum_col), count },
                )
            }
        },
    }
}

/// Whether an output column of a group can be computed in 64 bits.
pub open spec fn computes(group: GroupModel, col: OutputCol) -> bool {
    match col {
        OutputCol::Group(_) => true,
        OutputCol::Combine { kind, col } => combines(kind, column_values(group.rows, col)),
        OutputCol::Avg { count_col, .. } => sums_within(column_values(group.rows, count_col)),
    }
}

/// Whether every output column of every group can be computed in 64 bits.
pub open spec fn all_compute(groups: Seq<GroupModel>, outputs: Seq<OutputCol>) -> bool {
    forall|i: int, j: int|
        0 <= i < groups.len() && 0 <= j < outputs.len() ==> #[trigger] computes(
            groups[i],
            outputs[j],
        )
}

pub open spec fn group_cells(group: GroupModel, outputs: Seq<OutputCol>) -> Seq<CellModel> {
    outputs.map_values(|c: OutputCol| output_cell(group, c))
}

/// The output cells of every group.
pub open spec fn all_cells(groups: Seq<GroupModel>, outputs: Seq<OutputCol>) -> Seq<
    Seq<CellModel>,
> {
    groups.map_values(|g: GroupModel| group_cells(g, outputs))
}

struct Group {
    key: Vec<DbValue>,
    rows: Vec<Vec<DbValue>>,
}

impl View for Group {
    type V = GroupModel;

    closed spec fn view(&self) -> GroupModel {
        GroupModel { key: row_view(self.key@), rows: rows_view(self.rows@) }
    }
}

closed spec fn groups_view(groups: Seq<Group>) -> Seq<GroupModel> {
    groups.map_values(|g: Group| g@)
}

fn value_at(row: &Vec<DbValue>, column: usize) -> (r: DbValue)
    ensures
        r@ == column_value(row_view(row@), column),
{
    if column < row.len() {
        row[column].copy()
    } else {
        DbValue::Null
    }
}

fn key_of_row(row: &Vec<DbValue>, columns: &Vec<usize>) -> (r: Vec<DbValue>)
    ensures
        row_view(r@) == group_key(row_view(row@), columns@),
{
    let ghost model = group_key(row_view(row@), columns@);
    let mut out: Vec<DbValue> = Vec::new();
    let mut i: usize = 0;
    assert(row_view(out@) =~= model.take(0));
    while i < columns.len()
        invariant
            i <= columns@.len(),
            model == group_key(row_view(row@), columns@),
            row_view(out@) == model.take(i as int),
        decreases columns@.len() - i,
    {
        push_value(&mut out, value_at(row, columns[i]));
        assert(model.take(i as int + 1) =~= model.take(i as int).push(model[i as int]));
        i = i + 1;
    }
    assert(model.take(columns@.len() as int) =~= model);
    out
}

fn column_of(rows: &Vec<Vec<DbValue>>, column: usize) -> (r: Vec<DbValue>)
    ensures
        row_view(r@) == column_values(rows_view(rows@), column),
{
    let ghost model = column_values(rows_view(rows@), column);
    let mut out: Vec<DbValue> = Vec::new();
    let mut i: usize = 0;
    assert(row_view(out@) =~= model.take(0));
    while i < rows.len()
        invariant
            i <= rows@.len(),
            model == column_values(rows_view(rows@), column),
            row_view(out@) == model.take(i as int),
        decreases rows@.len() - i,
    {
        push_value(&mut out, value_at(&rows[i], column));
        assert(model.take(i as int + 1) =~= model.take(i as int).push(model[i as int]));
        i = i + 1;
    }
    assert(model.take(rows@.len() as int) =~= model);
    out
}

pub proof fn lemma_with_row_skips(groups: Seq<GroupModel>, key: Row, row: Row, n: int)
    requires
        0 <= n <= groups.len(),
        forall|k: int| 0 <= k < n ==> key_order((#[trigger] groups[k]).key, key) == Order::Less,
    ensures
        with_row(groups, key, row) == groups.take(n) + with_row(groups.skip(n), key, row),
    decreases n,
{
    if n == 0 {
        assert(groups.skip(0) =~= groups);
        assert(groups.take(0) + with_row(groups, key, row) =~= with_row(groups, key, row));
    } else {
        assert(key_order(groups[0].key, key) == Order::Less);
        let rest = groups.drop_first();
        assert forall|k: int| 0 <= k < n - 1 implies key_order((#[trigger] rest[k]).key, key)
            == Order::Less by {
            assert(rest[k] == groups[k + 1]);
        }
        lemma_with_row_skips(rest, key, row, n - 1);
        assert(rest.skip(n - 1) =~= groups.skip(n));
        assert(seq![groups[0]] + (rest.take(n - 1) + with_row(groups.skip(n), key, row))
            =~= groups.take(n) + with_row(groups.skip(n), key, row));
    }
}

fn add_to_group(groups: &mut Vec<Group>, key: Vec<DbValue>, row: Vec<DbValue>)
    ensures
        groups_view(final(groups)@) == with_row(
            groups_view(old(groups)@),
            row_view(key@),
            row_view(row@),
        ),
{
    let ghost before = groups_view(groups@);
    let ghost new_key = row_view(key@);
    let ghost new_row = row_view(row@);
    let mut at: usize = 0;
    let mut found = Order::Greater;
    while at < groups.len()
        invariant_except_break
            at <= groups@.len(),
            before == groups_view(groups@),
            new_key == row_view(key@),
            found == Order::Greater,
            forall|k: int|
                0 <= k < at ==> key_order((#[trigger] before[k]).key, new_key) == Order::Less,
        ensures
            at <= groups@.len(),
            before == groups_view(groups@),
            found != Order::Less,
            at == groups@.len() ==> found == Order::Greater,
            at < groups@.len() ==> found == key_order(before[at as int].key, new_key),
            forall|k: int|
                0 <= k < at ==> key_order((#[trigger] before[k]).key, new_key) == Order::Less,
        decreases groups@.len() - at,
    {
        assert(before[at as int] == groups@[at as int]@);
        let order = compare_keys(&groups[at].key, &key);
        if order != Order::Less {
            found = order;
            break;
        }
        at = at + 1;
    }
    proof {
        lemma_with_row_skips(before, new_key, new_row, at as int);
        if at < groups@.len() {
            assert(before.skip(at as int)[0] == before[at as int]);
        }
    }
    if found == Order::Equal {
        let mut group = groups.remove(at);
        let ghost had = group@;
        let ghost rows_before = group.rows@;
        group.rows.push(row);
        assert(group@.rows =~= had.rows.push(new_row));
        let ghost grown = group@;
        groups.insert(at, group);
        proof {
            assert(had == before[at as int]);
            let tail = before.skip(at as int);
            assert(with_row(tail, new_key, new_row) == seq![grown] + tail.drop_first());
            assert(groups_view(groups@) =~= before.take(at as int) + (seq![grown]
                + tail.drop_first()));
        }
    } else {
        let mut rows: Vec<Vec<DbValue>> = Vec::new();
        rows.push(row);
        assert(rows_view(rows@) =~= seq![new_row]);
        let group = Group { key, rows };
        let ghost made = group@;
        groups.insert(at, group);
        proof {
            let tail = before.skip(at as int);
            assert(with_row(tail, new_key, new_row) =~= seq![made] + tail);
            assert(groups_view(groups@) =~= before.take(at as int) + (seq![made] + tail));
        }
    }
}

fn group_rows(rows: &Vec<Vec<DbValue>>, columns: &Vec<usize>) -> (r: Vec<Group>)
    ensures
        groups_view(r@) == grouped(rows_view(rows@), columns@),
{
    let ghost model = rows_view(rows@);
    let mut groups: Vec<Group> = Vec::new();
    let mut i: usize = 0;
    assert(groups_view(groups@) =~= grouped(model.take(0), columns@));
    while i < rows.len()
        invariant
            i <= rows@.len(),
            model == rows_view(rows@),
            groups_view(groups@) == grouped(model.take(i as int), columns@),
        decreases rows@.len() - i,
    {
        proof {
            assert(model.take(i as int + 1).drop_last() =~= model.take(i as int));
            assert(model.take(i as int + 1).last() == row_view(rows@[i as int]@));
        }
        let key = key_of_row(&rows[i], columns);
        add_to_group(&mut groups, key, copy_row(&rows[i]));
        i = i + 1;
    }
    assert(model.take(rows@.len() as int) =~= model);
    groups
}

fn output_of(group: &Group, col: OutputCol) -> (r: Cell)
    requires
        computes(group@, col),
    ensures
        r@ == output_cell(group@, col),
{
    match col {
        OutputCol::Group(i) => Cell::Value(value_at(&group.key, i)),
        OutputCol::Combine { kind, col } => {
            let values = column_of(&group.rows, col);
            combine_values(kind, &values)
        },
        OutputCol::Avg { sum_col, count_col } => {
            let counts = column_of(&group.rows, count_col);
            let count: i64 = sum_integers(&counts);
            if count == 0 {
                Cell::Value(DbValue::Null)
            } else {
                Cell::Fold(RealFold::Mean { sums: column_of(&group.rows, sum_col), count })
            }
        },
    }
}

pub open spec fn cells_view(cells: Seq<Cell>) -> Seq<CellModel> {
    cells.map_values(|c: Cell| c@)
}

pub open spec fn cell_rows_view(rows: Seq<Vec<Cell>>) -> Seq<Seq<CellModel>> {
    rows.map_values(|r: Vec<Cell>| cells_view(r@))
}

fn cells_of_group(group: &Group, outputs: &Vec<OutputCol>) -> (r: Vec<Cell>)
    requires
        forall|j: int| 0 <= j < outputs@.len() ==> computes(group@, #[trigger] outputs@[j]),
    ensures
        cells_view(r@) == group_cells(group@, outputs@),
{
    let ghost model = group_cells(group@, outputs@);
    let mut out: Vec<Cell> = Vec::new();
    let mut i: usize = 0;
    assert(cells_view(out@) =~= model.take(0));
    while i < outputs.len()
        invariant
            i <= outputs@.len(),
            forall|j: int| 0 <= j < outputs@.len() ==> computes(group@, #[trigger] outputs@[j]),
            model == group_cells(group@, outputs@),
            cells_view(out@) == model.take(i as int),
        decreases outputs@.len() - i,
    {
        let ghost before = out@;
        out.push(output_of(group, outputs[i]));
        proof {
            assert(cells_view(out@) =~= cells_view(before).push(
                output_cell(group@, outputs@[i as int]),
            ));
            assert(model.take(i as int + 1) =~= model.take(i as int).push(model[i as int]));
        }
        i = i + 1;
    }
    assert(model.take(outputs@.len() as int) =~= model);
    out
}

/// Group the shards' partial rows by key, and say how each output column of each group comes
/// about: the first half of a grouped merge.
pub fn group_partials(rows: &Vec<Vec<DbValue>>, group_cols: &Vec<usize>, outputs: &Vec<OutputCol>) -> (r:
    Vec<Vec<Cell>>)
    requires
        all_compute(grouped(rows_view(rows@), group_cols@), outputs@),
    ensures
        cell_rows_view(r@) == all_cells(grouped(rows_view(rows@), group_cols@), outputs@),
{
    let groups = group_rows(rows, group_cols);
    let ghost model = all_cells(groups_view(groups@), outputs@);
    let mut out: Vec<Vec<Cell>> = Vec::new();
    let mut i: usize = 0;
    assert(cell_rows_view(out@) =~= model.take(0));
    while i < groups.len()
        invariant
            i <= groups@.len(),
            model == all_cells(groups_view(groups@), outputs@),
            all_compute(groups_view(groups@), outputs@),
            cell_rows_view(out@) == model.take(i as int),
        decreases groups@.len() - i,
    {
        let ghost before = out@;
        assert(groups_view(groups@)[i as int] == groups@[i as int]@);
        assert forall|j: int| 0 <= j < outputs@.len() implies computes(
            groups@[i as int]@,
            #[trigger] outputs@[j],
        ) by {
            assert(computes(groups_view(groups@)[i as int], outputs@[j]));
        }
        out.push(cells_of_group(&groups[i], outputs));
        proof {
            assert(cell_rows_view(out@) =~= cell_rows_view(before).push(
                group_cells(groups@[i as int]@, outputs@),
            ));
            assert(model.take(i as int + 1) =~= model.take(i as int).push(model[i as int]));
        }
        i = i + 1;
    }
    assert(model.take(groups@.len() as int) =~= model);
    out
}

// ---- HAVING ------------------------------------------------------------------------------------

/// The value of an operand over a group's row.
pub open spec fn operand_value(o: OperandModel, row: Row) -> Datum {
    match o {
        OperandModel::Column(i) => column_value(row, i),
        OperandModel::Literal(v) => v,
        OperandModel::RealText { .. } => Datum::Null,
    }
}

pub open spec fn compares(op: CompareOp, order: Order) -> bool {
    match op {
        CompareOp::Eq => order == Order::Equal,
        CompareOp::Ne => order != Order::Equal,
        CompareOp::Lt => order == Order::Less,
        CompareOp::Le => order != Order::Greater,
        CompareOp::Gt => order == Order::Greater,
        CompareOp::Ge => order != Order::Less,
    }
}

/// What a predicate says of a group's row, in SQL's three-valued logic: `None` is unknown.
pub open spec fn truth(p: PredicateModel, row: Row) -> Option<bool>
    decreases p,
{
    match p {
        PredicateModel::And(a, b) => {
            let x = truth(*a, row);
            let y = truth(*b, row);
            if x == Some(false) || y == Some(false) {
                Some(false)
            } else if x == Some(true) && y == Some(true) {
                Some(true)
            } else {
                None
            }
        },
        PredicateModel::Or(a, b) => {
            let x = truth(*a, row);
            let y = truth(*b, row);
            if x == Some(true) || y == Some(true) {
                Some(true)
            } else if x == Some(false) && y == Some(false) {
                Some(false)
            } else {
                None
            }
        },
        PredicateModel::Not(a) => match truth(*a, row) {
            Some(x) => Some(!x),
            None => None,
        },
        PredicateModel::IsNull { value, negated } => Some(
            (operand_value(value, row) is Null) != negated,
        ),
        PredicateModel::Compare { left, op, right } => {
            let l = operand_value(left, row);
            let r = operand_value(right, row);
            if l is Null || r is Null {
                None
            } else {
                Some(compares(op, value_order(l, r)))
            }
        },
    }
}

fn having_value(value: &HavingValue, row: &Vec<DbValue>) -> (r: DbValue)
    ensures
        r@ == operand_value(value@, row_view(row@)),
{
    match value {
        HavingValue::Column(i) => value_at(row, *i),
        HavingValue::Literal(v) => v.copy(),
        HavingValue::RealText { .. } => DbValue::Null,
    }
}

/// Evaluate a `HAVING` predicate over a group's computed row.
pub fn eval_having(expr: &HavingExpr, row: &Vec<DbValue>) -> (r: Option<bool>)
    ensures
        r == truth(expr.model(), row_view(row@)),
    decreases expr,
{
    match expr {
        HavingExpr::And(a, b) => {
            let x = eval_having(a, row);
            let y = eval_having(b, row);
            match (x, y) {
                (Some(false), _) => Some(false),
                (_, Some(false)) => Some(false),
                (Some(true), Some(true)) => Some(true),
                _ => None,
            }
        },
        HavingExpr::Or(a, b) => {
            let x = eval_having(a, row);
            let y = eval_having(b, row);
            match (x, y) {
                (Some(true), _) => Some(true),
                (_, Some(true)) => Some(true),
                (Some(false), Some(false)) => Some(false),
                _ => None,
            }
        },
        HavingExpr::Not(a) => match eval_having(a, row) {
            Some(x) => Some(!x),
            None => None,
        },
        HavingExpr::IsNull { value, negated } => {
            let null = having_value(value, row).is_null();
            Some(null != *negated)
        },
        HavingExpr::Compare { left, op, right } => {
            let l = having_value(left, row);
            let r = having_value(right, row);
            if l.is_null() || r.is_null() {
                return None;
            }
            let order = compare_values(&l, &r);
            Some(
                match op {
                    CompareOp::Eq => order == Order::Equal,
                    CompareOp::Ne => order != Order::Equal,
                    CompareOp::Lt => order == Order::Less,
                    CompareOp::Le => order != Order::Greater,
                    CompareOp::Gt => order == Order::Greater,
                    CompareOp::Ge => order != Order::Less,
                },
            )
        },
    }
}

/// Whether `after` is `before` with a real in digits replaced by its bit pattern.
pub open spec fn operand_resolves<F: Fn(&RealFold) -> u64>(
    fold: F,
    before: OperandModel,
    after: OperandModel,
) -> bool {
    match before {
        OperandModel::RealText { digits, negative } => after matches OperandModel::Literal(
            Datum::Real(bits),
        ) && folds_to(fold, FoldModel::Literal { digits, negative }, bits),
        _ => after == before,
    }
}

/// Whether `after` is `before` with every real in digits replaced by its bit pattern.
pub open spec fn predicate_resolves<F: Fn(&RealFold) -> u64>(
    fold: F,
    before: PredicateModel,
    after: PredicateModel,
) -> bool
    decreases before,
{
    match before {
        PredicateModel::And(a, b) => after matches PredicateModel::And(x, y) && predicate_resolves(
            fold,
            *a,
            *x,
        ) && predicate_resolves(fold, *b, *y),
        PredicateModel::Or(a, b) => after matches PredicateModel::Or(x, y) && predicate_resolves(
            fold,
            *a,
            *x,
        ) && predicate_resolves(fold, *b, *y),
        PredicateModel::Not(a) => after matches PredicateModel::Not(x) && predicate_resolves(
            fold,
            *a,
            *x,
        ),
        PredicateModel::Compare { left, op, right } => after matches PredicateModel::Compare {
            left: l,
            op: o,
            right: r,
        } && o == op && operand_resolves(fold, left, l) && operand_resolves(fold, right, r),
        PredicateModel::IsNull { value, negated } => after matches PredicateModel::IsNull {
            value: v,
            negated: n,
        } && n == negated && operand_resolves(fold, value, v),
    }
}

pub open spec fn having_resolves<F: Fn(&RealFold) -> u64>(
    fold: F,
    before: Option<PredicateModel>,
    after: Option<PredicateModel>,
) -> bool {
    match before {
        None => after is None,
        Some(b) => after is Some && predicate_resolves(fold, b, after->0),
    }
}

fn resolve_operand<F: Fn(&RealFold) -> u64>(value: &HavingValue, fold: &F) -> (r: HavingValue)
    requires
        forall|x: &RealFold| call_requires(*fold, (x,)),
    ensures
        operand_resolves(*fold, value@, r@),
{
    match value {
        HavingValue::Column(i) => HavingValue::Column(*i),
        HavingValue::Literal(v) => HavingValue::Literal(v.copy()),
        HavingValue::RealText { digits, negative } => {
            let f = RealFold::Literal { digits: digits.clone(), negative: *negative };
            let bits: u64 = fold(&f);
            assert(folds_to(*fold, f@, bits));
            HavingValue::Literal(DbValue::Real(bits))
        },
    }
}

/// A predicate with its reals as bit patterns.
pub fn resolve_having<F: Fn(&RealFold) -> u64>(expr: &HavingExpr, fold: &F) -> (r: HavingExpr)
    requires
        forall|x: &RealFold| call_requires(*fold, (x,)),
    ensures
        predicate_resolves(*fold, expr.model(), r.model()),
    decreases expr,
{
    match expr {
        HavingExpr::And(a, b) => HavingExpr::And(
            Box::new(resolve_having(a, fold)),
            Box::new(resolve_having(b, fold)),
        ),
        HavingExpr::Or(a, b) => HavingExpr::Or(
            Box::new(resolve_having(a, fold)),
            Box::new(resolve_having(b, fold)),
        ),
        HavingExpr::Not(a) => HavingExpr::Not(Box::new(resolve_having(a, fold))),
        HavingExpr::Compare { left, op, right } => HavingExpr::Compare {
            left: resolve_operand(left, fold),
            op: *op,
            right: resolve_operand(right, fold),
        },
        HavingExpr::IsNull { value, negated } => HavingExpr::IsNull {
            value: resolve_operand(value, fold),
            negated: *negated,
        },
    }
}

// ---- grouped results ---------------------------------------------------------------------------

/// A row without its columns from `visible` on.
pub open spec fn visible_row(row: Row, visible: usize) -> Row {
    if visible < row.len() {
        row.take(visible as int)
    } else {
        row
    }
}

pub open spec fn passes(having: Option<PredicateModel>, row: Row) -> bool {
    match having {
        Some(p) => truth(p, row) == Some(true),
        None => true,
    }
}

/// The visible parts of the group rows of which `HAVING` is true.
pub open spec fn surviving(rows: Seq<Row>, having: Option<PredicateModel>, visible: usize) -> Seq<
    Row,
>
    decreases rows.len(),
{
    if rows.len() == 0 {
        Seq::empty()
    } else {
        let before = surviving(rows.drop_last(), having, visible);
        if passes(having, rows.last()) {
            before.push(visible_row(rows.last(), visible))
        } else {
            before
        }
    }
}

/// The result of a grouped query from its groups' rows.
pub open spec fn grouped_table(
    g: GroupedModel,
    having: Option<PredicateModel>,
    rows: Seq<Row>,
) -> Table {
    Table {
        columns: g.output_names,
        rows: finalized(surviving(rows, having, g.visible_count), g.order_by, g.offset, g.limit),
    }
}

/// Filter the groups' rows, drop the hidden columns, sort, skip and truncate: the second half of a
/// grouped merge. `having` is the plan's predicate with its reals as bit patterns.
#[verifier::loop_isolation(false)]
pub fn finish_grouped(g: &Grouped, having: &Option<HavingExpr>, rows: &Vec<Vec<DbValue>>) -> (r:
    QueryResult)
    ensures
        r@ == grouped_table(g@, predicate_option(*having), rows_view(rows@)),
{
    let ghost model = rows_view(rows@);
    let ghost predicate = predicate_option(*having);
    let mut out: Vec<Vec<DbValue>> = Vec::new();
    let mut i: usize = 0;
    assert(rows_view(out@) =~= surviving(model.take(0), predicate, g.visible_count));
    while i < rows.len()
        invariant
            i <= rows@.len(),
            rows_view(out@) == surviving(model.take(i as int), predicate, g.visible_count),
        decreases rows@.len() - i,
    {
        proof {
            assert(model.take(i as int + 1).drop_last() =~= model.take(i as int));
            assert(model.take(i as int + 1).last() == row_view(rows@[i as int]@));
        }
        let keep = match having {
            Some(h) => match eval_having(h, &rows[i]) {
                Some(true) => true,
                _ => false,
            },
            None => true,
        };
        if keep {
            let mut row = copy_row(&rows[i]);
            let ghost whole = row@;
            assert(row_view(whole).len() == whole.len());
            if g.visible_count < row.len() {
                row.truncate(g.visible_count);
                assert(row_view(row@) =~= row_view(whole).take(g.visible_count as int));
            }
            let ghost before = out@;
            let ghost shown = row_view(row@);
            out.push(row);
            assert(rows_view(out@) =~= rows_view(before).push(shown));
        }
        i = i + 1;
    }
    assert(model.take(rows@.len() as int) =~= model);
    finalize_rows(&mut out, &g.order_by, g.offset, g.limit);
    QueryResult { columns: copy_strings(&g.output_names), rows: out }
}

/// Whether `values` are the values of cells.
pub open spec fn row_resolves<F: Fn(&RealFold) -> u64>(
    fold: F,
    cells: Seq<CellModel>,
    values: Row,
) -> bool {
    values.len() == cells.len() && forall|i: int|
        0 <= i < cells.len() ==> resolves(fold, cells[i], #[trigger] values[i])
}

pub open spec fn rows_resolve<F: Fn(&RealFold) -> u64>(
    fold: F,
    cells: Seq<Seq<CellModel>>,
    values: Seq<Row>,
) -> bool {
    values.len() == cells.len() && forall|i: int|
        0 <= i < cells.len() ==> row_resolves(fold, cells[i], #[trigger] values[i])
}

fn resolve_cell<F: Fn(&RealFold) -> u64>(cell: &Cell, fold: &F) -> (r: DbValue)
    requires
        forall|x: &RealFold| call_requires(*fold, (x,)),
    ensures
        resolves(*fold, cell@, r@),
{
    match cell {
        Cell::Value(v) => v.copy(),
        Cell::Fold(f) => {
            let bits: u64 = fold(f);
            assert(folds_to(*fold, f@, bits));
            DbValue::Real(bits)
        },
    }
}

/// The values of a row of cells.
fn resolve_row<F: Fn(&RealFold) -> u64>(cells: &Vec<Cell>, fold: &F) -> (r: Vec<DbValue>)
    requires
        forall|x: &RealFold| call_requires(*fold, (x,)),
    ensures
        row_resolves(*fold, cells_view(cells@), row_view(r@)),
{
    let mut out: Vec<DbValue> = Vec::new();
    let mut i: usize = 0;
    while i < cells.len()
        invariant
            i <= cells@.len(),
            out@.len() == i,
            forall|x: &RealFold| call_requires(*fold, (x,)),
            forall|k: int|
                0 <= k < i ==> resolves(*fold, cells_view(cells@)[k], #[trigger] row_view(out@)[k]),
        decreases cells@.len() - i,
    {
        let ghost before = out@;
        let v = resolve_cell(&cells[i], fold);
        let ghost new = v@;
        push_value(&mut out, v);
        assert forall|k: int| 0 <= k < i + 1 implies resolves(
            *fold,
            cells_view(cells@)[k],
            #[trigger] row_view(out@)[k],
        ) by {
            if k < i {
                assert(row_view(out@)[k] == row_view(before)[k]);
            }
        }
        assert(row_view(out@).len() == out@.len());
        i = i + 1;
    }
    out
}

fn resolve_rows<F: Fn(&RealFold) -> u64>(cells: &Vec<Vec<Cell>>, fold: &F) -> (r: Vec<Vec<DbValue>>)
    requires
        forall|x: &RealFold| call_requires(*fold, (x,)),
    ensures
        rows_resolve(*fold, cell_rows_view(cells@), rows_view(r@)),
{
    let mut out: Vec<Vec<DbValue>> = Vec::new();
    let mut i: usize = 0;
    while i < cells.len()
        invariant
            i <= cells@.len(),
            out@.len() == i,
            forall|x: &RealFold| call_requires(*fold, (x,)),
            forall|k: int|
                0 <= k < i ==> row_resolves(
                    *fold,
                    cell_rows_view(cells@)[k],
                    #[trigger] rows_view(out@)[k],
                ),
        decreases cells@.len() - i,
    {
        let ghost before = out@;
        let row = resolve_row(&cells[i], fold);
        let ghost new = row_view(row@);
        out.push(row);
        assert forall|k: int| 0 <= k < i + 1 implies row_resolves(
            *fold,
            cell_rows_view(cells@)[k],
            #[trigger] rows_view(out@)[k],
        ) by {
            if k < i {
                assert(rows_view(out@)[k] == rows_view(before)[k]);
            }
        }
        i = i + 1;
    }
    out
}

/// Whether `r` is the merge of partial rows of a grouped query.
pub open spec fn grouped_merge<F: Fn(&RealFold) -> u64>(
    g: GroupedModel,
    partials: Seq<Row>,
    fold: F,
    r: Table,
) -> bool {
    exists|values: Seq<Row>, having: Option<PredicateModel>|
        #![trigger grouped_table(g, having, values)]
        rows_resolve(fold, all_cells(grouped(partials, g.group_cols), g.outputs), values)
            && having_resolves(fold, g.having, having) && r == grouped_table(g, having, values)
}

fn merge_grouped<F: Fn(&RealFold) -> u64>(g: &Grouped, partials: &Vec<Vec<DbValue>>, fold: &F) -> (r:
    QueryResult)
    requires
        all_compute(grouped(rows_view(partials@), g@.group_cols), g@.outputs),
        forall|x: &RealFold| call_requires(*fold, (x,)),
    ensures
        grouped_merge(g@, rows_view(partials@), *fold, r@),
{
    let cells = group_partials(partials, &g.group_cols, &g.outputs);
    let rows = resolve_rows(&cells, fold);
    let having: Option<HavingExpr> = match &g.having {
        Some(h) => Some(resolve_having(h, fold)),
        None => None,
    };
    let r = finish_grouped(g, &having, &rows);
    assert(having_resolves(*fold, g@.having, predicate_option(having)));
    r
}

// ---- every plan --------------------------------------------------------------------------------

/// The column names of the first part that has any.
pub open spec fn first_columns(parts: Seq<Table>) -> Seq<Seq<char>>
    decreases parts.len(),
{
    if parts.len() == 0 {
        Seq::empty()
    } else if parts[0].columns.len() > 0 {
        parts[0].columns
    } else {
        first_columns(parts.drop_first())
    }
}

/// The rows of every part, one part after the other.
pub open spec fn gathered(parts: Seq<Table>) -> Seq<Row>
    decreases parts.len(),
{
    if parts.len() == 0 {
        Seq::empty()
    } else {
        gathered(parts.drop_last()) + parts.last().rows
    }
}

/// The first value of the first row of every part that has one.
pub open spec fn first_values(parts: Seq<Table>) -> Seq<Datum>
    decreases parts.len(),
{
    if parts.len() == 0 {
        Seq::empty()
    } else {
        let before = first_values(parts.drop_last());
        let last = parts.last();
        if last.rows.len() > 0 && last.rows[0].len() > 0 {
            before.push(last.rows[0][0])
        } else {
            before
        }
    }
}

/// Whether a plan is one whose per-shard results are merged: set operations, subqueries and
/// central execution are the coordinator's before any merge.
pub open spec fn merges(plan: PlanModel) -> bool {
    !(plan is SetOp || plan is Subqueries || plan is Central)
}

/// Whether the sums that a merge makes of integers stay in 64 bits.
pub open spec fn sums_fit(plan: PlanModel, parts: Seq<Table>) -> bool {
    match plan {
        PlanModel::Aggregate { combine } => combines(combine, first_values(parts)),
        PlanModel::Grouped(g) => all_compute(grouped(gathered(parts), g.group_cols), g.outputs),
        _ => true,
    }
}

/// Whether `r` is the merge of per-shard results under a plan.
pub open spec fn merged<F: Fn(&RealFold) -> u64>(
    plan: PlanModel,
    parts: Seq<Table>,
    fold: F,
    r: Table,
) -> bool {
    let columns = first_columns(parts);
    let rows = gathered(parts);
    match plan {
        PlanModel::SingleShard => r == (if parts.len() > 0 {
            parts[0]
        } else {
            empty_table()
        }),
        PlanModel::Concat { limit } => r == (Table { columns, rows: limited(rows, limit) }),
        PlanModel::Merge { keys, limit } => r == (Table {
            columns,
            rows: limited(sorted_rows(rows, keys), limit),
        }),
        PlanModel::Aggregate { combine } => r.columns == columns && r.rows.len() == 1
            && r.rows[0].len() == 1 && resolves(
            fold,
            combined(combine, first_values(parts)),
            r.rows[0][0],
        ),
        PlanModel::Grouped(g) => grouped_merge(g, rows, fold, r),
        PlanModel::PostProcess(p) => r == (Table {
            columns,
            rows: finalized(
                if p.distinct {
                    kept(rows, Seq::empty(), Keep::First)
                } else {
                    rows
                },
                p.order_by,
                p.offset,
                p.limit,
            ),
        }),
        _ => false,
    }
}

fn column_names(parts: &Vec<QueryResult>) -> (r: Vec<String>)
    ensures
        views(r@) == first_columns(tables(parts@)),
{
    let ghost model = tables(parts@);
    let mut i: usize = 0;
    assert(model.skip(0) =~= model);
    while i < parts.len()
        invariant
            i <= parts@.len(),
            model == tables(parts@),
            first_columns(model) == first_columns(model.skip(i as int)),
        decreases parts@.len() - i,
    {
        proof {
            assert(model.skip(i as int)[0] == parts@[i as int]@);
            assert(model.skip(i as int).drop_first() =~= model.skip(i as int + 1));
            assert(views(parts@[i as int].columns@).len() == parts@[i as int].columns@.len());
        }
        if parts[i].columns.len() > 0 {
            return copy_strings(&parts[i].columns);
        }
        i = i + 1;
    }
    let none: Vec<String> = Vec::new();
    assert(views(none@) =~= Seq::empty());
    none
}

fn gather_rows(parts: &Vec<QueryResult>) -> (r: Vec<Vec<DbValue>>)
    ensures
        rows_view(r@) == gathered(tables(parts@)),
{
    let ghost model = tables(parts@);
    let mut out: Vec<Vec<DbValue>> = Vec::new();
    let mut i: usize = 0;
    assert(rows_view(out@) =~= gathered(model.take(0)));
    while i < parts.len()
        invariant
            i <= parts@.len(),
            model == tables(parts@),
            rows_view(out@) == gathered(model.take(i as int)),
        decreases parts@.len() - i,
    {
        proof {
            assert(model.take(i as int + 1).drop_last() =~= model.take(i as int));
            assert(model.take(i as int + 1).last() == parts@[i as int]@);
        }
        append_rows(&mut out, copy_rows(&parts[i].rows));
        i = i + 1;
    }
    assert(model.take(parts@.len() as int) =~= model);
    out
}

fn leading_values(parts: &Vec<QueryResult>) -> (r: Vec<DbValue>)
    ensures
        row_view(r@) == first_values(tables(parts@)),
{
    let ghost model = tables(parts@);
    let mut out: Vec<DbValue> = Vec::new();
    let mut i: usize = 0;
    assert(row_view(out@) =~= first_values(model.take(0)));
    while i < parts.len()
        invariant
            i <= parts@.len(),
            model == tables(parts@),
            row_view(out@) == first_values(model.take(i as int)),
        decreases parts@.len() - i,
    {
        let rows = &parts[i].rows;
        proof {
            assert(model.take(i as int + 1).drop_last() =~= model.take(i as int));
            assert(model.take(i as int + 1).last() == parts@[i as int]@);
            assert(rows_view(rows@).len() == rows@.len());
        }
        if rows.len() > 0 {
            assert(rows_view(rows@)[0] == row_view(rows@[0]@));
            if rows[0].len() > 0 {
                assert(row_view(rows@[0]@)[0] == rows@[0]@[0]@);
                push_value(&mut out, rows[0][0].copy());
            }
        }
        i = i + 1;
    }
    assert(model.take(parts@.len() as int) =~= model);
    out
}

/// Combine per-shard results according to `plan`. A shard that holds nothing for the query
/// contributes nothing. `fold` does the arithmetic on reals.
pub fn merge_results<F: Fn(&RealFold) -> u64>(plan: &Plan, parts: &Vec<QueryResult>, fold: &F) -> (r:
    QueryResult)
    requires
        merges(plan@),
        sums_fit(plan@, tables(parts@)),
        forall|x: &RealFold| call_requires(*fold, (x,)),
    ensures
        merged(plan@, tables(parts@), *fold, r@),
{
    let columns = column_names(parts);
    match plan {
        Plan::SingleShard => {
            assert(tables(parts@).len() == parts@.len());
            if parts.len() > 0 {
                assert(tables(parts@)[0] == parts@[0]@);
                QueryResult {
                    columns: copy_strings(&parts[0].columns),
                    rows: copy_rows(&parts[0].rows),
                }
            } else {
                QueryResult::empty()
            }
        },
        Plan::Concat { limit } => {
            let mut rows = gather_rows(parts);
            truncate_rows(&mut rows, *limit);
            QueryResult { columns, rows }
        },
        Plan::Merge { keys, limit } => {
            let mut rows = gather_rows(parts);
            sort_rows(&mut rows, keys);
            truncate_rows(&mut rows, *limit);
            QueryResult { columns, rows }
        },
        Plan::Aggregate { combine } => {
            let values = leading_values(parts);
            let value = resolve(combine_values(*combine, &values), fold);
            let ghost v = value@;
            let mut row: Vec<DbValue> = Vec::new();
            row.push(value);
            let mut rows: Vec<Vec<DbValue>> = Vec::new();
            rows.push(row);
            let r = QueryResult { columns, rows };
            assert(r@.rows.len() == 1);
            assert(r@.rows[0].len() == 1);
            assert(r@.rows[0][0] == v);
            r
        },
        Plan::Grouped(g) => {
            let rows = gather_rows(parts);
            merge_grouped(g, &rows, fold)
        },
        Plan::PostProcess(p) => {
            let mut rows = gather_rows(parts);
            if p.distinct {
                dedup_rows(&mut rows);
            }
            finalize_rows(&mut rows, &p.order_by, p.offset, p.limit);
            QueryResult { columns, rows }
        },
        _ => QueryResult::empty(),
    }
}

} // verus!
