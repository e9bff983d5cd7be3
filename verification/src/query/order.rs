//! SQLite's order of values, and the orders of rows and group keys made of it.

use vstd::prelude::*;

use super::plan::SortKey;
use crate::storage::doubles::{
    int_order, int_real_order, order_i64, order_int_real, order_reals, real_order, Order,
};
use crate::storage::exec::{row_view, Datum, DbValue};
use crate::text::chars_of;

verus! {

/// Storage classes in order: NULL, numbers, text, blobs.
pub open spec fn rank(v: Datum) -> int {
    match v {
        Datum::Null => 0,
        Datum::Integer(_) => 1,
        Datum::Real(_) => 1,
        Datum::Text(_) => 2,
        Datum::Blob(_) => 3,
    }
}

/// Dictionary order.
pub open spec fn lex_order(a: Seq<int>, b: Seq<int>) -> Order
    decreases a.len(),
{
    if a.len() == 0 && b.len() == 0 {
        Order::Equal
    } else if a.len() == 0 {
        Order::Less
    } else if b.len() == 0 {
        Order::Greater
    } else if a[0] == b[0] {
        lex_order(a.drop_first(), b.drop_first())
    } else {
        int_order(a[0], b[0])
    }
}

pub open spec fn char_codes(s: Seq<char>) -> Seq<int> {
    s.map_values(|c: char| c as int)
}

pub open spec fn byte_codes(s: Seq<u8>) -> Seq<int> {
    s.map_values(|b: u8| b as int)
}

/// How two values compare: numbers by size whatever their type, text by code points, blobs by
/// bytes, and otherwise by storage class.
pub open spec fn value_order(a: Datum, b: Datum) -> Order {
    match (a, b) {
        (Datum::Integer(x), Datum::Integer(y)) => int_order(x as int, y as int),
        (Datum::Real(x), Datum::Real(y)) => real_order(x, y),
        (Datum::Integer(x), Datum::Real(y)) => int_real_order(x, y),
        (Datum::Real(x), Datum::Integer(y)) => int_real_order(y, x).flipped(),
        (Datum::Text(x), Datum::Text(y)) => lex_order(char_codes(x), char_codes(y)),
        (Datum::Blob(x), Datum::Blob(y)) => lex_order(byte_codes(x), byte_codes(y)),
        _ => int_order(rank(a), rank(b)),
    }
}

/// How two group keys compare: value by value, then by length.
pub open spec fn key_order(a: Seq<Datum>, b: Seq<Datum>) -> Order
    decreases a.len(),
{
    if a.len() == 0 || b.len() == 0 {
        int_order(a.len() as int, b.len() as int)
    } else if value_order(a[0], b[0]) != Order::Equal {
        value_order(a[0], b[0])
    } else {
        key_order(a.drop_first(), b.drop_first())
    }
}

/// Whether two rows are the same to `GROUP BY`, `DISTINCT` and the set operators.
pub open spec fn same_row(a: Seq<Datum>, b: Seq<Datum>) -> bool {
    key_order(a, b) == Order::Equal
}

/// How two values of a sort column compare. Where a NULL goes is the key's own choice, whichever
/// way it sorts.
pub open spec fn sort_order(x: Datum, y: Datum, key: SortKey) -> Order {
    if x is Null && y is Null {
        Order::Equal
    } else if x is Null {
        if key.nulls_first {
            Order::Less
        } else {
            Order::Greater
        }
    } else if y is Null {
        if key.nulls_first {
            Order::Greater
        } else {
            Order::Less
        }
    } else if key.descending {
        value_order(x, y).flipped()
    } else {
        value_order(x, y)
    }
}

/// How two rows compare under one key; a column that one of them lacks decides nothing.
pub open spec fn column_order(a: Seq<Datum>, b: Seq<Datum>, key: SortKey) -> Order {
    if key.column < a.len() && key.column < b.len() {
        sort_order(a[key.column as int], b[key.column as int], key)
    } else {
        Order::Equal
    }
}

/// How two rows compare: by the first key from `i` on that tells them apart.
pub open spec fn row_order(a: Seq<Datum>, b: Seq<Datum>, keys: Seq<SortKey>, i: int) -> Order
    decreases keys.len() - i,
{
    if i < 0 || i >= keys.len() {
        Order::Equal
    } else if column_order(a, b, keys[i]) != Order::Equal {
        column_order(a, b, keys[i])
    } else {
        row_order(a, b, keys, i + 1)
    }
}

pub(crate) proof fn lemma_lex_skip(a: Seq<int>, b: Seq<int>, i: int)
    requires
        0 <= i <= a.len(),
        i <= b.len(),
        forall|k: int| 0 <= k < i ==> a[k] == #[trigger] b[k],
    ensures
        lex_order(a, b) == lex_order(a.skip(i), b.skip(i)),
    decreases i,
{
    if i == 0 {
        assert(a.skip(0) =~= a);
        assert(b.skip(0) =~= b);
    } else {
        assert(a[0] == b[0]);
        let x = a.drop_first();
        let y = b.drop_first();
        assert forall|k: int| 0 <= k < i - 1 implies x[k] == #[trigger] y[k] by {
            assert(x[k] == a[k + 1]);
            assert(y[k] == b[k + 1]);
        }
        lemma_lex_skip(x, y, i - 1);
        assert(x.skip(i - 1) =~= a.skip(i));
        assert(y.skip(i - 1) =~= b.skip(i));
    }
}

/// Dictionary order of two texts, by code points.
pub fn order_texts(a: &str, b: &str) -> (r: Order)
    ensures
        r == lex_order(char_codes(a@), char_codes(b@)),
{
    let x = chars_of(a);
    let y = chars_of(b);
    let ghost p = char_codes(a@);
    let ghost q = char_codes(b@);
    let mut i: usize = 0;
    while i < x.len() && i < y.len()
        invariant
            i <= x@.len(),
            i <= y@.len(),
            x@ == a@,
            y@ == b@,
            p == char_codes(a@),
            q == char_codes(b@),
            forall|k: int| 0 <= k < i ==> p[k] == #[trigger] q[k],
        decreases x@.len() - i,
    {
        if x[i] != y[i] {
            proof {
                lemma_lex_skip(p, q, i as int);
                assert(p.skip(i as int)[0] == p[i as int]);
                assert(q.skip(i as int)[0] == q[i as int]);
                assert(p[i as int] == x@[i as int] as int);
                assert(q[i as int] == y@[i as int] as int);
            }
            return if x[i] < y[i] {
                Order::Less
            } else {
                Order::Greater
            };
        }
        i = i + 1;
    }
    proof {
        lemma_lex_skip(p, q, i as int);
    }
    if i < y.len() {
        Order::Less
    } else if i < x.len() {
        Order::Greater
    } else {
        Order::Equal
    }
}

fn order_bytes(x: &Vec<u8>, y: &Vec<u8>) -> (r: Order)
    ensures
        r == lex_order(byte_codes(x@), byte_codes(y@)),
{
    let ghost p = byte_codes(x@);
    let ghost q = byte_codes(y@);
    let mut i: usize = 0;
    while i < x.len() && i < y.len()
        invariant
            i <= x@.len(),
            i <= y@.len(),
            p == byte_codes(x@),
            q == byte_codes(y@),
            forall|k: int| 0 <= k < i ==> p[k] == #[trigger] q[k],
        decreases x@.len() - i,
    {
        if x[i] != y[i] {
            proof {
                lemma_lex_skip(p, q, i as int);
                assert(p.skip(i as int)[0] == p[i as int]);
                assert(q.skip(i as int)[0] == q[i as int]);
            }
            return if x[i] < y[i] {
                Order::Less
            } else {
                Order::Greater
            };
        }
        i = i + 1;
    }
    proof {
        lemma_lex_skip(p, q, i as int);
    }
    if i < y.len() {
        Order::Less
    } else if i < x.len() {
        Order::Greater
    } else {
        Order::Equal
    }
}

fn rank_of(v: &DbValue) -> (r: i64)
    ensures
        r == rank(v@),
{
    match v {
        DbValue::Null => 0,
        DbValue::Integer(_) => 1,
        DbValue::Real(_) => 1,
        DbValue::Text(_) => 2,
        DbValue::Blob(_) => 3,
    }
}

/// SQLite's order of two values.
pub fn compare_values(a: &DbValue, b: &DbValue) -> (r: Order)
    ensures
        r == value_order(a@, b@),
{
    match (a, b) {
        (DbValue::Integer(x), DbValue::Integer(y)) => order_i64(*x, *y),
        (DbValue::Real(x), DbValue::Real(y)) => order_reals(*x, *y),
        (DbValue::Integer(x), DbValue::Real(y)) => order_int_real(*x, *y),
        (DbValue::Real(x), DbValue::Integer(y)) => order_int_real(*y, *x).reverse(),
        (DbValue::Text(x), DbValue::Text(y)) => order_texts(x.as_str(), y.as_str()),
        (DbValue::Blob(x), DbValue::Blob(y)) => order_bytes(x, y),
        _ => order_i64(rank_of(a), rank_of(b)),
    }
}

proof fn lemma_key_skip(a: Seq<Datum>, b: Seq<Datum>, i: int)
    requires
        0 <= i <= a.len(),
        i <= b.len(),
        forall|k: int| 0 <= k < i ==> value_order(#[trigger] a[k], b[k]) == Order::Equal,
    ensures
        key_order(a, b) == key_order(a.skip(i), b.skip(i)),
    decreases i,
{
    if i == 0 {
        assert(a.skip(0) =~= a);
        assert(b.skip(0) =~= b);
    } else {
        assert(value_order(a[0], b[0]) == Order::Equal);
        let x = a.drop_first();
        let y = b.drop_first();
        assert forall|k: int| 0 <= k < i - 1 implies value_order(#[trigger] x[k], y[k])
            == Order::Equal by {
            assert(value_order(a[k + 1], b[k + 1]) == Order::Equal);
        }
        lemma_key_skip(x, y, i - 1);
        assert(x.skip(i - 1) =~= a.skip(i));
        assert(y.skip(i - 1) =~= b.skip(i));
    }
}

/// The order of two group keys.
pub fn compare_keys(a: &Vec<DbValue>, b: &Vec<DbValue>) -> (r: Order)
    ensures
        r == key_order(row_view(a@), row_view(b@)),
{
    let ghost p = row_view(a@);
    let ghost q = row_view(b@);
    let mut i: usize = 0;
    while i < a.len() && i < b.len()
        invariant
            i <= a@.len(),
            i <= b@.len(),
            p == row_view(a@),
            q == row_view(b@),
            forall|k: int| 0 <= k < i ==> value_order(#[trigger] p[k], q[k]) == Order::Equal,
        decreases a@.len() - i,
    {
        let order = compare_values(&a[i], &b[i]);
        assert(order == value_order(p[i as int], q[i as int]));
        if order != Order::Equal {
            proof {
                lemma_key_skip(p, q, i as int);
                assert(p.skip(i as int)[0] == p[i as int]);
                assert(q.skip(i as int)[0] == q[i as int]);
            }
            return order;
        }
        i = i + 1;
    }
    proof {
        lemma_key_skip(p, q, i as int);
    }
    if i < b.len() {
        Order::Less
    } else if i < a.len() {
        Order::Greater
    } else {
        Order::Equal
    }
}

fn compare_column(a: &Vec<DbValue>, b: &Vec<DbValue>, key: SortKey) -> (r: Order)
    ensures
        r == column_order(row_view(a@), row_view(b@), key),
{
    if key.column >= a.len() || key.column >= b.len() {
        return Order::Equal;
    }
    let x = &a[key.column];
    let y = &b[key.column];
    assert(row_view(a@)[key.column as int] == x@);
    assert(row_view(b@)[key.column as int] == y@);
    let left = x.is_null();
    let right = y.is_null();
    if left && right {
        Order::Equal
    } else if left {
        if key.nulls_first {
            Order::Less
        } else {
            Order::Greater
        }
    } else if right {
        if key.nulls_first {
            Order::Greater
        } else {
            Order::Less
        }
    } else if key.descending {
        compare_values(x, y).reverse()
    } else {
        compare_values(x, y)
    }
}

/// The order of two rows under sort keys.
pub fn compare_rows(a: &Vec<DbValue>, b: &Vec<DbValue>, keys: &Vec<SortKey>) -> (r: Order)
    ensures
        r == row_order(row_view(a@), row_view(b@), keys@, 0),
{
    let mut i: usize = 0;
    while i < keys.len()
        invariant
            i <= keys@.len(),
            row_order(row_view(a@), row_view(b@), keys@, i as int) == row_order(
                row_view(a@),
                row_view(b@),
                keys@,
                0,
            ),
        decreases keys@.len() - i,
    {
        let order = compare_column(a, b, keys[i]);
        if order != Order::Equal {
            return order;
        }
        i = i + 1;
    }
    Order::Equal
}

} // verus!
