//! What holds of the groups of `GROUP BY`.

use vstd::prelude::*;

use super::laws::{exact_row, law_value_order_flips, law_value_order_transitive};
use super::merge::{group_key, grouped, lemma_with_row_skips, with_row, GroupModel, Row};
use super::order::{key_order, same_row, value_order};
use crate::storage::doubles::Order;

verus! {

proof fn lemma_key_flips(a: Row, b: Row)
    ensures
        key_order(a, b) == key_order(b, a).flipped(),
    decreases a.len(),
{
    if a.len() > 0 && b.len() > 0 {
        law_value_order_flips(a[0], b[0]);
        lemma_key_flips(a.drop_first(), b.drop_first());
    }
}

proof fn lemma_key_transitive(a: Row, b: Row, c: Row, mixed: bool)
    requires
        exact_row(a, mixed),
        exact_row(b, mixed),
        exact_row(c, mixed),
        key_order(a, b) != Order::Greater,
        key_order(b, c) != Order::Greater,
    ensures
        key_order(a, c) != Order::Greater,
        key_order(a, c) == Order::Equal ==> key_order(a, b) == Order::Equal && key_order(b, c)
            == Order::Equal,
    decreases a.len(),
{
    if a.len() > 0 && b.len() > 0 && c.len() > 0 {
        law_value_order_transitive(a[0], b[0], c[0], mixed);
        if value_order(a[0], b[0]) == Order::Equal && value_order(b[0], c[0]) == Order::Equal {
            let (x, y, z) = (a.drop_first(), b.drop_first(), c.drop_first());
            assert forall|i: int| 0 <= i < x.len() implies super::laws::exact(#[trigger] x[i], mixed) by {
                assert(super::laws::exact(a[i + 1], mixed));
            }
            assert forall|i: int| 0 <= i < y.len() implies super::laws::exact(#[trigger] y[i], mixed) by {
                assert(super::laws::exact(b[i + 1], mixed));
            }
            assert forall|i: int| 0 <= i < z.len() implies super::laws::exact(#[trigger] z[i], mixed) by {
                assert(super::laws::exact(c[i + 1], mixed));
            }
            lemma_key_transitive(x, y, z, mixed);
        }
    }
}

proof fn lemma_key_itself(a: Row)
    ensures
        key_order(a, a) == Order::Equal,
{
    lemma_key_flips(a, a);
}

/// The rows of a key, in their order.
pub open spec fn rows_of(rows: Seq<Row>, columns: Seq<usize>, key: Row) -> Seq<Row> {
    rows.filter(|r: Row| same_row(key, group_key(r, columns)))
}

/// Whether the keys of the groups ascend, and all of them hold exact values.
pub open spec fn keys_ascend(groups: Seq<GroupModel>, mixed: bool) -> bool {
    &&& forall|i: int| 0 <= i < groups.len() ==> exact_row((#[trigger] groups[i]).key, mixed)
    &&& forall|i: int, j: int|
        0 <= i < j < groups.len() ==> key_order(
            (#[trigger] groups[i]).key,
            (#[trigger] groups[j]).key,
        ) == Order::Less
}

/// Whether each group holds the rows of its key.
pub open spec fn groups_hold(groups: Seq<GroupModel>, rows: Seq<Row>, columns: Seq<usize>) -> bool {
    forall|i: int|
        0 <= i < groups.len() ==> (#[trigger] groups[i]).rows == rows_of(
            rows,
            columns,
            groups[i].key,
        )
}

/// Whether a key has a group.
pub open spec fn has_group(groups: Seq<GroupModel>, key: Row) -> bool {
    exists|i: int| 0 <= i < groups.len() && same_row((#[trigger] groups[i]).key, key)
}

/// The first place from `i` on whose key is not below a key.
spec fn place(groups: Seq<GroupModel>, key: Row, i: int) -> int
    decreases groups.len() - i,
{
    if i < 0 || i >= groups.len() || key_order(groups[i].key, key) != Order::Less {
        i
    } else {
        place(groups, key, i + 1)
    }
}

proof fn lemma_place(groups: Seq<GroupModel>, key: Row, i: int)
    requires
        0 <= i <= groups.len(),
    ensures
        i <= place(groups, key, i) <= groups.len(),
        forall|k: int|
            i <= k < place(groups, key, i) ==> key_order((#[trigger] groups[k]).key, key)
                == Order::Less,
        place(groups, key, i) < groups.len() ==> key_order(
            groups[place(groups, key, i)].key,
            key,
        ) != Order::Less,
    decreases groups.len() - i,
{
    if i < groups.len() && key_order(groups[i].key, key) == Order::Less {
        lemma_place(groups, key, i + 1);
    }
}

/// Adding a row puts it into the group of its key, or into one of its own, and leaves the other
/// groups alone.
spec fn row_added(groups: Seq<GroupModel>, key: Row, row: Row, at: int, after: Seq<GroupModel>) -> bool {
    &&& 0 <= at < after.len()
    &&& same_row(after[at].key, key)
    &&& if after.len() == groups.len() {
        &&& after[at].key == groups[at].key
        &&& after[at].rows == groups[at].rows.push(row)
        &&& forall|i: int| 0 <= i < groups.len() && i != at ==> #[trigger] after[i] == groups[i]
    } else {
        &&& after.len() == groups.len() + 1
        &&& after[at] == (GroupModel { key, rows: seq![row] })
        &&& forall|i: int| 0 <= i < at ==> #[trigger] after[i] == groups[i]
        &&& forall|i: int| at < i < after.len() ==> #[trigger] after[i] == groups[i - 1]
    }
}

proof fn lemma_row_added(groups: Seq<GroupModel>, key: Row, row: Row)
    ensures
        row_added(groups, key, row, place(groups, key, 0), with_row(groups, key, row)),
        with_row(groups, key, row).len() == groups.len() <==> place(groups, key, 0) < groups.len()
            && same_row(groups[place(groups, key, 0)].key, key),
{
    let at = place(groups, key, 0);
    lemma_place(groups, key, 0);
    lemma_with_row_skips(groups, key, row, at);
    lemma_key_itself(key);
    let rest = groups.skip(at);
    if at < groups.len() {
        assert(rest[0] == groups[at]);
        assert(rest.drop_first() =~= groups.skip(at + 1));
    }
}

proof fn lemma_above(groups: Seq<GroupModel>, key: Row, mixed: bool)
    requires
        keys_ascend(groups, mixed),
        exact_row(key, mixed),
    ensures
        forall|j: int|
            0 <= j < groups.len() && (j > place(groups, key, 0) || (j == place(groups, key, 0)
                && !same_row(groups[j].key, key))) ==> key_order(
                key,
                (#[trigger] groups[j]).key,
            ) == Order::Less,
{
    let at = place(groups, key, 0);
    lemma_place(groups, key, 0);
    assert forall|j: int|
        0 <= j < groups.len() && (j > at || (j == at && !same_row(groups[j].key, key))) implies key_order(
        key,
        (#[trigger] groups[j]).key,
    ) == Order::Less by {
        lemma_key_flips(groups[at].key, key);
        if j > at {
            assert(key_order(groups[at].key, groups[j].key) == Order::Less);
            lemma_key_transitive(key, groups[at].key, groups[j].key, mixed);
        }
    }
}

proof fn lemma_ascends_with(groups: Seq<GroupModel>, key: Row, row: Row, mixed: bool)
    requires
        keys_ascend(groups, mixed),
        exact_row(key, mixed),
    ensures
        keys_ascend(with_row(groups, key, row), mixed),
{
    let at = place(groups, key, 0);
    let after = with_row(groups, key, row);
    lemma_place(groups, key, 0);
    lemma_row_added(groups, key, row);
    lemma_above(groups, key, mixed);
    if after.len() == groups.len() {
        assert forall|i: int| 0 <= i < after.len() implies (#[trigger] after[i]).key
            == groups[i].key by {}
        assert forall|i: int| 0 <= i < after.len() implies exact_row((#[trigger] after[i]).key, mixed) by {
            assert(exact_row(groups[i].key, mixed));
        }
        assert forall|i: int, j: int| 0 <= i < j < after.len() implies key_order(
            (#[trigger] after[i]).key,
            (#[trigger] after[j]).key,
        ) == Order::Less by {
            assert(key_order(groups[i].key, groups[j].key) == Order::Less);
        }
    } else {
        assert forall|i: int| 0 <= i < after.len() implies exact_row((#[trigger] after[i]).key, mixed) by {
            if i < at {
                assert(exact_row(groups[i].key, mixed));
            } else if i > at {
                assert(exact_row(groups[i - 1].key, mixed));
            }
        }
        assert forall|i: int, j: int| 0 <= i < j < after.len() implies key_order(
            (#[trigger] after[i]).key,
            (#[trigger] after[j]).key,
        ) == Order::Less by {
            if j < at {
                assert(key_order(groups[i].key, groups[j].key) == Order::Less);
            } else if j == at {
                assert(key_order(groups[i].key, key) == Order::Less);
            } else if i < at {
                assert(key_order(groups[i].key, groups[j - 1].key) == Order::Less);
            } else if i == at {
                assert(key_order(key, groups[j - 1].key) == Order::Less);
            } else {
                assert(key_order(groups[i - 1].key, groups[j - 1].key) == Order::Less);
            }
        }
    }
}

proof fn lemma_new_key(groups: Seq<GroupModel>, key: Row, row: Row, mixed: bool)
    requires
        keys_ascend(groups, mixed),
        exact_row(key, mixed),
        with_row(groups, key, row).len() != groups.len(),
    ensures
        !has_group(groups, key),
{
    let at = place(groups, key, 0);
    lemma_place(groups, key, 0);
    lemma_row_added(groups, key, row);
    lemma_above(groups, key, mixed);
    if has_group(groups, key) {
        let i = choose|i: int| 0 <= i < groups.len() && same_row((#[trigger] groups[i]).key, key);
        lemma_key_flips(groups[i].key, key);
        assert(i < at || key_order(key, groups[i].key) == Order::Less);
    }
}

/// Two keys that are the same as a third are the same.
proof fn lemma_same_through(a: Row, b: Row, c: Row, mixed: bool)
    requires
        exact_row(a, mixed),
        exact_row(b, mixed),
        exact_row(c, mixed),
        same_row(a, b),
        same_row(b, c),
    ensures
        same_row(a, c),
{
    lemma_key_transitive(a, b, c, mixed);
    lemma_key_flips(a, b);
    lemma_key_flips(b, c);
    lemma_key_transitive(c, b, a, mixed);
    lemma_key_flips(a, c);
}

proof fn lemma_rows_of_last(rows: Seq<Row>, columns: Seq<usize>, key: Row)
    requires
        rows.len() > 0,
    ensures
        rows_of(rows, columns, key) == if same_row(key, group_key(rows.last(), columns)) {
            rows_of(rows.drop_last(), columns, key).push(rows.last())
        } else {
            rows_of(rows.drop_last(), columns, key)
        },
{
    reveal(Seq::filter);
}

proof fn lemma_rows_of_nothing(rows: Seq<Row>, columns: Seq<usize>, key: Row)
    requires
        forall|k: int|
            0 <= k < rows.len() ==> !same_row(key, group_key(#[trigger] rows[k], columns)),
    ensures
        rows_of(rows, columns, key) == Seq::<Row>::empty(),
    decreases rows.len(),
{
    reveal(Seq::filter);
    if rows.len() > 0 {
        let rest = rows.drop_last();
        assert forall|k: int| 0 <= k < rest.len() implies !same_row(
            key,
            group_key(#[trigger] rest[k], columns),
        ) by {
            assert(rest[k] == rows[k]);
        }
        lemma_rows_of_nothing(rest, columns, key);
        lemma_rows_of_last(rows, columns, key);
        assert(rows.last() == rows[rows.len() - 1]);
    }
}

/// `GROUP BY` loses no row and counts none twice: every row's key has a group, no two groups have
/// the same key, and a group holds exactly the rows of its key, in their order. This is said of keys
/// of exact values, among which being the same is an equivalence.
pub proof fn law_groups_hold_exactly_their_rows(rows: Seq<Row>, columns: Seq<usize>, mixed: bool)
    requires
        forall|k: int|
            0 <= k < rows.len() ==> exact_row(group_key(#[trigger] rows[k], columns), mixed),
    ensures
        keys_ascend(grouped(rows, columns), mixed),
        groups_hold(grouped(rows, columns), rows, columns),
        forall|k: int|
            0 <= k < rows.len() ==> has_group(
                grouped(rows, columns),
                group_key(#[trigger] rows[k], columns),
            ),
    decreases rows.len(),
{
    if rows.len() > 0 {
        let rest = rows.drop_last();
        assert forall|k: int| 0 <= k < rest.len() implies exact_row(
            group_key(#[trigger] rest[k], columns),
            mixed,
        ) by {
            assert(rest[k] == rows[k]);
        }
        law_groups_hold_exactly_their_rows(rest, columns, mixed);
        let before = grouped(rest, columns);
        let row = rows.last();
        let key = group_key(row, columns);
        assert(row == rows[rows.len() - 1]);
        assert(exact_row(key, mixed));
        let at = place(before, key, 0);
        let after = grouped(rows, columns);
        lemma_row_added(before, key, row);
        lemma_ascends_with(before, key, row, mixed);
        lemma_key_flips(after[at].key, key);
        assert forall|i: int| 0 <= i < after.len() implies (#[trigger] after[i]).rows == rows_of(
            rows,
            columns,
            after[i].key,
        ) by {
            let mine = after[i].key;
            lemma_rows_of_last(rows, columns, mine);
            if i != at {
                if same_row(mine, key) {
                    lemma_key_flips(mine, key);
                    lemma_same_through(mine, key, after[at].key, mixed);
                    lemma_key_flips(mine, after[at].key);
                }
                assert(!same_row(mine, key));
                let m = if after.len() == before.len() || i < at {
                    i
                } else {
                    i - 1
                };
                assert(after[i] == before[m]);
            } else if after.len() > before.len() {
                lemma_new_key(before, key, row, mixed);
                assert forall|k: int| 0 <= k < rest.len() implies !same_row(
                    mine,
                    group_key(#[trigger] rest[k], columns),
                ) by {
                    let other = group_key(rest[k], columns);
                    if same_row(mine, other) {
                        assert(has_group(before, other));
                        let g = choose|g: int|
                            0 <= g < before.len() && same_row((#[trigger] before[g]).key, other);
                        lemma_key_flips(mine, other);
                        lemma_same_through(before[g].key, other, mine, mixed);
                        assert(has_group(before, key));
                    }
                }
                lemma_rows_of_nothing(rest, columns, mine);
                assert(seq![row] =~= Seq::<Row>::empty().push(row));
            } else {
                assert(before[at].rows == rows_of(rest, columns, before[at].key));
            }
        }
        assert forall|k: int| 0 <= k < rows.len() implies has_group(
            after,
            group_key(#[trigger] rows[k], columns),
        ) by {
            if k < rest.len() {
                assert(rest[k] == rows[k]);
                let other = group_key(rows[k], columns);
                assert(has_group(before, other));
                let g = choose|g: int|
                    0 <= g < before.len() && same_row((#[trigger] before[g]).key, other);
                let m = if after.len() == before.len() || g < at {
                    g
                } else {
                    g + 1
                };
                assert(after[m].key == before[g].key);
            } else {
                assert(same_row(after[at].key, key));
            }
        }
    }
}

} // verus!
