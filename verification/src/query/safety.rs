//! What holds of every plan, whatever the query.

use vstd::prelude::*;

use super::plan::{OperandModel, OutputCol, PlanModel, PredicateModel, SortKey};
use super::planner::{
    any_aggregate, grouped_plan, grouping_start, has_subquery, having_build,
    having_operand, having_predicate, index_from, item_aggregate, item_distinct, join_refusal,
    labelled, lone_aggregate, output_column, project_item, projected, query_plan, rows_plan,
    selects_aggregate, sort_keys, with_aggregate, Build, Projected,
};
use super::reason::Reason;
use super::syntax::{
    BodyModel, DistinctKind, GroupByModel, HavingModel, ItemModel, NodeModel, OrderByModel,
    QueryModel, SelectModel, TermModel,
};

verus! {

// ---- joins and DISTINCT ------------------------------------------------------------------------

/// A join whose rows may lie on different shards is never pushed to the shards: the rows of its
/// tables are brought together first.
pub proof fn law_other_joins_run_on_the_coordinator(
    query: QueryModel,
    select: SelectModel,
    keys: Map<Seq<char>, Seq<char>>,
    plan: PlanModel,
)
    requires
        query.body == BodyModel::Select(Box::new(select)),
        !has_subquery(query.mentions),
        join_refusal(select.from, keys) is Some,
        query_plan(query, keys) == Ok::<PlanModel, Reason>(plan),
    ensures
        plan is Central,
{
}

/// `DISTINCT` is never lost: the duplicates among the rows of different shards are dropped after
/// they are brought together.
pub proof fn law_distinct_is_never_lost(
    query: QueryModel,
    select: SelectModel,
    keys: Map<Seq<char>, Seq<char>>,
    plan: PlanModel,
)
    requires
        query.body == BodyModel::Select(Box::new(select)),
        !has_subquery(query.mentions),
        select.distinct != DistinctKind::Absent,
        !selects_aggregate(select.projection),
        query_plan(query, keys) == Ok::<PlanModel, Reason>(plan),
    ensures
        plan is Central || (plan matches PlanModel::PostProcess(p) && p.distinct),
{
}

proof fn lemma_distinct_is_central(
    items: Seq<ItemModel>,
    groups: Seq<Seq<char>>,
    start: Projected,
    n: nat,
    i: int,
)
    requires
        0 <= i < n <= items.len(),
        item_distinct(items[i]),
        projected(items, groups, start, n) is Ok,
    ensures
        projected(items, groups, start, n)->Ok_0.central,
    decreases n,
{
    if i < n - 1 {
        lemma_distinct_is_central(items, groups, start, (n - 1) as nat, i);
    }
}

proof fn lemma_distinct_is_found(items: Seq<ItemModel>, n: nat, i: int)
    requires
        0 <= i < n <= items.len(),
        item_distinct(items[i]),
    ensures
        any_aggregate(items, n) is Err || any_aggregate(items, n) == Ok::<bool, Reason>(true),
    decreases n,
{
    if i < n - 1 {
        lemma_distinct_is_found(items, (n - 1) as nat, i);
    }
}

proof fn lemma_grouped_distinct(
    query: QueryModel,
    select: SelectModel,
    terms: Seq<TermModel>,
    modified: bool,
    keys: Map<Seq<char>, Seq<char>>,
    own_sql: Seq<char>,
    central_sql: Seq<char>,
    i: int,
)
    requires
        0 <= i < select.projection.len(),
        item_distinct(select.projection[i]),
    ensures
        grouped_plan(query, select, terms, modified, keys, own_sql, central_sql) matches Ok(p)
            ==> p is Central,
{
    let group_sql = super::planner::term_texts(terms);
    let groups = super::planner::lowered(group_sql);
    let n = select.projection.len();
    if projected(select.projection, groups, grouping_start(group_sql), n) is Ok {
        lemma_distinct_is_central(select.projection, groups, grouping_start(group_sql), n, i);
    }
}

/// An aggregate over `DISTINCT` values is never combined from partial results, in which a value may
/// have been counted more than once.
pub proof fn law_distinct_aggregates_run_on_the_coordinator(
    query: QueryModel,
    select: SelectModel,
    keys: Map<Seq<char>, Seq<char>>,
    plan: PlanModel,
    i: int,
)
    requires
        query.body == BodyModel::Select(Box::new(select)),
        !has_subquery(query.mentions),
        0 <= i < select.projection.len(),
        item_distinct(select.projection[i]),
        query_plan(query, keys) == Ok::<PlanModel, Reason>(plan),
    ensures
        plan is Central,
{
    if join_refusal(select.from, keys) is None {
        assert(item_aggregate(select.projection[i]) != Ok::<Option<super::plan::Combine>, Reason>(
            None,
        ));
        let sent = if select.distinct != DistinctKind::Absent {
            query.plain
        } else {
            query.text
        };
        let central = if select.distinct != DistinctKind::Absent {
            query.plain
        } else {
            query.central
        };
        assert(rows_plan(query, select, keys, sent, central) == Ok::<PlanModel, Reason>(plan));
        lemma_distinct_is_found(select.projection, select.projection.len(), i);
        if lone_aggregate(query, select) is Some {
            assert(i == 0);
        }
        match select.group_by {
            GroupByModel::Terms { terms, modified } => {
                lemma_grouped_distinct(query, select, terms, modified, keys, sent, central, i);
                lemma_grouped_distinct(query, select, Seq::empty(), false, keys, sent, central, i);
            },
            GroupByModel::All => {},
        }
    }
}

// ---- columns -----------------------------------------------------------------------------------

proof fn lemma_labelled_in_range(items: Seq<ItemModel>, wanted: Seq<char>, i: int)
    requires
        i >= 0,
        items.len() <= usize::MAX,
    ensures
        labelled(items, wanted, i) matches Some(c) ==> c < items.len(),
    decreases items.len() - i,
{
    if i < items.len() {
        lemma_labelled_in_range(items, wanted, i + 1);
    }
}

/// Rows are only sorted by columns that are selected.
pub proof fn law_sort_columns_are_selected(
    order_by: Option<OrderByModel>,
    items: Seq<ItemModel>,
    keys: Seq<SortKey>,
    k: int,
)
    requires
        items.len() <= usize::MAX,
        sort_keys(order_by, items) == Ok::<Seq<SortKey>, Reason>(keys),
        0 <= k < keys.len(),
    ensures
        keys[k].column < items.len(),
{
    let t = order_by->0.terms->0[k].term;
    assert(output_column(t, items) is Some);
    match t.node {
        NodeModel::Identifier(s) => lemma_labelled_in_range(items, crate::text::lower(s), 0),
        NodeModel::Compound(parts) => lemma_labelled_in_range(
            items,
            crate::text::lower(parts.last()),
            0,
        ),
        _ => {},
    }
}

/// Whether an output column is computed from columns that the shards send, of which the first are
/// the grouping expressions.
pub open spec fn shipped(col: OutputCol, groups: nat, sent: nat) -> bool {
    match col {
        OutputCol::Group(g) => g < groups,
        OutputCol::Combine { col, .. } => groups <= col < sent,
        OutputCol::Avg { sum_col, count_col } => groups <= sum_col < sent && groups <= count_col
            < sent && sum_col != count_col,
    }
}

pub open spec fn all_shipped(b: Build, groups: nat) -> bool {
    &&& groups <= b.partial.len()
    &&& forall|i: int|
        0 <= i < b.outputs.len() ==> shipped(#[trigger] b.outputs[i], groups, b.partial.len())
}

/// Whether a build grew out of another: it keeps what was there.
pub open spec fn grown(b: Build, more: Build) -> bool {
    &&& b.partial.len() <= more.partial.len()
    &&& b.outputs.len() <= more.outputs.len()
    &&& more.outputs.take(b.outputs.len() as int) == b.outputs
}

pub open spec fn fits(b: Build) -> bool {
    b.partial.len() <= usize::MAX && b.outputs.len() <= usize::MAX
}

proof fn lemma_pushed(b: Build, more: Build, groups: nat, col: OutputCol)
    requires
        all_shipped(b, groups),
        b.partial.len() <= more.partial.len(),
        more.outputs == b.outputs.push(col),
        shipped(col, groups, more.partial.len()),
    ensures
        all_shipped(more, groups),
        grown(b, more),
{
    assert(more.outputs.take(b.outputs.len() as int) =~= b.outputs);
    assert forall|i: int| 0 <= i < more.outputs.len() implies shipped(
        #[trigger] more.outputs[i],
        groups,
        more.partial.len(),
    ) by {
        if i < b.outputs.len() {
            assert(shipped(b.outputs[i], groups, b.partial.len()));
        }
    }
}

proof fn lemma_index_in_range(s: Seq<Seq<char>>, x: Seq<char>, i: int)
    requires
        i >= 0,
        s.len() <= usize::MAX,
    ensures
        index_from(s, x, i) matches Some(g) ==> g < s.len(),
    decreases s.len() - i,
{
    if i < s.len() {
        lemma_index_in_range(s, x, i + 1);
    }
}

proof fn lemma_aggregate_shipped(c: super::syntax::CallModel, b: Build, groups: nat)
    requires
        all_shipped(b, groups),
        with_aggregate(c, b) matches Ok(Some(more)) ==> fits(more),
    ensures
        with_aggregate(c, b) matches Ok(Some(more)) ==> all_shipped(more, groups) && grown(b, more)
            && more.outputs.len() == b.outputs.len() + 1,
{
    match with_aggregate(c, b) {
        Ok(Some(more)) => {
            lemma_pushed(b, more, groups, more.outputs.last());
        },
        _ => {},
    }
}

proof fn lemma_projected_grows(
    items: Seq<ItemModel>,
    groups: Seq<Seq<char>>,
    start: Projected,
    n: nat,
)
    requires
        n <= items.len(),
        groups.len() <= usize::MAX,
        all_shipped(start.build, groups.len()),
        projected(items, groups, start, n) is Ok,
        fits(projected(items, groups, start, n)->Ok_0.build),
    ensures
        all_shipped(projected(items, groups, start, n)->Ok_0.build, groups.len()),
    decreases n,
{
    if n > 0 {
        let at = projected(items, groups, start, (n - 1) as nat)->Ok_0;
        let end = project_item(items[n - 1], groups, at)->Ok_0;
        assert(at.build.partial.len() <= end.build.partial.len());
        assert(at.build.outputs.len() <= end.build.outputs.len());
        lemma_projected_grows(items, groups, start, (n - 1) as nat);
        match items[n - 1] {
            ItemModel::Term { term, .. } => {
                lemma_index_in_range(groups, crate::text::lower(term.text), 0);
                match term.node {
                    NodeModel::Call(c) => {
                        if with_aggregate(c, at.build) matches Ok(Some(_)) {
                            if end.build == with_aggregate(c, at.build)->Ok_0->0 {
                                lemma_aggregate_shipped(c, at.build, groups.len());
                            }
                        }
                    },
                    _ => {},
                }
                if end.build.partial == at.build.partial && end.build.outputs.len()
                    > at.build.outputs.len() {
                    lemma_pushed(at.build, end.build, groups.len(), end.build.outputs.last());
                }
            },
            _ => {},
        }
    }
}

/// Whether an operand that is a column is one of the outputs.
pub open spec fn operand_in(v: OperandModel, outputs: nat) -> bool {
    v matches OperandModel::Column(c) ==> c < outputs
}

/// Whether the columns that a predicate speaks of are among the outputs.
pub open spec fn predicate_in(p: PredicateModel, outputs: nat) -> bool
    decreases p,
{
    match p {
        PredicateModel::And(a, b) => predicate_in(*a, outputs) && predicate_in(*b, outputs),
        PredicateModel::Or(a, b) => predicate_in(*a, outputs) && predicate_in(*b, outputs),
        PredicateModel::Not(a) => predicate_in(*a, outputs),
        PredicateModel::Compare { left, right, .. } => operand_in(left, outputs) && operand_in(
            right,
            outputs,
        ),
        PredicateModel::IsNull { value, .. } => operand_in(value, outputs),
    }
}

proof fn lemma_predicate_in_more(p: PredicateModel, fewer: nat, more: nat)
    requires
        predicate_in(p, fewer),
        fewer <= more,
    ensures
        predicate_in(p, more),
    decreases p,
{
    match p {
        PredicateModel::And(a, b) => {
            lemma_predicate_in_more(*a, fewer, more);
            lemma_predicate_in_more(*b, fewer, more);
        },
        PredicateModel::Or(a, b) => {
            lemma_predicate_in_more(*a, fewer, more);
            lemma_predicate_in_more(*b, fewer, more);
        },
        PredicateModel::Not(a) => lemma_predicate_in_more(*a, fewer, more),
        _ => {},
    }
}

proof fn lemma_grown_further(a: Build, b: Build, c: Build)
    requires
        grown(a, b),
        grown(b, c),
    ensures
        grown(a, c),
{
    assert(c.outputs.take(a.outputs.len() as int) =~= c.outputs.take(b.outputs.len() as int).take(
        a.outputs.len() as int,
    ));
}

proof fn lemma_grown_itself(b: Build)
    ensures
        grown(b, b),
{
    assert(b.outputs.take(b.outputs.len() as int) =~= b.outputs);
}

proof fn lemma_operand_grows(t: TermModel, groups: Seq<Seq<char>>, b: Build)
    ensures
        having_operand(t, groups, b) matches Ok(v) ==> grown(b, v.1),
    decreases t,
{
    lemma_grown_itself(b);
    match having_operand(t, groups, b) {
        Ok(v) => {
            match t.node {
                NodeModel::Nested(inner) => lemma_operand_grows(*inner, groups, b),
                _ => {
                    assert(v.1.outputs.take(b.outputs.len() as int) =~= b.outputs);
                },
            }
        },
        Err(_) => {},
    }
}

proof fn lemma_predicate_grows(t: TermModel, groups: Seq<Seq<char>>, b: Build)
    ensures
        having_predicate(t, groups, b) matches Ok(p) ==> grown(b, p.1),
    decreases t,
{
    match t.node {
        NodeModel::Nested(inner) => lemma_predicate_grows(*inner, groups, b),
        NodeModel::Not(inner) => lemma_predicate_grows(*inner, groups, b),
        NodeModel::IsNull(inner) => lemma_operand_grows(*inner, groups, b),
        NodeModel::IsNotNull(inner) => lemma_operand_grows(*inner, groups, b),
        NodeModel::Binary(left, _, right) => {
            lemma_predicate_grows(*left, groups, b);
            lemma_operand_grows(*left, groups, b);
            if let Ok(l) = having_predicate(*left, groups, b) {
                lemma_predicate_grows(*right, groups, l.1);
                if let Ok(r) = having_predicate(*right, groups, l.1) {
                    lemma_grown_further(b, l.1, r.1);
                }
            }
            if let Ok(l) = having_operand(*left, groups, b) {
                lemma_operand_grows(*right, groups, l.1);
                if let Ok(r) = having_operand(*right, groups, l.1) {
                    lemma_grown_further(b, l.1, r.1);
                }
            }
        },
        _ => {},
    }
}

proof fn lemma_operand_shipped(t: TermModel, groups: Seq<Seq<char>>, b: Build)
    requires
        groups.len() <= usize::MAX,
        all_shipped(b, groups.len()),
        having_operand(t, groups, b) is Ok,
        fits(having_operand(t, groups, b)->Ok_0.1),
    ensures
        all_shipped(having_operand(t, groups, b)->Ok_0.1, groups.len()),
        operand_in(
            having_operand(t, groups, b)->Ok_0.0,
            having_operand(t, groups, b)->Ok_0.1.outputs.len(),
        ),
    decreases t,
{
    let v = having_operand(t, groups, b)->Ok_0;
    lemma_index_in_range(groups, crate::text::lower(t.text), 0);
    match t.node {
        NodeModel::Nested(inner) => lemma_operand_shipped(*inner, groups, b),
        NodeModel::Call(c) => {
            if with_aggregate(c, b) matches Ok(Some(_)) {
                lemma_aggregate_shipped(c, b, groups.len());
            } else {
                lemma_pushed(b, v.1, groups.len(), v.1.outputs.last());
            }
        },
        NodeModel::Literal(_) => {},
        _ => {
            if v.1 != b {
                lemma_pushed(b, v.1, groups.len(), v.1.outputs.last());
            }
        },
    }
}

proof fn lemma_predicate_shipped(t: TermModel, groups: Seq<Seq<char>>, b: Build)
    requires
        groups.len() <= usize::MAX,
        all_shipped(b, groups.len()),
        having_predicate(t, groups, b) is Ok,
        fits(having_predicate(t, groups, b)->Ok_0.1),
    ensures
        all_shipped(having_predicate(t, groups, b)->Ok_0.1, groups.len()),
        predicate_in(
            having_predicate(t, groups, b)->Ok_0.0,
            having_predicate(t, groups, b)->Ok_0.1.outputs.len(),
        ),
    decreases t,
{
    match t.node {
        NodeModel::Nested(inner) => lemma_predicate_shipped(*inner, groups, b),
        NodeModel::Not(inner) => lemma_predicate_shipped(*inner, groups, b),
        NodeModel::IsNull(inner) => lemma_operand_shipped(*inner, groups, b),
        NodeModel::IsNotNull(inner) => lemma_operand_shipped(*inner, groups, b),
        NodeModel::Binary(left, op, right) => {
            if op == super::syntax::BinOp::And || op == super::syntax::BinOp::Or {
                let l = having_predicate(*left, groups, b)->Ok_0;
                lemma_predicate_grows(*right, groups, l.1);
                lemma_predicate_shipped(*left, groups, b);
                lemma_predicate_shipped(*right, groups, l.1);
                let r = having_predicate(*right, groups, l.1)->Ok_0;
                lemma_predicate_in_more(l.0, l.1.outputs.len(), r.1.outputs.len());
            } else {
                let l = having_operand(*left, groups, b)->Ok_0;
                lemma_operand_grows(*right, groups, l.1);
                lemma_operand_shipped(*left, groups, b);
                lemma_operand_shipped(*right, groups, l.1);
            }
        },
        _ => {},
    }
}

/// A grouped plan reads nothing that the shards do not send: every output column, of the select list
/// or of `HAVING`, is computed from columns that they select, and `HAVING` speaks of output columns
/// only.
pub proof fn law_grouped_columns_are_sent(
    items: Seq<ItemModel>,
    having: Option<HavingModel>,
    group_sql: Seq<Seq<char>>,
    p: Projected,
    predicate: Option<PredicateModel>,
    b: Build,
)
    requires
        projected(items, super::planner::lowered(group_sql), grouping_start(group_sql), items.len())
            == Ok::<Projected, Reason>(p),
        having_build(having, super::planner::lowered(group_sql), p.build) == Ok::<
            (Option<PredicateModel>, Build),
            Reason,
        >((predicate, b)),
        fits(b),
    ensures
        all_shipped(b, group_sql.len()),
        p.build.outputs.len() <= b.outputs.len(),
        predicate matches Some(x) ==> predicate_in(x, b.outputs.len()),
{
    let groups = super::planner::lowered(group_sql);
    let start = grouping_start(group_sql);
    assert(all_shipped(start.build, group_sql.len()));
    if let Some(h) = having {
        lemma_predicate_grows(h.term, groups, p.build);
    }
    lemma_projected_keeps(items, groups, start, items.len());
    lemma_projected_grows(items, groups, start, items.len());
    if let Some(h) = having {
        lemma_predicate_shipped(h.term, groups, p.build);
    }
}

proof fn lemma_projected_keeps(
    items: Seq<ItemModel>,
    groups: Seq<Seq<char>>,
    start: Projected,
    n: nat,
)
    requires
        n <= items.len(),
        projected(items, groups, start, n) is Ok,
    ensures
        start.build.partial.len() <= projected(items, groups, start, n)->Ok_0.build.partial.len(),
    decreases n,
{
    if n > 0 {
        lemma_projected_keeps(items, groups, start, (n - 1) as nat);
    }
}

} // verus!
