//! What a plan makes of a query, in plain terms: its order, its page, its aggregates, its `HAVING`
//! and its joins.

use vstd::prelude::*;

use super::merge::{truth, Row};
use super::plan::{
    Combine, CompareOp, OperandModel, OutputCol, PlanModel, PredicateModel, SetTree, SortKey,
};
use super::planner::{
    aggregate_choice, central_sources, column_pair, columns_read, conjuncts, counts_rows,
    grouping_start, having_operand, having_predicate, header, index_from, join_refusal, joined,
    labelled, leaves, literal_operand, narrowed_source, on_shard_keys, output_column, partial_sql,
    project_item, projected, query_plan, quoted_all, relations, selects_aggregate, set_tree, sort_keys, sql_plan,
    window, with_aggregate, with_relation, AggChoice, Build, Projected,
};
use super::reader::parsed;
use super::reason::Reason;
use super::syntax::{
    ArgModel, BinOp, BodyModel, CallMentionModel, CallModel, DistinctKind, FromModel, GroupByModel,
    ItemModel, JoinModel, JoinOnModel, LimitModel, LiteralModel, MentionModel, NodeModel,
    OrderByModel, OrderTermModel, Quantifier, QueryModel, SelectModel, SetKind, SourceModel,
    SqlModel, TermModel,
};
use crate::storage::exec::Datum;
use crate::text::{decimal, join_with, lemma_decimal_reads_back, lower, upper};

verus! {

// ---- ORDER BY ----------------------------------------------------------------------------------

/// Every term of an `ORDER BY` becomes a key, in order. It sorts down where it says `DESC` and up
/// otherwise, and NULLs go where it says, or else first on the way up and last on the way down.
pub proof fn law_order_by_becomes_keys(
    order_by: OrderByModel,
    terms: Seq<OrderTermModel>,
    items: Seq<ItemModel>,
    keys: Seq<SortKey>,
    k: int,
)
    requires
        order_by.terms == Some(terms),
        sort_keys(Some(order_by), items) == Ok::<Seq<SortKey>, Reason>(keys),
        0 <= k < terms.len(),
    ensures
        keys.len() == terms.len(),
        terms[k].ascending == Some(false) ==> keys[k].descending,
        terms[k].ascending != Some(false) ==> !keys[k].descending,
        terms[k].nulls_first == Some(true) ==> keys[k].nulls_first,
        terms[k].nulls_first == Some(false) ==> !keys[k].nulls_first,
        terms[k].nulls_first is None && terms[k].ascending == Some(false) ==> !keys[k].nulls_first,
        terms[k].nulls_first is None && terms[k].ascending != Some(false) ==> keys[k].nulls_first,
        output_column(terms[k].term, items) == Some(keys[k].column),
{
}

/// Without an `ORDER BY` nothing is sorted.
pub proof fn law_no_order_by_no_keys(items: Seq<ItemModel>)
    ensures
        sort_keys(None, items) == Ok::<Seq<SortKey>, Reason>(Seq::empty()),
{
}

/// A number in an `ORDER BY` is the position of a selected column, the first being 1; a number that
/// is none is refused.
pub proof fn law_order_by_position(text: Seq<char>, n: nat, items: Seq<ItemModel>)
    requires
        items.len() <= usize::MAX,
    ensures
        1 <= n <= items.len() ==> output_column(
            TermModel { text, node: NodeModel::Literal(LiteralModel::Number(decimal(n))) },
            items,
        ) == Some((n - 1) as usize),
        n == 0 || n > items.len() ==> output_column(
            TermModel { text, node: NodeModel::Literal(LiteralModel::Number(decimal(n))) },
            items,
        ) is None,
{
    lemma_decimal_reads_back(n);
}

/// Whether a selected item goes by a name, in any case: its alias, or else the column it is.
pub open spec fn goes_by(item: ItemModel, name: Seq<char>) -> bool {
    match item {
        ItemModel::Term { term, alias, .. } => match alias {
            Some(a) => lower(a) == lower(name),
            None => match term.node {
                NodeModel::Identifier(s) => lower(s) == lower(name),
                NodeModel::Compound(parts) => parts.len() > 0 && lower(parts.last()) == lower(name),
                _ => false,
            },
        },
        _ => false,
    }
}

proof fn lemma_labelled(items: Seq<ItemModel>, name: Seq<char>, i: int)
    requires
        0 <= i,
        items.len() <= usize::MAX,
    ensures
        labelled(items, lower(name), i) matches Some(c) ==> i <= c < items.len() && goes_by(
            items[c as int],
            name,
        ) && forall|k: int| i <= k < c ==> !goes_by(#[trigger] items[k], name),
    decreases items.len() - i,
{
    if i < items.len() {
        lemma_labelled(items, name, i + 1);
    }
}

/// A name in an `ORDER BY` is the first selected item that goes by it.
pub proof fn law_order_by_name(text: Seq<char>, name: Seq<char>, items: Seq<ItemModel>, c: usize)
    requires
        items.len() <= usize::MAX,
        output_column(TermModel { text, node: NodeModel::Identifier(name) }, items) == Some(c),
    ensures
        c < items.len(),
        goes_by(items[c as int], name),
        forall|k: int| 0 <= k < c ==> !goes_by(#[trigger] items[k], name),
{
    lemma_labelled(items, name, 0);
}

// ---- LIMIT and OFFSET --------------------------------------------------------------------------

pub open spec fn number_term(text: Seq<char>, n: usize) -> TermModel {
    TermModel { text, node: NodeModel::Literal(LiteralModel::Number(decimal(n as nat))) }
}

/// A `LIMIT` and an `OFFSET` that are numbers are those numbers; without them all rows are kept, and
/// none is skipped.
pub proof fn law_limit_and_offset(text: Seq<char>, n: usize, m: usize)
    ensures
        window(None) == Ok::<(Option<usize>, usize), Reason>((None, 0)),
        window(Some(LimitModel::Rows { limit: Some(number_term(text, n)), offset: None })) == Ok::<
            (Option<usize>, usize),
            Reason,
        >((Some(n), 0)),
        window(
            Some(
                LimitModel::Rows {
                    limit: Some(number_term(text, n)),
                    offset: Some(number_term(text, m)),
                },
            ),
        ) == Ok::<(Option<usize>, usize), Reason>((Some(n), m)),
        window(Some(LimitModel::Rows { limit: None, offset: Some(number_term(text, m)) })) == Ok::<
            (Option<usize>, usize),
            Reason,
        >((None, m)),
{
    lemma_decimal_reads_back(n as nat);
    lemma_decimal_reads_back(m as nat);
}

// ---- rows --------------------------------------------------------------------------------------

/// Whether nothing stands in the way of a fan-out: no common table expression, no `FETCH`, no
/// subquery.
pub open spec fn unhindered(query: QueryModel) -> bool {
    &&& !query.with
    &&& !query.fetch
    &&& forall|i: int|
        0 <= i < query.mentions.len() ==> !((#[trigger] query.mentions[i]) is Quantified)
            && !(query.mentions[i] is Subquery)
}

/// Whether a select reads one table, row by row: it does not group and calls no function.
pub open spec fn reads_rows(select: SelectModel) -> bool {
    &&& select.from.len() == 1
    &&& select.from[0].joins.len() == 0
    &&& select.from[0].source is Table
    &&& select.having is None
    &&& select.group_by matches GroupByModel::Terms { terms, .. } && terms.len() == 0
    &&& forall|i: int|
        0 <= i < select.projection.len() ==> match #[trigger] select.projection[i] {
            ItemModel::Term { term, .. } => !(term.node is Call),
            _ => true,
        }
}

proof fn lemma_no_aggregate(items: Seq<ItemModel>, n: nat)
    requires
        n <= items.len(),
        forall|i: int|
            0 <= i < items.len() ==> match #[trigger] items[i] {
                ItemModel::Term { term, .. } => !(term.node is Call),
                _ => true,
            },
    ensures
        super::planner::any_aggregate(items, n) == Ok::<bool, Reason>(false),
    decreases n,
{
    if n > 0 {
        lemma_no_aggregate(items, (n - 1) as nat);
        let item = items[n - 1];
    }
}

/// How the rows of one table are read from all shards. Where nothing is skipped the shards' rows are
/// joined as they come, or merged by the keys of the `ORDER BY`, up to the limit. Where rows are
/// skipped every shard sends as many rows as are skipped and kept together, and the coordinator
/// sorts, skips and keeps.
pub proof fn law_rows_of_a_table(
    query: QueryModel,
    select: SelectModel,
    keys: Map<Seq<char>, Seq<char>>,
    order: Seq<SortKey>,
    limit: Option<usize>,
    offset: usize,
)
    requires
        unhindered(query),
        query.body == BodyModel::Select(Box::new(select)),
        reads_rows(select),
        select.distinct == DistinctKind::Absent,
        sort_keys(query.order_by, select.projection) == Ok::<Seq<SortKey>, Reason>(order),
        window(query.limit) == Ok::<(Option<usize>, usize), Reason>((limit, offset)),
    ensures
        offset == 0 && order.len() == 0 ==> query_plan(query, keys) == Ok::<PlanModel, Reason>(
            PlanModel::Concat { limit },
        ),
        offset == 0 && order.len() > 0 ==> query_plan(query, keys) == Ok::<PlanModel, Reason>(
            PlanModel::Merge { keys: order, limit },
        ),
        offset > 0 ==> (query_plan(query, keys) matches Ok(PlanModel::PostProcess(p)) && p.order_by
            == order && p.offset == offset && p.limit == limit && !p.distinct && p.shard_sql == (
        match limit {
            Some(n) => query.unlimited + " LIMIT "@ + decimal((n + offset) as nat),
            None => query.unlimited,
        })),
{
    lemma_no_aggregate(select.projection, select.projection.len());
    let all = super::planner::any_aggregate(select.projection, select.projection.len());
    assert(all == Ok::<bool, Reason>(false));
}

/// How the distinct rows of one table are read from all shards: the coordinator drops what several
/// shards sent, then sorts, skips and keeps. The shards may only leave rows out where the rows are
/// sorted.
pub proof fn law_distinct_rows_of_a_table(
    query: QueryModel,
    select: SelectModel,
    keys: Map<Seq<char>, Seq<char>>,
    order: Seq<SortKey>,
    limit: Option<usize>,
    offset: usize,
)
    requires
        unhindered(query),
        query.body == BodyModel::Select(Box::new(select)),
        reads_rows(select),
        select.distinct == DistinctKind::Rows,
        sort_keys(query.order_by, select.projection) == Ok::<Seq<SortKey>, Reason>(order),
        window(query.limit) == Ok::<(Option<usize>, usize), Reason>((limit, offset)),
    ensures
        query_plan(query, keys) matches Ok(PlanModel::PostProcess(p)) && p.distinct && p.order_by
            == order && p.offset == offset && p.limit == limit && p.shard_sql == (if order.len()
            == 0 || limit is None {
            query.unlimited
        } else {
            query.unlimited + " LIMIT "@ + decimal((limit->0 + offset) as nat)
        }),
{
    assert forall|i: int| 0 <= i < select.projection.len() implies
        super::planner::item_aggregate(#[trigger] select.projection[i]) == Ok::<
        Option<Combine>,
        Reason,
    >(None) by {
        let item = select.projection[i];
    }
    assert(!super::planner::selects_aggregate(select.projection));
}

/// What cannot be answered is refused, and subqueries are evaluated before anything else.
pub proof fn law_hindered_queries(query: QueryModel, keys: Map<Seq<char>, Seq<char>>, i: int)
    ensures
        query.with ==> query_plan(query, keys) is Err,
        query.fetch ==> query_plan(query, keys) is Err,
        0 <= i < query.mentions.len() && query.mentions[i] is Quantified ==> query_plan(
            query,
            keys,
        ) is Err,
        0 <= i < query.mentions.len() && query.mentions[i] is Subquery ==> query_plan(
            query,
            keys,
        ) is Err || query_plan(query, keys) == Ok::<PlanModel, Reason>(PlanModel::Subqueries),
        query.body is Other && unhindered(query) ==> query_plan(query, keys) is Err,
{
}

// ---- aggregates --------------------------------------------------------------------------------

/// Counts and sums of shards are added up, the smallest is the smallest of the shards', and the
/// largest the largest; a mean needs the sum and the count of every shard. A concatenation of a
/// group's texts is refused.
pub proof fn law_how_aggregates_combine(c: CallModel)
    ensures
        upper(c.name) == "COUNT"@ || upper(c.name) == "SUM"@ || upper(c.name) == "TOTAL"@
            ==> aggregate_choice(c) == Ok::<Option<AggChoice>, Reason>(
            Some(AggChoice::Simple(Combine::Sum)),
        ),
        upper(c.name) == "MIN"@ ==> aggregate_choice(c) == Ok::<Option<AggChoice>, Reason>(
            Some(AggChoice::Simple(Combine::Min)),
        ),
        upper(c.name) == "MAX"@ ==> aggregate_choice(c) == Ok::<Option<AggChoice>, Reason>(
            Some(AggChoice::Simple(Combine::Max)),
        ),
        upper(c.name) == "AVG"@ ==> aggregate_choice(c) == Ok::<Option<AggChoice>, Reason>(
            Some(AggChoice::Avg),
        ),
        upper(c.name) == "GROUP_CONCAT"@ || upper(c.name) == "STRING_AGG"@ ==> aggregate_choice(
            c,
        ) is Err,
{
    reveal_strlit("COUNT");
    reveal_strlit("SUM");
    reveal_strlit("TOTAL");
    reveal_strlit("MIN");
    reveal_strlit("MAX");
    reveal_strlit("AVG");
    reveal_strlit("GROUP_CONCAT");
    reveal_strlit("STRING_AGG");
    let n = upper(c.name);
    if n == "MAX"@ {
        assert(n[1] == 'A');
    }
    if n == "MIN"@ {
        assert(n[0] == 'M');
        assert(n[1] == 'I');
    }
    if n == "AVG"@ {
        assert(n[0] == 'A');
    }
    if n == "SUM"@ {
        assert(n[0] == 'S');
    }
    assert("GROUP_CONCAT"@.len() == 12 && "STRING_AGG"@.len() == 10);
    assert("COUNT"@.len() == 5 && "TOTAL"@.len() == 5 && "SUM"@.len() == 3);
    assert("MIN"@.len() == 3 && "MAX"@.len() == 3 && "AVG"@.len() == 3);
}

/// One aggregate of the rows of a table, without groups, is combined from one value of each shard:
/// added up, or the smallest or the largest.
pub proof fn law_lone_aggregate(
    query: QueryModel,
    select: SelectModel,
    keys: Map<Seq<char>, Seq<char>>,
    term: TermModel,
    alias: Option<Seq<char>>,
    calls: Seq<CallMentionModel>,
    c: CallModel,
)
    requires
        unhindered(query),
        query.body == BodyModel::Select(Box::new(select)),
        query.order_by is None,
        query.limit is None,
        select.distinct == DistinctKind::Absent,
        select.from.len() == 1 && select.from[0].joins.len() == 0 && select.from[0].source is Table,
        select.having is None,
        select.group_by matches GroupByModel::Terms { terms, .. } && terms.len() == 0,
        select.projection == seq![ItemModel::Term { term, alias, calls }],
        term.node == NodeModel::Call(c),
        !c.distinct,
    ensures
        upper(c.name) == "COUNT"@ || upper(c.name) == "SUM"@ || upper(c.name) == "TOTAL"@
            ==> query_plan(query, keys) == Ok::<PlanModel, Reason>(
            PlanModel::Aggregate { combine: Combine::Sum },
        ),
        upper(c.name) == "MIN"@ ==> query_plan(query, keys) == Ok::<PlanModel, Reason>(
            PlanModel::Aggregate { combine: Combine::Min },
        ),
        upper(c.name) == "MAX"@ ==> query_plan(query, keys) == Ok::<PlanModel, Reason>(
            PlanModel::Aggregate { combine: Combine::Max },
        ),
{
    law_how_aggregates_combine(c);
    reveal_with_fuel(super::planner::any_aggregate, 2);
    assert(select.projection[0] == ItemModel::Term { term, alias, calls });
    assert(select.projection.len() == 1);
}

/// An aggregate among others: each shard sends its own value of it in one more column, and the
/// coordinator combines that column. Of a mean it sends the sum and the count, in two.
pub proof fn law_aggregates_send_their_parts(c: CallModel, arg: Seq<char>, b: Build)
    requires
        c.listed,
        !c.distinct,
        c.args.len() == 1,
        c.args[0] == ArgModel::Column(arg) || c.args[0] == ArgModel::Expression(arg) || (c.args[0]
            is Wildcard && arg == "*"@),
        b.partial.len() + 1 < usize::MAX,
    ensures
        ({
            let n = upper(c.name);
            let at = b.partial.len();
            let found = with_aggregate(c, b);
            &&& n == "COUNT"@ || n == "SUM"@ || n == "TOTAL"@ ==> (found matches Ok(Some(x))
                && x.partial == b.partial.push(c.name + "("@ + arg + ")"@) && x.outputs
                == b.outputs.push(OutputCol::Combine { kind: Combine::Sum, col: at as usize }))
            &&& n == "MIN"@ ==> (found matches Ok(Some(x)) && x.partial == b.partial.push(
                c.name + "("@ + arg + ")"@,
            ) && x.outputs == b.outputs.push(
                OutputCol::Combine { kind: Combine::Min, col: at as usize },
            ))
            &&& n == "MAX"@ ==> (found matches Ok(Some(x)) && x.partial == b.partial.push(
                c.name + "("@ + arg + ")"@,
            ) && x.outputs == b.outputs.push(
                OutputCol::Combine { kind: Combine::Max, col: at as usize },
            ))
            &&& n == "AVG"@ ==> (found matches Ok(Some(x)) && x.partial == b.partial.push(
                "SUM("@ + arg + ")"@,
            ).push("COUNT("@ + arg + ")"@) && x.outputs == b.outputs.push(
                OutputCol::Avg { sum_col: at as usize, count_col: (at + 1) as usize },
            ))
        }),
{
    law_how_aggregates_combine(c);
}

/// What a grouped plan is made of: the page of the query, the keys of its `ORDER BY`, the grouping
/// columns in front, and for each shard the query that selects the partial columns of the same
/// table, under the same condition, by the same groups.
pub proof fn law_grouped_plans(
    query: QueryModel,
    select: SelectModel,
    keys: Map<Seq<char>, Seq<char>>,
    terms: Seq<TermModel>,
    groups: Seq<Seq<char>>,
    plan: PlanModel,
    i: int,
)
    requires
        unhindered(query),
        query.body == BodyModel::Select(Box::new(select)),
        select.distinct == DistinctKind::Absent,
        select.group_by == (GroupByModel::Terms { terms, modified: false }),
        0 < terms.len() <= usize::MAX,
        groups.len() == terms.len(),
        forall|k: int| 0 <= k < terms.len() ==> groups[k] == (#[trigger] terms[k]).text,
        query_plan(query, keys) == Ok::<PlanModel, Reason>(plan),
        !(plan is Central),
    ensures
        plan matches PlanModel::Grouped(g) && window(query.limit) == Ok::<
            (Option<usize>, usize),
            Reason,
        >((g.limit, g.offset)) && sort_keys(query.order_by, select.projection) == Ok::<
            Seq<SortKey>,
            Reason,
        >(g.order_by) && g.group_cols.len() == terms.len() && (0 <= i < terms.len()
            ==> g.group_cols[i] == i) && (g.having is Some <==> select.having is Some)
            && g.visible_count <= usize::MAX && exists|partial: Seq<Seq<char>>| #[trigger]
            partial_sql(partial, select.from[0].text, select.selection, groups) == g.shard_sql,
{
    assert(super::planner::term_texts(terms) =~= groups);
}

/// What a shard runs for a grouped query.
pub proof fn law_partial_query_text(
    partial: Seq<Seq<char>>,
    from: Seq<char>,
    condition: TermModel,
    groups: Seq<Seq<char>>,
)
    ensures
        groups.len() > 0 ==> partial_sql(partial, from, Some(condition), groups) =~= "SELECT "@
            + join_with(partial, ", "@) + " FROM "@ + from + " WHERE "@ + condition.text
            + " GROUP BY "@ + join_with(groups, ", "@),
        groups.len() == 0 ==> partial_sql(partial, from, Some(condition), groups) =~= "SELECT "@
            + join_with(partial, ", "@) + " FROM "@ + from + " WHERE "@ + condition.text,
        groups.len() > 0 ==> partial_sql(partial, from, None, groups) =~= "SELECT "@ + join_with(
            partial,
            ", "@,
        ) + " FROM "@ + from + " GROUP BY "@ + join_with(groups, ", "@),
{
}

/// A function that looks like an aggregate and is none that can be combined is refused; any other is
/// no aggregate.
pub proof fn law_unknown_functions(c: CallModel)
    requires
        upper(c.name) != "COUNT"@ && upper(c.name) != "SUM"@ && upper(c.name) != "TOTAL"@ && upper(
            c.name,
        ) != "MIN"@ && upper(c.name) != "MAX"@ && upper(c.name) != "AVG"@ && upper(c.name)
            != "GROUP_CONCAT"@ && upper(c.name) != "STRING_AGG"@,
    ensures
        c.listed && !c.windowed && c.args.len() == 1 && (c.args[0] is Column || c.args[0]
            is Wildcard) ==> aggregate_choice(c) is Err,
        !c.listed || c.windowed || c.args.len() != 1 ==> aggregate_choice(c) == Ok::<
            Option<AggChoice>,
            Reason,
        >(None),
{
}

/// An aggregate over distinct values, or over other than one argument, is not split up.
pub proof fn law_what_is_not_split(c: CallModel, b: Build)
    requires
        upper(c.name) == "COUNT"@ || upper(c.name) == "SUM"@ || upper(c.name) == "MIN"@ || upper(
            c.name,
        ) == "MAX"@ || upper(c.name) == "AVG"@,
        !c.listed || c.distinct || c.args.len() != 1,
    ensures
        with_aggregate(c, b) is Err,
{
    law_how_aggregates_combine(c);
}

/// The mean of a column over a whole table: each shard sends its sum and its count, and the one row
/// of the answer is made of the two.
pub proof fn law_lone_mean(
    query: QueryModel,
    select: SelectModel,
    keys: Map<Seq<char>, Seq<char>>,
    term: TermModel,
    alias: Option<Seq<char>>,
    calls: Seq<CallMentionModel>,
    c: CallModel,
    arg: Seq<char>,
)
    requires
        unhindered(query),
        query.body == BodyModel::Select(Box::new(select)),
        query.order_by is None,
        query.limit is None,
        select.distinct == DistinctKind::Absent,
        select.from.len() == 1 && select.from[0].joins.len() == 0 && select.from[0].source is Table,
        select.having is None,
        select.group_by matches GroupByModel::Terms { terms, .. } && terms.len() == 0,
        select.projection == seq![ItemModel::Term { term, alias, calls }],
        term.node == NodeModel::Call(c),
        upper(c.name) == "AVG"@,
        c.listed && !c.distinct && c.args == seq![ArgModel::Column(arg)],
    ensures
        query_plan(query, keys) matches Ok(PlanModel::Grouped(g)) && g.outputs == seq![
            OutputCol::Avg { sum_col: 0, count_col: 1 },
        ] && g.visible_count == 1 && g.group_cols.len() == 0 && g.having is None && g.limit is None
            && g.offset == 0 && g.shard_sql == partial_sql(
            seq!["SUM("@ + arg + ")"@, "COUNT("@ + arg + ")"@],
            select.from[0].text,
            select.selection,
            Seq::empty(),
        ),
{
    law_how_aggregates_combine(c);
    reveal_with_fuel(super::planner::any_aggregate, 2);
    reveal_with_fuel(super::planner::projected, 2);
    assert(select.projection[0] == ItemModel::Term { term, alias, calls });
    assert(select.projection.len() == 1);
    let none = Seq::<TermModel>::empty();
    assert(super::planner::term_texts(none) =~= Seq::<Seq<char>>::empty());
    assert(super::planner::lowered(Seq::<Seq<char>>::empty()) =~= Seq::<Seq<char>>::empty());
    let b = Build { partial: Seq::empty(), outputs: Seq::empty() };
    let built = with_aggregate(c, b)->Ok_0->0;
    assert(built.partial =~= seq!["SUM("@ + arg + ")"@, "COUNT("@ + arg + ")"@]);
    assert(built.outputs =~= seq![OutputCol::Avg { sum_col: 0, count_col: 1 }]);
}

/// The name of a column of a grouped answer: its alias, or the column it is, or its text.
pub proof fn law_headers(term: TermModel, alias: Option<Seq<char>>)
    ensures
        alias matches Some(a) ==> header(term, alias) == a,
        alias is None ==> (term.node matches NodeModel::Identifier(s) ==> header(term, alias) == s),
        alias is None && term.node is Call ==> header(term, alias) == term.text,
{
}

proof fn lemma_projected(
    items: Seq<ItemModel>,
    groups: Seq<Seq<char>>,
    start: Projected,
    n: nat,
    k: int,
)
    requires
        n <= items.len(),
        start.names.len() == 0,
        start.build.outputs.len() == 0,
        projected(items, groups, start, n) is Ok,
    ensures
        ({
            let p = projected(items, groups, start, n)->Ok_0;
            &&& p.names.len() == n
            &&& p.central || p.build.outputs.len() == n
            &&& 0 <= k < n ==> (items[k] matches ItemModel::Term { term, alias, .. } && p.names[k]
                == header(term, alias))
        }),
    decreases n,
{
    if n > 0 {
        lemma_projected(items, groups, start, (n - 1) as nat, k);
    }
}

/// The select list of a grouped query gives one column for each item, in order and under its name,
/// where the whole query need not run on the coordinator.
pub proof fn law_select_list_of_groups(
    items: Seq<ItemModel>,
    group_sql: Seq<Seq<char>>,
    groups: Seq<Seq<char>>,
    p: Projected,
    k: int,
)
    requires
        projected(items, groups, grouping_start(group_sql), items.len()) == Ok::<Projected, Reason>(p),
        0 <= k < items.len(),
    ensures
        p.names.len() == items.len(),
        !p.central ==> p.build.outputs.len() == items.len(),
        items[k] matches ItemModel::Term { term, alias, .. } && p.names[k] == header(term, alias),
{
    lemma_projected(items, groups, grouping_start(group_sql), items.len(), k);
}

/// One item of the select list of a grouped query: an aggregate adds its own output, a grouping
/// expression the value of its group, and a column that is neither is refused.
pub proof fn law_items_of_groups(
    term: TermModel,
    alias: Option<Seq<char>>,
    groups: Seq<Seq<char>>,
    at: Projected,
)
    requires
        term.node is Identifier || term.node is Compound,
        groups.len() <= usize::MAX,
    ensures
        ({
            let item = ItemModel::Term { term, alias, calls: Seq::empty() };
            &&& groups.contains(lower(term.text)) ==> (project_item(item, groups, at) matches Ok(p)
                && p.build.partial == at.build.partial && p.build.outputs.len()
                == at.build.outputs.len() + 1 && (p.build.outputs.last() matches OutputCol::Group(g)
                && g < groups.len() && groups[g as int] == lower(term.text)))
            &&& !groups.contains(lower(term.text)) ==> project_item(item, groups, at) is Err
        }),
        project_item(ItemModel::Wildcard, groups, at) is Err,
{
    lemma_index(groups, lower(term.text), 0);
    if groups.contains(lower(term.text)) {
        let k = choose|k: int| 0 <= k < groups.len() && groups[k] == lower(term.text);
        assert(groups[k] == lower(term.text));
    }
}

// ---- HAVING ------------------------------------------------------------------------------------

/// Whether two integers compare as an operator of SQL says.
pub open spec fn holds_of(op: BinOp, m: i64, n: i64) -> bool {
    match op {
        BinOp::Eq => m == n,
        BinOp::NotEq => m != n,
        BinOp::Lt => m < n,
        BinOp::LtEq => m <= n,
        BinOp::Gt => m > n,
        BinOp::GtEq => m >= n,
        _ => false,
    }
}

/// Whether an operand is an integer over a group's row.
pub open spec fn operand_is(o: OperandModel, row: Row, n: i64) -> bool {
    o == OperandModel::Literal(Datum::Integer(n)) || (o matches OperandModel::Column(i) && i
        < row.len() && row[i as int] == Datum::Integer(n))
}

/// A comparison in a `HAVING` is true of a group where it holds of the two integers, the left side
/// on the left.
pub proof fn law_having_comparison(
    t: TermModel,
    left: TermModel,
    op: BinOp,
    right: TermModel,
    groups: Seq<Seq<char>>,
    b: Build,
    l: (OperandModel, Build),
    r: (OperandModel, Build),
    row: Row,
    m: i64,
    n: i64,
)
    requires
        t.node == NodeModel::Binary(Box::new(left), op, Box::new(right)),
        op != BinOp::And && op != BinOp::Or && op != BinOp::Other,
        having_operand(left, groups, b) == Ok::<(OperandModel, Build), Reason>(l),
        having_operand(right, groups, l.1) == Ok::<(OperandModel, Build), Reason>(r),
        operand_is(l.0, row, m),
        operand_is(r.0, row, n),
    ensures
        having_predicate(t, groups, b) matches Ok(p) && truth(p.0, row) == Some(holds_of(op, m, n)),
{
    super::outcomes::law_having_compares_integers(
        l.0,
        match op {
            BinOp::Eq => CompareOp::Eq,
            BinOp::NotEq => CompareOp::Ne,
            BinOp::Lt => CompareOp::Lt,
            BinOp::LtEq => CompareOp::Le,
            BinOp::Gt => CompareOp::Gt,
            _ => CompareOp::Ge,
        },
        r.0,
        row,
        m,
        n,
    );
}

/// `AND`, `OR`, `NOT`, `IS NULL` and parentheses in a `HAVING` mean what they say.
pub proof fn law_having_connectives(
    t: TermModel,
    left: TermModel,
    right: TermModel,
    groups: Seq<Seq<char>>,
    b: Build,
    l: (PredicateModel, Build),
    r: (PredicateModel, Build),
    row: Row,
)
    requires
        having_predicate(left, groups, b) == Ok::<(PredicateModel, Build), Reason>(l),
        having_predicate(right, groups, l.1) == Ok::<(PredicateModel, Build), Reason>(r),
    ensures
        t.node == NodeModel::Binary(Box::new(left), BinOp::And, Box::new(right)) ==> (
        having_predicate(t, groups, b) matches Ok(p) && (truth(p.0, row) == Some(true) <==> truth(
            l.0,
            row,
        ) == Some(true) && truth(r.0, row) == Some(true))),
        t.node == NodeModel::Binary(Box::new(left), BinOp::Or, Box::new(right)) ==> (
        having_predicate(t, groups, b) matches Ok(p) && (truth(p.0, row) == Some(true) <==> truth(
            l.0,
            row,
        ) == Some(true) || truth(r.0, row) == Some(true))),
        t.node == NodeModel::Not(Box::new(left)) ==> (having_predicate(t, groups, b) matches Ok(p)
            && (truth(p.0, row) == Some(true) <==> truth(l.0, row) == Some(false))),
        t.node == NodeModel::Nested(Box::new(left)) ==> having_predicate(t, groups, b)
            == having_predicate(left, groups, b),
{
}

/// `IS NULL` in a `HAVING` is true where its operand is NULL, and `IS NOT NULL` where it is not.
pub proof fn law_having_nulls(
    t: TermModel,
    inner: TermModel,
    groups: Seq<Seq<char>>,
    b: Build,
    v: (OperandModel, Build),
    row: Row,
)
    requires
        having_operand(inner, groups, b) == Ok::<(OperandModel, Build), Reason>(v),
        v.0 matches OperandModel::Column(i) && i < row.len(),
    ensures
        t.node == NodeModel::IsNull(Box::new(inner)) ==> (having_predicate(t, groups, b) matches Ok(
            p,
        ) && truth(p.0, row) == Some(row[v.0->Column_0 as int] is Null)),
        t.node == NodeModel::IsNotNull(Box::new(inner)) ==> (having_predicate(
            t,
            groups,
            b,
        ) matches Ok(p) && truth(p.0, row) == Some(!(row[v.0->Column_0 as int] is Null))),
{
}

/// A whole number in a `HAVING` is that number, with its sign.
pub proof fn law_having_numbers(
    text: Seq<char>,
    n: i64,
    groups: Seq<Seq<char>>,
    b: Build,
)
    requires
        n >= 0,
    ensures
        ({
            let number = TermModel {
                text,
                node: NodeModel::Literal(LiteralModel::Number(decimal(n as nat))),
            };
            let minus = TermModel { text, node: NodeModel::Minus(Box::new(number)) };
            &&& having_operand(number, groups, b) == Ok::<(OperandModel, Build), Reason>(
                (OperandModel::Literal(Datum::Integer(n)), b),
            )
            &&& having_operand(minus, groups, b) == Ok::<(OperandModel, Build), Reason>(
                (OperandModel::Literal(Datum::Integer((-n) as i64)), b),
            )
        }),
{
    lemma_decimal_reads_back(n as nat);
    let s = decimal(n as nat);
    assert(crate::text::is_digit(s[0]));
    let number = TermModel {
        text,
        node: NodeModel::Literal(LiteralModel::Number(decimal(n as nat))),
    };
    assert(literal_operand(LiteralModel::Number(s)) == Ok::<OperandModel, Reason>(
        OperandModel::Literal(Datum::Integer(n)),
    ));
}

/// A text, NULL and a truth value in a `HAVING` are those.
pub proof fn law_having_literals(s: Seq<char>, b: bool)
    ensures
        literal_operand(LiteralModel::Text(s)) == Ok::<OperandModel, Reason>(
            OperandModel::Literal(Datum::Text(s)),
        ),
        literal_operand(LiteralModel::Null) == Ok::<OperandModel, Reason>(
            OperandModel::Literal(Datum::Null),
        ),
        b ==> literal_operand(LiteralModel::Boolean(b)) == Ok::<OperandModel, Reason>(
            OperandModel::Literal(Datum::Integer(1)),
        ),
        !b ==> literal_operand(LiteralModel::Boolean(b)) == Ok::<OperandModel, Reason>(
            OperandModel::Literal(Datum::Integer(0)),
        ),
{
}

proof fn lemma_index(s: Seq<Seq<char>>, x: Seq<char>, i: int)
    requires
        0 <= i,
        s.len() <= usize::MAX,
    ensures
        index_from(s, x, i) matches Some(k) ==> i <= k < s.len() && s[k as int] == x,
        index_from(s, x, i) is None ==> forall|k: int| i <= k < s.len() ==> #[trigger] s[k] != x,
    decreases s.len() - i,
{
    if i < s.len() {
        lemma_index(s, x, i + 1);
    }
}

/// A grouping expression is found again by its text, in any case, and what is neither grouped by
/// nor aggregated is refused.
pub proof fn law_grouping_expressions_by_text(
    t: TermModel,
    groups: Seq<Seq<char>>,
    b: Build,
)
    requires
        t.node is Identifier || t.node is Compound,
        groups.len() <= usize::MAX,
    ensures
        groups.contains(lower(t.text)) ==> (having_operand(t, groups, b) matches Ok(v) && v.0
            == OperandModel::Column(b.outputs.len() as usize) && v.1.partial == b.partial && (
        v.1.outputs.last() matches OutputCol::Group(g) && g < groups.len() && groups[g as int]
            == lower(t.text)) && v.1.outputs.drop_last() == b.outputs),
        !groups.contains(lower(t.text)) ==> having_operand(t, groups, b) is Err,
{
    lemma_index(groups, lower(t.text), 0);
    if groups.contains(lower(t.text)) {
        let k = choose|k: int| 0 <= k < groups.len() && groups[k] == lower(t.text);
        let g = index_from(groups, lower(t.text), 0)->0;
        assert(b.outputs.push(OutputCol::Group(g)).drop_last() =~= b.outputs);
    }
}

// ---- joins -------------------------------------------------------------------------------------

/// Several items in a `FROM`, and a subquery in it, are never pushed to the shards.
pub proof fn law_no_cross_joins_on_shards(from: Seq<FromModel>, keys: Map<Seq<char>, Seq<char>>)
    ensures
        from.len() > 1 ==> join_refusal(from, keys) is Some,
        from.len() == 1 && !(from[0].source is Table) ==> join_refusal(from, keys) is Some,
{
}

/// Whether a term equates two columns of two relations.
pub open spec fn equates(
    t: TermModel,
    a: Seq<char>,
    x: Seq<char>,
    b: Seq<char>,
    y: Seq<char>,
) -> bool {
    t.node matches NodeModel::Binary(l, BinOp::Eq, r) && ((column_pair(*l) == Some((a, x))
        && column_pair(*r) == Some((b, y))) || (column_pair(*l) == Some((b, y)) && column_pair(*r)
        == Some((a, x))))
}

/// The name that a relation goes by in a join, in lower case.
pub open spec fn known_as(source: SourceModel) -> Seq<char> {
    match source {
        SourceModel::Table { name, alias, .. } => match alias {
            Some(a) => lower(a),
            None => lower(name),
        },
        _ => Seq::empty(),
    }
}

/// A join of two tables is pushed to the shards only where a condition that every row of it meets
/// equates the declared shard keys of the two: both rows of a pair are then on one shard.
pub proof fn law_pushed_joins_equate_shard_keys(
    from: Seq<FromModel>,
    keys: Map<Seq<char>, Seq<char>>,
)
    requires
        from.len() == 1,
        from[0].joins.len() == 1,
        known_as(from[0].source) != known_as(from[0].joins[0].source),
        join_refusal(from, keys) is None,
    ensures
        ({
            let a = from[0].source;
            let b = from[0].joins[0].source;
            &&& a matches SourceModel::Table { name: first, .. } && b matches SourceModel::Table {
                name: second,
                ..
            } && keys.dom().contains(lower(first)) && keys.dom().contains(lower(second)) && (
            from[0].joins[0].on matches JoinOnModel::On(t) && exists|i: int|
                0 <= i < conjuncts(t).len() && equates(
                    #[trigger] conjuncts(t)[i],
                    known_as(a),
                    lower(keys[lower(first)]),
                    known_as(b),
                    lower(keys[lower(second)]),
                ))
        }),
{
    let join = from[0].joins[0];
    reveal_with_fuel(joined, 2);
    let start = with_relation(from[0].source, keys, Map::empty());
    let first = start->Ok_0;
    let more = with_relation(join.source, keys, first)->Ok_0;
    let t = join.on->On_0;
    assert(on_shard_keys(t, more));
    let i = choose|i: int|
        0 <= i < conjuncts(t).len() && super::planner::equates_keys(
            #[trigger] conjuncts(t)[i],
            more,
        );
    let a = known_as(from[0].source);
    let b = known_as(join.source);
    assert(more.dom() =~= set![a, b]);
    let c = conjuncts(t)[i];
    let l = *c.node->Binary_0;
    let r = *c.node->Binary_2;
    let (x, y) = (column_pair(l)->0, column_pair(r)->0);
    assert(x.0 == a || x.0 == b);
    assert(y.0 == a || y.0 == b);
    assert(equates(
        c,
        a,
        lower(keys[lower(from[0].source->name)]),
        b,
        lower(keys[lower(join.source->name)]),
    ));
}

/// A condition is taken apart at `AND` alone: what stands under an `OR` is no condition that every
/// row meets.
pub proof fn law_conjuncts(t: TermModel, l: TermModel, op: BinOp, r: TermModel)
    requires
        t.node == NodeModel::Binary(Box::new(l), op, Box::new(r)),
    ensures
        op == BinOp::And ==> conjuncts(t) == conjuncts(l) + conjuncts(r),
        op != BinOp::And ==> conjuncts(t) == seq![t],
{
}

// ---- central execution -------------------------------------------------------------------------

proof fn lemma_sources_stay(rels: Seq<SourceModel>, n: nat, m: nat)
    requires
        n <= m <= rels.len(),
        central_sources(rels, m) is Ok,
    ensures
        central_sources(rels, n) is Ok,
        central_sources(rels, n)->Ok_0.len() <= central_sources(rels, m)->Ok_0.len(),
        forall|i: int|
            0 <= i < central_sources(rels, n)->Ok_0.len() ==> central_sources(rels, m)->Ok_0[i]
                == #[trigger] central_sources(rels, n)->Ok_0[i],
    decreases m - n,
{
    if n < m {
        lemma_sources_stay(rels, n, (m - 1) as nat);
    }
}

/// A query that is run on the coordinator finds every relation of its `FROM` there, by its name in
/// any case. The first of a name is filled with all rows of the table, or of the subquery.
pub proof fn law_every_relation_is_brought(rels: Seq<SourceModel>, i: int, name: Seq<char>)
    requires
        0 <= i < rels.len(),
        central_sources(rels, rels.len()) is Ok,
        match rels[i] {
            SourceModel::Table { name: n, .. } => n == name,
            SourceModel::Derived { alias, .. } => alias == Some(name),
            SourceModel::Other => false,
        },
    ensures
        exists|k: int|
            0 <= k < central_sources(rels, rels.len())->Ok_0.len() && lower(
                (#[trigger] central_sources(rels, rels.len())->Ok_0[k]).table,
            ) == lower(name),
{
    let all = central_sources(rels, rels.len())->Ok_0;
    lemma_sources_stay(rels, (i + 1) as nat, rels.len());
    let some = central_sources(rels, (i + 1) as nat)->Ok_0;
    lemma_sources_stay(rels, i as nat, rels.len());
    let before = central_sources(rels, i as nat)->Ok_0;
    if super::planner::has_source(before, name) {
        let k = choose|k: int|
            0 <= k < before.len() && lower((#[trigger] before[k]).table) == lower(name);
        assert(all[k] == before[k]);
    } else {
        let k = some.len() - 1;
        assert(some[k].table == name);
        assert(all[k] == some[k]);
    }
}

/// One table is filled with all its rows, and one subquery with the rows of its query, under the
/// name that the query uses.
pub proof fn law_a_source_is_filled_whole(source: SourceModel)
    ensures
        source matches SourceModel::Table { name, .. } ==> (central_sources(
            seq![source],
            1,
        ) matches Ok(all) && all.len() == 1 && all[0].table == name && all[0].sql
            == "SELECT * FROM "@ + name),
        source matches SourceModel::Derived { sql, alias: Some(name) } ==> (central_sources(
            seq![source],
            1,
        ) matches Ok(all) && all.len() == 1 && all[0].table == name && all[0].sql == sql),
        source is Other ==> central_sources(seq![source], 1) is Err,
{
    reveal_with_fuel(central_sources, 2);
}

/// Every relation of a `FROM` is looked at: the item's own, and those of its joins.
pub proof fn law_relations_of_a_from(from: Seq<FromModel>, item: FromModel, k: int)
    ensures
        relations(Seq::<FromModel>::empty()).len() == 0,
        relations(from.push(item)).len() == relations(from).len() + 1 + item.joins.len(),
        relations(from.push(item))[relations(from).len() as int] == item.source,
        0 <= k < item.joins.len() ==> relations(from.push(item))[relations(from).len() + 1 + k]
            == item.joins[k].source,
{
    assert(from.push(item).drop_last() =~= from);
}

proof fn lemma_columns_read(mentions: Seq<MentionModel>, n: nat, i: int, name: Seq<char>)
    requires
        0 <= i < n <= mentions.len(),
        mentions[i] == MentionModel::Column(name),
    ensures
        columns_read(mentions, n).contains(name),
    decreases n,
{
    let before = columns_read(mentions, (n - 1) as nat);
    let all = columns_read(mentions, n);
    if i == n - 1 {
        if !before.contains(name) {
            assert(all[all.len() - 1] == name);
        }
    } else {
        lemma_columns_read(mentions, (n - 1) as nat, i, name);
        let k = choose|k: int| 0 <= k < before.len() && before[k] == name;
        assert(all[k] == name);
    }
}

/// The narrowed source of an aggregate that is run on the coordinator selects every column that the
/// query names, under the same condition. It keeps duplicates where a count, a sum or a mean of the
/// select list tells how often a row appears.
pub proof fn law_narrowed_source(
    query: QueryModel,
    select: SelectModel,
    table: Seq<char>,
    condition: TermModel,
    i: int,
    name: Seq<char>,
    j: int,
    k: int,
    calls: Seq<CallMentionModel>,
)
    requires
        select.selection == Some(condition),
        0 <= i < query.mentions.len(),
        query.mentions[i] == MentionModel::Column(name),
        0 <= j < select.projection.len(),
        select.projection[j] matches ItemModel::Term { calls: c, .. } && c == calls,
        0 <= k < calls.len(),
        !calls[k].distinct,
        upper(calls[k].name) == "COUNT"@ || upper(calls[k].name) == "SUM"@ || upper(calls[k].name)
            == "TOTAL"@ || upper(calls[k].name) == "AVG"@,
    ensures
        exists|columns: Seq<Seq<char>>| #[trigger]
            columns.contains(name) && narrowed_source(query, select, table) == "SELECT "@
                + join_with(quoted_all(columns), ", "@) + " FROM "@ + table + " WHERE "@
                + condition.text,
{
    let columns = columns_read(query.mentions, query.mentions.len());
    lemma_columns_read(query.mentions, query.mentions.len(), i, name);
    assert(counts_rows(calls[k]));
    assert(super::planner::mentions_row_count(calls));
    let item = select.projection[j];
    assert(!super::planner::preshrink_safe(select));
    reveal_strlit("");
    assert(narrowed_source(query, select, table) =~= "SELECT "@ + join_with(
        quoted_all(columns),
        ", "@,
    ) + " FROM "@ + table + " WHERE "@ + condition.text);
    assert(columns.contains(name));
}

// ---- set operations ----------------------------------------------------------------------------

/// A set operation of two selects runs the two as queries of their own and combines them as it is
/// written: the left one on the left, keeping duplicates exactly where it says `ALL`.
pub proof fn law_set_operation_of_two(
    query: QueryModel,
    keys: Map<Seq<char>, Seq<char>>,
    op: SetKind,
    quantifier: Quantifier,
    left: SelectModel,
    right: SelectModel,
    order: Seq<SortKey>,
    limit: Option<usize>,
    offset: usize,
)
    requires
        unhindered(query),
        query.body == (BodyModel::Operation {
            op,
            quantifier,
            left: Box::new(BodyModel::Select(Box::new(left))),
            right: Box::new(BodyModel::Select(Box::new(right))),
        }),
        sort_keys(query.order_by, left.projection) == Ok::<Seq<SortKey>, Reason>(order),
        window(query.limit) == Ok::<(Option<usize>, usize), Reason>((limit, offset)),
    ensures
        quantifier == Quantifier::ByName ==> query_plan(query, keys) is Err,
        quantifier != Quantifier::ByName ==> (query_plan(query, keys) matches Ok(
            PlanModel::SetOp(p),
        ) && p.branches == seq![left.text, right.text] && p.order_by == order && p.limit == limit
            && p.offset == offset && (p.tree matches SetTree::Op { op: o, all, left: l, right: r }
            && o == op && all == (quantifier == Quantifier::All) && *l == SetTree::Leaf(0) && *r
            == SetTree::Leaf(1))),
{
    reveal_with_fuel(super::planner::leaves, 2);
    reveal_with_fuel(super::planner::set_tree, 2);
    let all = super::planner::leaves(query.body);
    assert(all =~= seq![left, right]);
    assert(super::planner::select_texts(all) =~= seq![left.text, right.text]);
}

/// A nested set operation is combined as it is written: the branches of its left side first, each
/// under its own number.
pub proof fn law_nested_set_operations(
    op: SetKind,
    quantifier: Quantifier,
    left: BodyModel,
    right: BodyModel,
    start: nat,
    l: SetTree,
    r: SetTree,
)
    requires
        quantifier != Quantifier::ByName,
        set_tree(left, start) == Ok::<SetTree, Reason>(l),
        set_tree(right, start + leaves(left).len()) == Ok::<SetTree, Reason>(r),
    ensures
        ({
            let body = BodyModel::Operation {
                op,
                quantifier,
                left: Box::new(left),
                right: Box::new(right),
            };
            &&& set_tree(body, start) == Ok::<SetTree, Reason>(
                SetTree::Op {
                    op,
                    all: quantifier == Quantifier::All,
                    left: Box::new(l),
                    right: Box::new(r),
                },
            )
            &&& leaves(body) == leaves(left) + leaves(right)
        }),
{
}

/// `DISTINCT ON` is refused.
pub proof fn law_distinct_on_is_refused(
    query: QueryModel,
    select: SelectModel,
    keys: Map<Seq<char>, Seq<char>>,
)
    requires
        unhindered(query),
        query.body == BodyModel::Select(Box::new(select)),
        join_refusal(select.from, keys) is None,
        select.distinct == DistinctKind::On,
    ensures
        query_plan(query, keys) is Err,
{
}

/// Whether a term equates a column of one relation with a column of another.
pub open spec fn ties_two_relations(t: TermModel) -> bool {
    t.node matches NodeModel::Binary(l, BinOp::Eq, r) && column_pair(*l) is Some && column_pair(*r)
        is Some && (column_pair(*l)->0).0 != (column_pair(*r)->0).0
}

proof fn lemma_joined_before(
    joins: Seq<JoinModel>,
    keys: Map<Seq<char>, Seq<char>>,
    start: Result<Map<Seq<char>, Seq<char>>, Reason>,
    n: nat,
    k: int,
)
    requires
        0 <= k < n <= joins.len(),
        joined(joins, keys, start, n) is Ok,
    ensures
        joins[k].source is Table,
        joins[k].on matches JoinOnModel::On(t) && exists|i: int|
            0 <= i < conjuncts(t).len() && ties_two_relations(#[trigger] conjuncts(t)[i]),
    decreases n,
{
    if k < n - 1 {
        lemma_joined_before(joins, keys, start, (n - 1) as nat, k);
    } else {
        let aliases = joined(joins, keys, start, (n - 1) as nat)->Ok_0;
        let more = with_relation(joins[k].source, keys, aliases)->Ok_0;
        let t = joins[k].on->On_0;
        assert(on_shard_keys(t, more));
        let i = choose|i: int|
            0 <= i < conjuncts(t).len() && super::planner::equates_keys(
                #[trigger] conjuncts(t)[i],
                more,
            );
        assert(ties_two_relations(conjuncts(t)[i]));
    }
}

/// Every join that is pushed to the shards joins a table, on a condition that every row of it meets
/// and that ties two relations together.
pub proof fn law_every_pushed_join_is_tied(
    from: Seq<FromModel>,
    keys: Map<Seq<char>, Seq<char>>,
    k: int,
)
    requires
        from.len() == 1,
        join_refusal(from, keys) is None,
        0 <= k < from[0].joins.len(),
    ensures
        from[0].source is Table,
        from[0].joins[k].source is Table,
        from[0].joins[k].on matches JoinOnModel::On(t) && exists|i: int|
            0 <= i < conjuncts(t).len() && ties_two_relations(#[trigger] conjuncts(t)[i]),
{
    let start = with_relation(from[0].source, keys, Map::empty());
    lemma_joined_before(from[0].joins, keys, start, from[0].joins.len(), k);
}

/// A text is planned as the one query that it is; any other text is refused.
pub proof fn law_texts_are_planned(sql: Seq<char>, keys: Map<Seq<char>, Seq<char>>)
    ensures
        parsed(sql) is None ==> sql_plan(sql, keys) is Err,
        parsed(sql) matches Some(all) ==> (all.len() != 1 ==> sql_plan(sql, keys) is Err),
        parsed(sql) matches Some(all) ==> (all.len() == 1 ==> match all[0] {
            SqlModel::Query(q) => sql_plan(sql, keys) == query_plan(q, keys),
            _ => sql_plan(sql, keys) is Err,
        }),
{
}

/// What a plan is called.
pub proof fn law_strategies(p: PlanModel)
    ensures
        p is SingleShard ==> p.strategy() == "single shard"@,
        p is Concat ==> p.strategy() == "fan-out · concat"@,
        p is Merge ==> p.strategy() == "fan-out · ordered merge"@,
        p is Aggregate ==> p.strategy() == "fan-out · combined aggregate"@,
        p is Grouped ==> p.strategy() == "fan-out · grouped"@,
        p is PostProcess ==> p.strategy() == "fan-out · post-processed"@,
        p is SetOp ==> p.strategy() == "fan-out · set operation"@,
        p is Subqueries ==> p.strategy() == "subquery fan-out"@,
        p is Central ==> p.strategy() == "central execution"@,
{
}

/// Distinct rows are not taken of groups: with a `GROUP BY` or a `HAVING` and no aggregate such a
/// query is refused.
pub proof fn law_distinct_groups_are_refused(
    query: QueryModel,
    select: SelectModel,
    keys: Map<Seq<char>, Seq<char>>,
)
    requires
        unhindered(query),
        query.body == BodyModel::Select(Box::new(select)),
        join_refusal(select.from, keys) is None,
        select.distinct == DistinctKind::Rows,
        !selects_aggregate(select.projection),
        select.having is Some || !(select.group_by matches GroupByModel::Terms { terms, .. }
            && terms.len() == 0),
    ensures
        query_plan(query, keys) is Err,
{
}

/// An expression of the select list that is no group and holds an aggregate makes the whole query
/// run on the coordinator; one that holds none is refused.
pub proof fn law_wrapped_aggregates(
    term: TermModel,
    alias: Option<Seq<char>>,
    calls: Seq<CallMentionModel>,
    groups: Seq<Seq<char>>,
    at: Projected,
    i: int,
)
    requires
        term.node is Identifier || term.node is Compound,
        index_from(groups, lower(term.text), 0) is None,
    ensures
        ({
            let r = project_item(ItemModel::Term { term, alias, calls }, groups, at);
            &&& 0 <= i < calls.len() && (upper(calls[i].name) == "COUNT"@ || upper(calls[i].name)
                == "SUM"@ || upper(calls[i].name) == "TOTAL"@ || upper(calls[i].name) == "MIN"@
                || upper(calls[i].name) == "MAX"@ || upper(calls[i].name) == "AVG"@ || upper(
                calls[i].name,
            ) == "GROUP_CONCAT"@ || upper(calls[i].name) == "STRING_AGG"@) ==> (r matches Ok(p)
                && p.central)
            &&& calls.len() == 0 ==> r is Err
        }),
{
    if 0 <= i < calls.len() {
        assert(super::planner::mentions_aggregate(calls) || !super::planner::aggregate_name(
            calls[i].name,
        ));
    }
}

} // verus!
