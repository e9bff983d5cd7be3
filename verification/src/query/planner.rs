//! Deciding how, or whether, a query can be answered across shards.
//!
//! | Shape | Merge |
//! |---|---|
//! | plain `SELECT` | concatenate rows |
//! | `ORDER BY` (and `LIMIT`) | per-shard sort, then merge, then truncate |
//! | `COUNT`, `SUM`, `MIN`, `MAX` | combine the per-shard results |
//! | `GROUP BY` (and `HAVING`) | per-shard partial groups, re-aggregate, then filter |
//! | `AVG` | `SUM` and `COUNT` per shard, divided at the coordinator |
//! | `DISTINCT`, `OFFSET` | reshape the concatenated rows on the coordinator |
//! | `UNION`, `INTERSECT`, `EXCEPT` | fan out each branch, then combine |
//! | scalar, `IN` and `EXISTS` subqueries | evaluate, substitute, plan again |
//! | a join on shard keys | join each shard's local rows; concatenate |
//! | any other join, a derived table, an aggregate over `DISTINCT` | materialise and run centrally |
//!
//! Everything else is refused, with a [`Reason`].

use vstd::prelude::*;

use super::plan::{
    sources_model, Central, CentralModel, CentralSource, CentralSourceModel, Combine, CompareOp,
    Grouped, GroupedModel, HavingExpr, HavingValue, OperandModel, OutputCol, Plan, PlanModel,
    PostProcess, PostProcessModel, PredicateModel, SetOp, SetOpModel, SetTree, ShardKeys, SortKey,
};
use super::reader::{
    lone_query, lone_statement, parse, parsed, parsed_models, rewritings_hold, with_texts,
};
use super::reason::{Reason, Unsupported};
use super::syntax::{
    calls_model, from_model, items_model, joins_model, mentions_model, order_terms_model,
    term_option, terms_model, text_option, Arg, ArgModel, BinOp, Body, BodyModel, Call, CallMention,
    CallMentionModel, CallModel, DistinctKind, FromItem, FromModel, GroupBy, GroupByModel,
    HavingModel, Item, ItemModel, JoinModel, JoinOn, JoinOnModel, Limit, LimitModel, Literal,
    LiteralModel, Mention, MentionModel, Node, NodeModel, OrderTree, OrderByModel, OrderTermModel,
    Quantifier, QueryTree, QueryModel, SelectTree, SelectModel, Source, SourceModel, Sql, SqlModel,
    Term, TermModel,
};
use crate::storage::exec::{Datum, DbValue};
use crate::text::{
    contains_text, decimal, float_text, is_float, is_signed, join, join_with, lookup, lower, parse_i64, parse_usize,
    push_decimal_wide, quote_ident, quoted, same, signed_text, to_lower, to_upper, unsigned_text,
    upper, views, TextMap,
};

verus! {

// ---- aggregates --------------------------------------------------------------------------------

/// How a projected aggregate decomposes across shards: one partial column, or the two of an `AVG`.
#[derive(Clone, Copy, Debug, PartialEq, Eq, Structural)]
pub enum AggChoice {
    Simple(Combine),
    Avg,
}

/// A crude test for "looks like an aggregate call": one argument, a bare column or `*`, and no
/// window. An unknown function of this shape is refused rather than taken for a scalar.
pub open spec fn aggregate_shaped(c: CallModel) -> bool {
    c.listed && !c.windowed && c.args.len() == 1 && (c.args[0] is Wildcard || c.args[0] is Column)
}

/// The aggregate a call is, and how it decomposes; `None` for an ordinary scalar function.
pub open spec fn aggregate_choice(c: CallModel) -> Result<Option<AggChoice>, Reason> {
    let name = upper(c.name);
    if name == "COUNT"@ || name == "SUM"@ || name == "TOTAL"@ {
        Ok(Some(AggChoice::Simple(Combine::Sum)))
    } else if name == "MIN"@ {
        Ok(Some(AggChoice::Simple(Combine::Min)))
    } else if name == "MAX"@ {
        Ok(Some(AggChoice::Simple(Combine::Max)))
    } else if name == "AVG"@ {
        Ok(Some(AggChoice::Avg))
    } else if name == "GROUP_CONCAT"@ || name == "STRING_AGG"@ {
        Err(Reason::GroupConcat)
    } else if aggregate_shaped(c) {
        Err(Reason::UnknownAggregate)
    } else {
        Ok(None)
    }
}

/// The combination that a whole select item stands for: `None` for a plain column.
pub open spec fn item_aggregate(item: ItemModel) -> Result<Option<Combine>, Reason> {
    match item {
        ItemModel::Term { term, .. } => match term.node {
            NodeModel::Call(c) => match aggregate_choice(c) {
                Ok(Some(AggChoice::Simple(kind))) => Ok(Some(kind)),
                Ok(Some(AggChoice::Avg)) => Err(Reason::Avg),
                Ok(None) => Ok(None),
                Err(Reason::UnknownAggregate) => Err(Reason::UnknownAssociative),
                Err(e) => Err(e),
            },
            _ => Ok(None),
        },
        _ => Ok(None),
    }
}

/// Whether a name is one of the aggregates that are combined from partial results.
pub open spec fn combinable_name(name: Seq<char>) -> bool {
    let n = upper(name);
    n == "COUNT"@ || n == "SUM"@ || n == "TOTAL"@ || n == "MIN"@ || n == "MAX"@ || n == "AVG"@
}

/// Whether a name is any known aggregate.
pub open spec fn aggregate_name(name: Seq<char>) -> bool {
    let n = upper(name);
    combinable_name(name) || n == "GROUP_CONCAT"@ || n == "STRING_AGG"@
}

/// Whether an aggregate counts how often a row appears.
pub open spec fn counts_rows(m: CallMentionModel) -> bool {
    let n = upper(m.name);
    !m.distinct && (n == "COUNT"@ || n == "SUM"@ || n == "TOTAL"@ || n == "AVG"@)
}

/// A combinable aggregate over `DISTINCT` values: partial results cannot be combined, since one
/// value can appear on several shards.
pub open spec fn distinct_aggregate(c: CallModel) -> bool {
    c.listed && c.distinct && combinable_name(c.name)
}

/// The one argument of an aggregate as SQL.
pub open spec fn single_arg(c: CallModel) -> Result<Seq<char>, Reason> {
    if !c.listed {
        Err(Reason::ArgumentList)
    } else if c.distinct {
        Err(Reason::ArgumentDistinct)
    } else if c.args.len() != 1 {
        Err(Reason::ArgumentCount)
    } else {
        match c.args[0] {
            ArgModel::Wildcard => Ok("*"@),
            ArgModel::Column(s) => Ok(s),
            ArgModel::Expression(s) => Ok(s),
            ArgModel::Other => Err(Reason::ArgumentForm),
        }
    }
}

fn is_aggregate_shaped(c: &Call) -> (r: bool)
    ensures
        r == aggregate_shaped(c@),
{
    if !c.listed || c.windowed || c.args.len() != 1 {
        return false;
    }
    match c.args[0] {
        Arg::Wildcard => true,
        Arg::Column(_) => true,
        _ => false,
    }
}

fn classify_aggregate(c: &Call) -> (r: Result<Option<AggChoice>, Reason>)
    ensures
        r == aggregate_choice(c@),
{
    let name = to_upper(c.name.as_str());
    let n = name.as_str();
    if same(n, "COUNT") || same(n, "SUM") || same(n, "TOTAL") {
        Ok(Some(AggChoice::Simple(Combine::Sum)))
    } else if same(n, "MIN") {
        Ok(Some(AggChoice::Simple(Combine::Min)))
    } else if same(n, "MAX") {
        Ok(Some(AggChoice::Simple(Combine::Max)))
    } else if same(n, "AVG") {
        Ok(Some(AggChoice::Avg))
    } else if same(n, "GROUP_CONCAT") || same(n, "STRING_AGG") {
        Err(Reason::GroupConcat)
    } else if is_aggregate_shaped(c) {
        Err(Reason::UnknownAggregate)
    } else {
        Ok(None)
    }
}

fn aggregate_of(item: &Item) -> (r: Result<Option<Combine>, Reason>)
    ensures
        r == item_aggregate(item@),
{
    match item {
        Item::Term { term, .. } => match &term.node {
            Node::Call(c) => match classify_aggregate(c) {
                Ok(Some(AggChoice::Simple(kind))) => Ok(Some(kind)),
                Ok(Some(AggChoice::Avg)) => Err(Reason::Avg),
                Ok(None) => Ok(None),
                Err(e) => if e == Reason::UnknownAggregate {
                    Err(Reason::UnknownAssociative)
                } else {
                    Err(e)
                },
            },
            _ => Ok(None),
        },
        _ => Ok(None),
    }
}

fn is_combinable(name: &str) -> (r: bool)
    ensures
        r == combinable_name(name@),
{
    let u = to_upper(name);
    let n = u.as_str();
    same(n, "COUNT") || same(n, "SUM") || same(n, "TOTAL") || same(n, "MIN") || same(n, "MAX")
        || same(n, "AVG")
}

fn is_distinct_aggregate(c: &Call) -> (r: bool)
    ensures
        r == distinct_aggregate(c@),
{
    c.listed && c.distinct && is_combinable(c.name.as_str())
}

/// Whether a select item is an aggregate over `DISTINCT` values.
pub open spec fn item_distinct(item: ItemModel) -> bool {
    match item {
        ItemModel::Term { term, .. } => match term.node {
            NodeModel::Call(c) => distinct_aggregate(c),
            _ => false,
        },
        _ => false,
    }
}

fn item_is_distinct_aggregate(item: &Item) -> (r: bool)
    ensures
        r == item_distinct(item@),
{
    match item {
        Item::Term { term, .. } => match &term.node {
            Node::Call(c) => is_distinct_aggregate(c),
            _ => false,
        },
        _ => false,
    }
}

/// Whether one of the calls is a combinable aggregate over `DISTINCT` values.
pub open spec fn mentions_distinct_aggregate(calls: Seq<CallMentionModel>) -> bool {
    exists|i: int| 0 <= i < calls.len() && (#[trigger] calls[i]).distinct && combinable_name(
        calls[i].name,
    )
}

fn expr_has_distinct_aggregate(calls: &Vec<CallMention>) -> (r: bool)
    ensures
        r == mentions_distinct_aggregate(calls_model(calls@)),
{
    let ghost model = calls_model(calls@);
    let mut i: usize = 0;
    while i < calls.len()
        invariant
            i <= calls@.len(),
            model == calls_model(calls@),
            forall|k: int| 0 <= k < i ==> !((#[trigger] model[k]).distinct && combinable_name(
                model[k].name,
            )),
        decreases calls@.len() - i,
    {
        assert(model[i as int] == calls@[i as int]@);
        if calls[i].distinct && is_combinable(calls[i].name.as_str()) {
            return true;
        }
        i = i + 1;
    }
    false
}

/// Whether one of the calls is an aggregate.
pub open spec fn mentions_aggregate(calls: Seq<CallMentionModel>) -> bool {
    exists|i: int| 0 <= i < calls.len() && aggregate_name((#[trigger] calls[i]).name)
}

fn expr_contains_aggregate(calls: &Vec<CallMention>) -> (r: bool)
    ensures
        r == mentions_aggregate(calls_model(calls@)),
{
    let ghost model = calls_model(calls@);
    let mut i: usize = 0;
    while i < calls.len()
        invariant
            i <= calls@.len(),
            model == calls_model(calls@),
            forall|k: int| 0 <= k < i ==> !aggregate_name((#[trigger] model[k]).name),
        decreases calls@.len() - i,
    {
        assert(model[i as int] == calls@[i as int]@);
        let u = to_upper(calls[i].name.as_str());
        if is_combinable(calls[i].name.as_str()) || same(u.as_str(), "GROUP_CONCAT") || same(
            u.as_str(),
            "STRING_AGG",
        ) {
            return true;
        }
        i = i + 1;
    }
    false
}

/// Whether one of the calls counts how often a row appears.
pub open spec fn mentions_row_count(calls: Seq<CallMentionModel>) -> bool {
    exists|i: int| 0 <= i < calls.len() && counts_rows(#[trigger] calls[i])
}

fn any_counts_rows(calls: &Vec<CallMention>) -> (r: bool)
    ensures
        r == mentions_row_count(calls_model(calls@)),
{
    let ghost model = calls_model(calls@);
    let mut i: usize = 0;
    while i < calls.len()
        invariant
            i <= calls@.len(),
            model == calls_model(calls@),
            forall|k: int| 0 <= k < i ==> !counts_rows(#[trigger] model[k]),
        decreases calls@.len() - i,
    {
        assert(model[i as int] == calls@[i as int]@);
        let u = to_upper(calls[i].name.as_str());
        let n = u.as_str();
        if !calls[i].distinct && (same(n, "COUNT") || same(n, "SUM") || same(n, "TOTAL") || same(
            n,
            "AVG",
        )) {
            return true;
        }
        i = i + 1;
    }
    false
}

pub open spec fn text_result(r: Result<String, Reason>) -> Result<Seq<char>, Reason> {
    match r {
        Ok(s) => Ok(s@),
        Err(e) => Err(e),
    }
}

fn single_arg_sql(c: &Call) -> (r: Result<String, Reason>)
    ensures
        text_result(r) == single_arg(c@),
{
    if !c.listed {
        return Err(Reason::ArgumentList);
    }
    if c.distinct {
        return Err(Reason::ArgumentDistinct);
    }
    if c.args.len() != 1 {
        return Err(Reason::ArgumentCount);
    }
    match &c.args[0] {
        Arg::Wildcard => Ok("*".to_owned()),
        Arg::Column(s) => Ok(s.clone()),
        Arg::Expression(s) => Ok(s.clone()),
        Arg::Other => Err(Reason::ArgumentForm),
    }
}

// ---- LIMIT, OFFSET and ORDER BY ----------------------------------------------------------------

/// The row count that a term writes as a literal.
pub open spec fn literal_count(t: TermModel) -> Option<usize> {
    match t.node {
        NodeModel::Literal(LiteralModel::Number(n)) => match unsigned_text(n) {
            Some(v) => if v <= usize::MAX {
                Some(v as usize)
            } else {
                None
            },
            None => None,
        },
        _ => None,
    }
}

/// A query's `LIMIT` and `OFFSET`.
pub open spec fn window(limit: Option<LimitModel>) -> Result<(Option<usize>, usize), Reason> {
    match limit {
        None => Ok((None, 0)),
        Some(LimitModel::Other) => Err(Reason::LimitForm),
        Some(LimitModel::Rows { limit, offset }) => if limit is Some && literal_count(
            limit->0,
        ) is None {
            Err(Reason::LimitLiteral)
        } else if offset is Some && literal_count(offset->0) is None {
            Err(Reason::OffsetLiteral)
        } else {
            Ok(
                (
                    match limit {
                        Some(t) => literal_count(t),
                        None => None,
                    },
                    match offset {
                        Some(t) => literal_count(t)->0,
                        None => 0,
                    },
                ),
            )
        },
    }
}

fn literal_usize(t: &Term) -> (r: Option<usize>)
    ensures
        r == literal_count(t.model()),
{
    match &t.node {
        Node::Literal(Literal::Number(n)) => parse_usize(n.as_str()),
        _ => None,
    }
}

fn limit_and_offset(query: &QueryTree) -> (r: Result<(Option<usize>, usize), Reason>)
    ensures
        r == window(query@.limit),
{
    match &query.limit {
        None => Ok((None, 0)),
        Some(Limit::Other) => Err(Reason::LimitForm),
        Some(Limit::Rows { limit, offset }) => {
            let rows: Option<usize> = match limit {
                None => None,
                Some(t) => match literal_usize(t) {
                    Some(n) => Some(n),
                    None => {
                        return Err(Reason::LimitLiteral);
                    },
                },
            };
            let skip: usize = match offset {
                None => 0,
                Some(t) => match literal_usize(t) {
                    Some(n) => n,
                    None => {
                        return Err(Reason::OffsetLiteral);
                    },
                },
            };
            Ok((rows, skip))
        },
    }
}

/// What a select item offers to an `ORDER BY` that names a column.
pub ghost enum Label {
    Name(Seq<char>),
    Unnamed,
    Broken,
}

pub open spec fn item_label(item: ItemModel) -> Label {
    match item {
        ItemModel::Term { term, alias, .. } => match alias {
            Some(a) => Label::Name(lower(a)),
            None => match term.node {
                NodeModel::Identifier(s) => Label::Name(lower(s)),
                NodeModel::Compound(parts) => if parts.len() > 0 {
                    Label::Name(lower(parts.last()))
                } else {
                    Label::Broken
                },
                _ => Label::Unnamed,
            },
        },
        _ => Label::Unnamed,
    }
}

/// The first item from `i` on whose label is `wanted`.
pub open spec fn labelled(items: Seq<ItemModel>, wanted: Seq<char>, i: int) -> Option<usize>
    decreases items.len() - i,
{
    if i < 0 || i >= items.len() {
        None
    } else {
        match item_label(items[i]) {
            Label::Broken => None,
            Label::Unnamed => labelled(items, wanted, i + 1),
            Label::Name(n) => if n == wanted {
                Some(i as usize)
            } else {
                labelled(items, wanted, i + 1)
            },
        }
    }
}

/// The output column that an `ORDER BY` term refers to: by ordinal, or by name in any case.
pub open spec fn output_column(t: TermModel, items: Seq<ItemModel>) -> Option<usize> {
    match t.node {
        NodeModel::Literal(LiteralModel::Number(n)) => match unsigned_text(n) {
            Some(v) => if 1 <= v <= items.len() {
                Some((v - 1) as usize)
            } else {
                None
            },
            None => None,
        },
        NodeModel::Identifier(s) => labelled(items, lower(s), 0),
        NodeModel::Compound(parts) => if parts.len() > 0 {
            labelled(items, lower(parts.last()), 0)
        } else {
            None
        },
        _ => None,
    }
}

pub open spec fn sort_key(t: OrderTermModel, items: Seq<ItemModel>) -> SortKey {
    let descending = t.ascending == Some(false);
    SortKey {
        column: output_column(t.term, items)->0,
        descending,
        nulls_first: match t.nulls_first {
            Some(first) => first,
            None => !descending,
        },
    }
}

/// The sort keys of an `ORDER BY` over the select list.
pub open spec fn sort_keys(order_by: Option<OrderByModel>, items: Seq<ItemModel>) -> Result<
    Seq<SortKey>,
    Reason,
> {
    match order_by {
        None => Ok(Seq::empty()),
        Some(order) => match order.terms {
            None => Err(Reason::OrderByAll),
            Some(terms) => if forall|i: int|
                0 <= i < terms.len() ==> output_column((#[trigger] terms[i]).term, items) is Some {
                Ok(Seq::new(terms.len(), |i: int| sort_key(terms[i], items)))
            } else {
                Err(Reason::OrderByHidden)
            },
        },
    }
}

fn labelled_index(items: &Vec<Item>, wanted: &str) -> (r: Option<usize>)
    ensures
        r == labelled(items_model(items@), wanted@, 0),
{
    let ghost model = items_model(items@);
    let mut i: usize = 0;
    while i < items.len()
        invariant
            i <= items@.len(),
            model == items_model(items@),
            labelled(model, wanted@, i as int) == labelled(model, wanted@, 0),
        decreases items@.len() - i,
    {
        assert(model[i as int] == items@[i as int]@);
        let name: Option<String> = match &items[i] {
            Item::Term { term, alias, .. } => match alias {
                Some(a) => Some(to_lower(a.as_str())),
                None => match &term.node {
                    Node::Identifier(s) => Some(to_lower(s.as_str())),
                    Node::Compound(parts) => {
                        if parts.len() == 0 {
                            return None;
                        }
                        assert(views(parts@).last() == parts@.last()@);
                        Some(to_lower(parts[parts.len() - 1].as_str()))
                    },
                    _ => None,
                },
            },
            _ => None,
        };
        if let Some(n) = name {
            if same(n.as_str(), wanted) {
                return Some(i);
            }
        }
        i = i + 1;
    }
    None
}

fn output_column_index(t: &Term, items: &Vec<Item>) -> (r: Option<usize>)
    ensures
        r == output_column(t.model(), items_model(items@)),
        r is Some ==> r->0 < items@.len(),
{
    let r = match &t.node {
        Node::Literal(Literal::Number(n)) => match parse_usize(n.as_str()) {
            Some(v) => if 1 <= v && v <= items.len() {
                Some(v - 1)
            } else {
                None
            },
            None => None,
        },
        Node::Identifier(s) => {
            let wanted = to_lower(s.as_str());
            labelled_index(items, wanted.as_str())
        },
        Node::Compound(parts) => {
            if parts.len() == 0 {
                None
            } else {
                assert(views(parts@).last() == parts@.last()@);
                let wanted = to_lower(parts[parts.len() - 1].as_str());
                labelled_index(items, wanted.as_str())
            }
        },
        _ => None,
    };
    proof {
        assert(items@.len() == items.len());
        match &t.node {
            Node::Identifier(s) => {
                lemma_labelled_in_range(items_model(items@), lower(s@), 0);
            },
            Node::Compound(parts) => {
                if parts@.len() > 0 {
                    lemma_labelled_in_range(items_model(items@), lower(parts@.last()@), 0);
                }
            },
            _ => {},
        }
    }
    r
}

proof fn lemma_labelled_in_range(items: Seq<ItemModel>, wanted: Seq<char>, i: int)
    requires
        items.len() <= usize::MAX,
    ensures
        labelled(items, wanted, i) is Some ==> labelled(items, wanted, i)->0 < items.len(),
    decreases items.len() - i,
{
    if 0 <= i < items.len() {
        lemma_labelled_in_range(items, wanted, i + 1);
    }
}

pub open spec fn keys_result(r: Result<Vec<SortKey>, Reason>) -> Result<Seq<SortKey>, Reason> {
    match r {
        Ok(v) => Ok(v@),
        Err(e) => Err(e),
    }
}

#[verifier::loop_isolation(false)]
fn resolve_sort_keys(order_by: &Option<OrderTree>, items: &Vec<Item>) -> (r: Result<
    Vec<SortKey>,
    Reason,
>)
    ensures
        keys_result(r) == sort_keys(
            match *order_by {
                Some(o) => Some(o@),
                None => None,
            },
            items_model(items@),
        ),
{
    let order = match order_by {
        None => {
            let none: Vec<SortKey> = Vec::new();
            assert(none@ =~= Seq::empty());
            return Ok(none);
        },
        Some(o) => o,
    };
    let terms = match &order.terms {
        None => {
            return Err(Reason::OrderByAll);
        },
        Some(t) => t,
    };
    let ghost model = order_terms_model(terms@);
    let ghost shown = items_model(items@);
    let mut keys: Vec<SortKey> = Vec::with_capacity(terms.len());
    let mut i: usize = 0;
    while i < terms.len()
        invariant
            i <= terms@.len(),
            model == order_terms_model(terms@),
            shown == items_model(items@),
            keys@.len() == i,
            forall|k: int| 0 <= k < i ==> output_column((#[trigger] model[k]).term, shown) is Some,
            forall|k: int| 0 <= k < i ==> keys@[k] == sort_key(#[trigger] model[k], shown),
        decreases terms@.len() - i,
    {
        assert(model[i as int] == terms@[i as int]@);
        let column: usize = match output_column_index(&terms[i].term, items) {
            Some(c) => c,
            None => {
                assert(output_column(model[i as int].term, shown) is None);
                return Err(Reason::OrderByHidden);
            },
        };
        let descending = match terms[i].ascending {
            Some(up) => !up,
            None => false,
        };
        let nulls_first = match terms[i].nulls_first {
            Some(first) => first,
            None => !descending,
        };
        keys.push(SortKey { column, descending, nulls_first });
        i = i + 1;
    }
    assert(keys@ =~= Seq::new(model.len(), |k: int| sort_key(model[k], shown)));
    Ok(keys)
}


// ---- joins -------------------------------------------------------------------------------------

/// The conjuncts of an expression: split at every `AND`, looking through parentheses.
pub open spec fn conjuncts(t: TermModel) -> Seq<TermModel>
    decreases t,
{
    match t.node {
        NodeModel::Binary(l, BinOp::And, r) => conjuncts(*l) + conjuncts(*r),
        NodeModel::Nested(inner) => conjuncts(*inner),
        _ => seq![t],
    }
}

/// A two-part reference `alias.column`, in lower case.
pub open spec fn column_pair(t: TermModel) -> Option<(Seq<char>, Seq<char>)> {
    match t.node {
        NodeModel::Compound(parts) => if parts.len() == 2 {
            Some((lower(parts[0]), lower(parts[1])))
        } else {
            None
        },
        _ => None,
    }
}

/// Whether a term is `x.a = y.b` for two different relations and their shard keys.
pub open spec fn equates_keys(t: TermModel, aliases: Map<Seq<char>, Seq<char>>) -> bool {
    match t.node {
        NodeModel::Binary(l, BinOp::Eq, r) => match (column_pair(*l), column_pair(*r)) {
            (Some(x), Some(y)) => x.0 != y.0 && lookup(aliases, x.0) == Some(x.1) && lookup(
                aliases,
                y.0,
            ) == Some(y.1),
            _ => false,
        },
        _ => false,
    }
}

/// Whether some conjunct of an `ON` condition equates the shard keys of two relations.
pub open spec fn on_shard_keys(t: TermModel, aliases: Map<Seq<char>, Seq<char>>) -> bool {
    exists|i: int| 0 <= i < conjuncts(t).len() && equates_keys(#[trigger] conjuncts(t)[i], aliases)
}

/// The aliases known so far with one more relation.
pub open spec fn with_relation(
    source: SourceModel,
    keys: Map<Seq<char>, Seq<char>>,
    aliases: Map<Seq<char>, Seq<char>>,
) -> Result<Map<Seq<char>, Seq<char>>, Reason> {
    match source {
        SourceModel::Table { name, alias, .. } => match lookup(keys, lower(name)) {
            Some(key) => Ok(
                aliases.insert(
                    match alias {
                        Some(a) => lower(a),
                        None => lower(name),
                    },
                    lower(key),
                ),
            ),
            None => Err(Reason::JoinUndeclared),
        },
        _ => Err(Reason::JoinedSubquery),
    }
}

/// The aliases known after the first `n` joins, each of which is on shard keys.
pub open spec fn joined(
    joins: Seq<JoinModel>,
    keys: Map<Seq<char>, Seq<char>>,
    start: Result<Map<Seq<char>, Seq<char>>, Reason>,
    n: nat,
) -> Result<Map<Seq<char>, Seq<char>>, Reason>
    decreases n,
{
    if n == 0 || n > joins.len() {
        start
    } else {
        match joined(joins, keys, start, (n - 1) as nat) {
            Err(e) => Err(e),
            Ok(aliases) => match with_relation(joins[n - 1].source, keys, aliases) {
                Err(e) => Err(e),
                Ok(more) => match joins[n - 1].on {
                    JoinOnModel::Operator => Err(Reason::JoinType),
                    JoinOnModel::Constraint => Err(Reason::JoinConstraint),
                    JoinOnModel::On(t) => if on_shard_keys(t, more) {
                        Ok(more)
                    } else {
                        Err(Reason::NotOnShardKeys)
                    },
                },
            },
        }
    }
}

/// Why a `FROM` cannot be pushed to each shard: `None` for no `FROM`, a single table, or a join in
/// which every relation is tied to the others by an equality of declared shard keys.
pub open spec fn join_refusal(
    from: Seq<FromModel>,
    keys: Map<Seq<char>, Seq<char>>,
) -> Option<Reason> {
    if from.len() > 1 {
        Some(Reason::CrossJoin)
    } else if from.len() == 0 {
        None
    } else if !(from[0].source is Table) {
        Some(Reason::DerivedFrom)
    } else if from[0].joins.len() == 0 {
        None
    } else {
        match joined(
            from[0].joins,
            keys,
            with_relation(from[0].source, keys, Map::empty()),
            from[0].joins.len(),
        ) {
            Ok(_) => None,
            Err(e) => Some(e),
        }
    }
}

fn compound_pair(t: &Term) -> (r: Option<(String, String)>)
    ensures
        match r {
            Some(p) => column_pair(t.model()) == Some((p.0@, p.1@)),
            None => column_pair(t.model()) is None,
        },
{
    match &t.node {
        Node::Compound(parts) => if parts.len() == 2 {
            Some((to_lower(parts[0].as_str()), to_lower(parts[1].as_str())))
        } else {
            None
        },
        _ => None,
    }
}

fn key_is(aliases: &TextMap, alias: &str, column: &str) -> (r: bool)
    ensures
        r == (lookup(aliases@, alias@) == Some(column@)),
{
    match aliases.get(alias) {
        Some(k) => same(k.as_str(), column),
        None => false,
    }
}

fn on_equates_shard_keys(t: &Term, aliases: &TextMap) -> (r: bool)
    ensures
        r == on_shard_keys(t.model(), aliases@),
    decreases t,
{
    let ghost model = t.model();
    match &t.node {
        Node::Binary(left, BinOp::And, right) => {
            let in_left = on_equates_shard_keys(left, aliases);
            let in_right = on_equates_shard_keys(right, aliases);
            proof {
                let l = conjuncts(left.model());
                let r = conjuncts(right.model());
                assert(conjuncts(model) == l + r);
                if in_left {
                    let i = choose|i: int| 0 <= i < l.len() && equates_keys(#[trigger] l[i], aliases@);
                    assert((l + r)[i] == l[i]);
                }
                if in_right {
                    let i = choose|i: int| 0 <= i < r.len() && equates_keys(#[trigger] r[i], aliases@);
                    assert((l + r)[l.len() + i] == r[i]);
                }
                if on_shard_keys(model, aliases@) {
                    let i = choose|i: int|
                        0 <= i < (l + r).len() && equates_keys(#[trigger] (l + r)[i], aliases@);
                    if i < l.len() {
                        assert(l[i] == (l + r)[i]);
                    } else {
                        assert(r[i - l.len()] == (l + r)[i]);
                    }
                }
            }
            proof {
                assert(on_shard_keys(model, aliases@) == (in_left || in_right));
            }
            in_left || in_right
        },
        Node::Nested(inner) => {
            let inside = on_equates_shard_keys(inner, aliases);
            proof {
                assert(conjuncts(model) == conjuncts(inner.model()));
                assert(on_shard_keys(model, aliases@) == inside);
            }
            inside
        },
        Node::Binary(left, BinOp::Eq, right) => {
            proof {
                assert(conjuncts(model) == seq![model]);
                assert(conjuncts(model)[0] == model);
                assert(on_shard_keys(model, aliases@) == equates_keys(model, aliases@));
            }
            match (compound_pair(left), compound_pair(right)) {
                (Some(x), Some(y)) => !same(x.0.as_str(), y.0.as_str()) && key_is(
                    aliases,
                    x.0.as_str(),
                    x.1.as_str(),
                ) && key_is(aliases, y.0.as_str(), y.1.as_str()),
                _ => false,
            }
        },
        _ => {
            proof {
                assert(conjuncts(model) == seq![model]);
                assert(conjuncts(model)[0] == model);
                assert(!equates_keys(model, aliases@));
                assert(on_shard_keys(model, aliases@) == equates_keys(model, aliases@));
            }
            false
        },
    }
}

fn add_join_relation(source: &Source, keys: &ShardKeys, aliases: &mut TextMap) -> (r: Result<
    (),
    Reason,
>)
    ensures
        match r {
            Ok(_) => with_relation(source@, keys@, old(aliases)@) == Ok::<
                Map<Seq<char>, Seq<char>>,
                Reason,
            >(final(aliases)@),
            Err(e) => with_relation(source@, keys@, old(aliases)@) == Err::<
                Map<Seq<char>, Seq<char>>,
                Reason,
            >(e),
        },
{
    match source {
        Source::Table { name, alias, .. } => {
            let table = to_lower(name.as_str());
            match keys.get(table.as_str()) {
                Some(key) => {
                    let shown = match alias {
                        Some(a) => to_lower(a.as_str()),
                        None => table,
                    };
                    aliases.insert(shown, to_lower(key.as_str()));
                    Ok(())
                },
                None => Err(Reason::JoinUndeclared),
            }
        },
        _ => Err(Reason::JoinedSubquery),
    }
}

proof fn lemma_joined_stops(
    joins: Seq<JoinModel>,
    keys: Map<Seq<char>, Seq<char>>,
    start: Result<Map<Seq<char>, Seq<char>>, Reason>,
    n: nat,
    m: nat,
)
    requires
        n <= m <= joins.len(),
        joined(joins, keys, start, n) is Err,
    ensures
        joined(joins, keys, start, m) == joined(joins, keys, start, n),
    decreases m - n,
{
    if n < m {
        lemma_joined_stops(joins, keys, start, n, (m - 1) as nat);
    }
}

/// Whether the `FROM` of a select can be pushed to each shard.
#[verifier::loop_isolation(false)]
fn check_join(select: &SelectTree, keys: &ShardKeys) -> (r: Result<(), Reason>)
    ensures
        join_refusal(select@.from, keys@) == (match r {
            Ok(_) => None,
            Err(e) => Some(e),
        }),
{
    if select.from.len() > 1 {
        return Err(Reason::CrossJoin);
    }
    if select.from.len() == 0 {
        return Ok(());
    }
    let item = &select.from[0];
    let ghost model = item@;
    assert(select@.from[0] == model);
    match &item.source {
        Source::Table { .. } => {},
        _ => {
            return Err(Reason::DerivedFrom);
        },
    }
    if item.joins.len() == 0 {
        return Ok(());
    }
    let mut aliases = TextMap::new();
    let ghost start = with_relation(model.source, keys@, Map::empty());
    match add_join_relation(&item.source, keys, &mut aliases) {
        Ok(_) => {},
        Err(e) => {
            proof {
                lemma_joined_stops(model.joins, keys@, start, 0, model.joins.len());
            }
            return Err(e);
        },
    }
    let mut i: usize = 0;
    while i < item.joins.len()
        invariant
            i <= item.joins@.len(),
            joined(model.joins, keys@, start, i as nat) == Ok::<Map<Seq<char>, Seq<char>>, Reason>(
                aliases@,
            ),
        decreases item.joins@.len() - i,
    {
        let j = &item.joins[i];
        assert(model.joins[i as int] == j@);
        let mut refusal: Option<Reason> = None;
        match add_join_relation(&j.source, keys, &mut aliases) {
            Err(e) => {
                refusal = Some(e);
            },
            Ok(_) => match &j.on {
                JoinOn::Operator => {
                    refusal = Some(Reason::JoinType);
                },
                JoinOn::Constraint => {
                    refusal = Some(Reason::JoinConstraint);
                },
                JoinOn::On(t) => {
                    if !on_equates_shard_keys(t, &aliases) {
                        refusal = Some(Reason::NotOnShardKeys);
                    }
                },
            },
        }
        if let Some(e) = refusal {
            proof {
                lemma_joined_stops(model.joins, keys@, start, (i + 1) as nat, model.joins.len());
            }
            return Err(e);
        }
        i = i + 1;
    }
    Ok(())
}


// ---- central execution -------------------------------------------------------------------------

pub open spec fn join_sources(joins: Seq<JoinModel>) -> Seq<SourceModel> {
    joins.map_values(|j: JoinModel| j.source)
}

/// Every relation of a `FROM`, left to right.
pub open spec fn relations(from: Seq<FromModel>) -> Seq<SourceModel>
    decreases from.len(),
{
    if from.len() == 0 {
        Seq::empty()
    } else {
        relations(from.drop_last()).push(from.last().source) + join_sources(from.last().joins)
    }
}

/// Whether a table of that name, in any case, is among the sources.
pub open spec fn has_source(sources: Seq<CentralSourceModel>, name: Seq<char>) -> bool {
    exists|i: int| 0 <= i < sources.len() && lower((#[trigger] sources[i]).table) == lower(name)
}

/// The sources to materialise for the first `n` relations, each name once.
pub open spec fn central_sources(rels: Seq<SourceModel>, n: nat) -> Result<
    Seq<CentralSourceModel>,
    Reason,
>
    decreases n,
{
    if n == 0 || n > rels.len() {
        Ok(Seq::empty())
    } else {
        match central_sources(rels, (n - 1) as nat) {
            Err(e) => Err(e),
            Ok(sources) => match rels[n - 1] {
                SourceModel::Table { name, .. } => if has_source(sources, name) {
                    Ok(sources)
                } else {
                    Ok(sources.push(CentralSourceModel { table: name, sql: "SELECT * FROM "@ + name }))
                },
                SourceModel::Derived { sql, alias } => match alias {
                    None => Err(Reason::UnnamedDerived),
                    Some(name) => if has_source(sources, name) {
                        Ok(sources)
                    } else {
                        Ok(sources.push(CentralSourceModel { table: name, sql }))
                    },
                },
                SourceModel::Other => Err(Reason::FromSource),
            },
        }
    }
}

/// The plan that materialises every source of the select and runs `central_sql` over them.
pub open spec fn central_plan(select: SelectModel, central_sql: Seq<char>) -> Result<
    PlanModel,
    Reason,
> {
    let rels = relations(select.from);
    match central_sources(rels, rels.len()) {
        Err(e) => Err(e),
        Ok(sources) => if sources.len() == 0 {
            Err(Reason::NoSource)
        } else {
            Ok(PlanModel::Central(CentralModel { sources, central_sql }))
        },
    }
}

pub open spec fn plan_result(r: Result<Plan, Reason>) -> Result<PlanModel, Reason> {
    match r {
        Ok(p) => Ok(p@),
        Err(e) => Err(e),
    }
}

pub open spec fn source_list(list: Seq<&Source>) -> Seq<SourceModel> {
    list.map_values(|s: &Source| s@)
}

fn relation_list(from: &Vec<FromItem>) -> (r: Vec<&Source>)
    ensures
        source_list(r@) == relations(from_model(from@)),
{
    let ghost model = from_model(from@);
    let mut out: Vec<&Source> = Vec::new();
    let mut i: usize = 0;
    assert(source_list(out@) =~= relations(model.take(0)));
    while i < from.len()
        invariant
            i <= from@.len(),
            model == from_model(from@),
            source_list(out@) == relations(model.take(i as int)),
        decreases from@.len() - i,
    {
        let ghost before = out@;
        out.push(&from[i].source);
        let ghost head = source_list(out@);
        proof {
            assert(head =~= source_list(before).push(from@[i as int].source@));
        }
        let joins = &from[i].joins;
        let ghost joined_here = joins_model(joins@);
        let mut k: usize = 0;
        assert(join_sources(joined_here).take(0) =~= Seq::empty());
        assert(head + Seq::<SourceModel>::empty() =~= head);
        while k < joins.len()
            invariant
                k <= joins@.len(),
                joined_here == joins_model(joins@),
                source_list(out@) == head + join_sources(joined_here).take(k as int),
            decreases joins@.len() - k,
        {
            let ghost prior = out@;
            out.push(&joins[k].source);
            proof {
                assert(source_list(out@) =~= source_list(prior).push(joins@[k as int].source@));
                let all = join_sources(joined_here);
                assert(all.take(k as int + 1) =~= all.take(k as int).push(all[k as int]));
                assert(source_list(out@) =~= head + all.take(k as int + 1));
            }
            k = k + 1;
        }
        proof {
            let all = join_sources(joined_here);
            assert(all.take(joins@.len() as int) =~= all);
            assert(model.take(i as int + 1).drop_last() =~= model.take(i as int));
            assert(model.take(i as int + 1).last() == from@[i as int]@);
        }
        i = i + 1;
    }
    assert(model.take(from@.len() as int) =~= model);
    out
}

fn is_listed(sources: &Vec<CentralSource>, name: &str) -> (r: bool)
    ensures
        r == has_source(sources_model(sources@), name@),
{
    let ghost model = sources_model(sources@);
    let wanted = to_lower(name);
    let mut i: usize = 0;
    while i < sources.len()
        invariant
            i <= sources@.len(),
            model == sources_model(sources@),
            wanted@ == lower(name@),
            forall|k: int| 0 <= k < i ==> lower((#[trigger] model[k]).table) != lower(name@),
        decreases sources@.len() - i,
    {
        assert(model[i as int] == sources@[i as int]@);
        let table = to_lower(sources[i].table.as_str());
        if same(table.as_str(), wanted.as_str()) {
            return true;
        }
        i = i + 1;
    }
    false
}

proof fn lemma_central_sources_stop(rels: Seq<SourceModel>, n: nat, m: nat)
    requires
        n <= m <= rels.len(),
        central_sources(rels, n) is Err,
    ensures
        central_sources(rels, m) == central_sources(rels, n),
    decreases m - n,
{
    if n < m {
        lemma_central_sources_stop(rels, n, (m - 1) as nat);
    }
}

fn push_source(sources: &mut Vec<CentralSource>, table: &String, sql: String)
    ensures
        sources_model(final(sources)@) == sources_model(old(sources)@).push(
            CentralSourceModel { table: table@, sql: sql@ },
        ),
{
    sources.push(CentralSource { table: table.clone(), sql });
    assert(sources_model(sources@) =~= sources_model(old(sources)@).push(
        CentralSourceModel { table: table@, sql: sql@ },
    ));
}

/// Plan a query whose `FROM` cannot be pushed down: each source becomes a table to materialise.
#[verifier::loop_isolation(false)]
fn plan_central(select: &SelectTree, central_sql: &String) -> (r: Result<Plan, Reason>)
    ensures
        plan_result(r) == central_plan(select@, central_sql@),
{
    let rels = relation_list(&select.from);
    let ghost model = source_list(rels@);
    let mut sources: Vec<CentralSource> = Vec::new();
    assert(sources_model(sources@) =~= Seq::empty());
    let mut i: usize = 0;
    while i < rels.len()
        invariant
            i <= rels@.len(),
            central_sources(model, i as nat) == Ok::<Seq<CentralSourceModel>, Reason>(
                sources_model(sources@),
            ),
        decreases rels@.len() - i,
    {
        let source: &Source = rels[i];
        assert(model[i as int] == source@);
        let mut refusal: Option<Reason> = None;
        match source {
            Source::Table { name, .. } => {
                if !is_listed(&sources, name.as_str()) {
                    let mut sql = "SELECT * FROM ".to_owned();
                    sql.append(name.as_str());
                    push_source(&mut sources, name, sql);
                }
            },
            Source::Derived { sql, alias } => match alias {
                None => {
                    refusal = Some(Reason::UnnamedDerived);
                },
                Some(name) => {
                    if !is_listed(&sources, name.as_str()) {
                        push_source(&mut sources, name, sql.clone());
                    }
                },
            },
            Source::Other => {
                refusal = Some(Reason::FromSource);
            },
        }
        if let Some(e) = refusal {
            proof {
                lemma_central_sources_stop(model, (i + 1) as nat, model.len());
            }
            return Err(e);
        }
        i = i + 1;
    }
    if sources.len() == 0 {
        return Err(Reason::NoSource);
    }
    Ok(Plan::Central(Box::new(Central { sources, central_sql: central_sql.clone() })))
}

// ---- the columns a query reads -----------------------------------------------------------------

/// The names of the columns among the first `n` mentions, each once, as they first appear.
pub open spec fn columns_read(mentions: Seq<MentionModel>, n: nat) -> Seq<Seq<char>>
    decreases n,
{
    if n == 0 || n > mentions.len() {
        Seq::empty()
    } else {
        let before = columns_read(mentions, (n - 1) as nat);
        match mentions[n - 1] {
            MentionModel::Column(name) => if before.contains(name) {
                before
            } else {
                before.push(name)
            },
            _ => before,
        }
    }
}

pub open spec fn quoted_all(names: Seq<Seq<char>>) -> Seq<Seq<char>> {
    names.map_values(|n: Seq<char>| quoted(n))
}

/// Every column the query names, quoted, each once, as they first appear.
fn referenced_columns(mentions: &Vec<Mention>) -> (r: Vec<String>)
    ensures
        views(r@) == quoted_all(columns_read(mentions_model(mentions@), mentions@.len())),
{
    let ghost model = mentions_model(mentions@);
    let mut seen: Vec<String> = Vec::new();
    let mut out: Vec<String> = Vec::new();
    let mut i: usize = 0;
    assert(views(seen@) =~= Seq::empty());
    assert(views(out@) =~= quoted_all(Seq::empty()));
    while i < mentions.len()
        invariant
            i <= mentions@.len(),
            model == mentions_model(mentions@),
            views(seen@) == columns_read(model, i as nat),
            views(out@) == quoted_all(views(seen@)),
        decreases mentions@.len() - i,
    {
        assert(model[i as int] == mentions@[i as int]@);
        match &mentions[i] {
            Mention::Column(name) => {
                if !contains_text(&seen, name.as_str()) {
                    let ghost seen_before = seen@;
                    let ghost out_before = out@;
                    seen.push(name.clone());
                    out.push(quote_ident(name.as_str()));
                    proof {
                        assert(views(seen@) =~= views(seen_before).push(name@));
                        assert(views(out@) =~= views(out_before).push(quoted(name@)));
                        assert(quoted_all(views(seen@)) =~= quoted_all(views(seen_before)).push(
                            quoted(name@),
                        ));
                    }
                }
            },
            _ => {},
        }
        i = i + 1;
    }
    out
}

/// Whether duplicates can be dropped from a source before it is materialised: no aggregate of the
/// select list or of `HAVING` counts how often a row appears.
pub open spec fn preshrink_safe(select: SelectModel) -> bool {
    &&& forall|i: int|
        0 <= i < select.projection.len() ==> match #[trigger] select.projection[i] {
            ItemModel::Term { calls, .. } => !mentions_row_count(calls),
            _ => true,
        }
    &&& match select.having {
        Some(h) => !mentions_row_count(h.calls),
        None => true,
    }
}

fn distinct_preshrink_safe(select: &SelectTree) -> (r: bool)
    ensures
        r == preshrink_safe(select@),
{
    let ghost model = select@;
    let mut i: usize = 0;
    while i < select.projection.len()
        invariant
            i <= select.projection@.len(),
            model == select@,
            forall|k: int|
                0 <= k < i ==> match #[trigger] model.projection[k] {
                    ItemModel::Term { calls, .. } => !mentions_row_count(calls),
                    _ => true,
                },
        decreases select.projection@.len() - i,
    {
        assert(model.projection[i as int] == select.projection@[i as int]@);
        match &select.projection[i] {
            Item::Term { calls, .. } => {
                if any_counts_rows(calls) {
                    return false;
                }
            },
            _ => {},
        }
        i = i + 1;
    }
    match &select.having {
        Some(h) => !any_counts_rows(&h.calls),
        None => true,
    }
}

/// ` WHERE ` and the condition, where there is one.
pub open spec fn where_clause(selection: Option<TermModel>) -> Seq<char> {
    match selection {
        Some(t) => " WHERE "@ + t.text,
        None => Seq::empty(),
    }
}

fn push_where(out: &mut String, selection: &Option<Term>)
    ensures
        final(out)@ == old(out)@ + where_clause(term_option(*selection)),
{
    match selection {
        Some(t) => {
            out.append(" WHERE ");
            out.append(t.text.as_str());
            assert(out@ =~= old(out)@ + where_clause(term_option(*selection)));
        },
        None => {
            assert(out@ =~= old(out)@ + where_clause(term_option(*selection)));
        },
    }
}

/// The one table of a `FROM` without joins.
pub open spec fn lone_table(from: Seq<FromModel>) -> Option<Seq<char>> {
    if from.len() == 1 && from[0].joins.len() == 0 {
        match from[0].source {
            SourceModel::Table { name, .. } => Some(name),
            _ => None,
        }
    } else {
        None
    }
}

/// The query that fills the one source of a centrally run aggregate: the columns that the query
/// reads, without duplicates where those do not matter.
pub open spec fn narrowed_source(query: QueryModel, select: SelectModel, table: Seq<char>) -> Seq<
    char,
> {
    let cols = columns_read(query.mentions, query.mentions.len());
    "SELECT "@ + (if preshrink_safe(select) {
        "DISTINCT "@
    } else {
        ""@
    }) + (if cols.len() == 0 {
        "*"@
    } else {
        join_with(quoted_all(cols), ", "@)
    }) + " FROM "@ + table + where_clause(select.selection)
}

/// A grouped query run on the coordinator. `own_sql` is the query as it stands, `central_sql` the
/// query over materialised sources.
pub open spec fn central_grouped_plan(
    query: QueryModel,
    select: SelectModel,
    own_sql: Seq<char>,
    central_sql: Seq<char>,
) -> Result<PlanModel, Reason> {
    match lone_table(select.from) {
        None => central_plan(select, central_sql),
        Some(table) => Ok(
            PlanModel::Central(
                CentralModel {
                    sources: seq![
                        CentralSourceModel { table, sql: narrowed_source(query, select, table) },
                    ],
                    central_sql: own_sql,
                },
            ),
        ),
    }
}

fn plan_central_grouped(
    query: &QueryTree,
    select: &SelectTree,
    own_sql: &String,
    central_sql: &String,
) -> (r: Result<Plan, Reason>)
    ensures
        plan_result(r) == central_grouped_plan(query@, select@, own_sql@, central_sql@),
{
    let table: Option<&String> = if select.from.len() == 1 && select.from[0].joins.len() == 0 {
        assert(select@.from[0] == select.from@[0]@);
        match &select.from[0].source {
            Source::Table { name, .. } => Some(name),
            _ => None,
        }
    } else {
        assert(select@.from.len() == 1 ==> select@.from[0] == select.from@[0]@);
        None
    };
    let name = match table {
        None => {
            return plan_central(select, central_sql);
        },
        Some(name) => name,
    };
    let cols = referenced_columns(&query.mentions);
    assert(query@.mentions.len() == query.mentions@.len());
    assert(views(cols@).len() == cols@.len());
    let mut sql = "SELECT ".to_owned();
    if distinct_preshrink_safe(select) {
        sql.append("DISTINCT ");
    } else {
        sql.append("");
    }
    if cols.len() == 0 {
        sql.append("*");
    } else {
        let list = join(&cols, ", ");
        sql.append(list.as_str());
    }
    sql.append(" FROM ");
    sql.append(name.as_str());
    push_where(&mut sql, &select.selection);
    assert(sql@ =~= narrowed_source(query@, select@, name@));
    let mut sources: Vec<CentralSource> = Vec::new();
    assert(sources_model(sources@) =~= Seq::empty());
    let ghost text = sql@;
    push_source(&mut sources, name, sql);
    assert(sources_model(sources@) =~= seq![CentralSourceModel { table: name@, sql: text }]);
    Ok(Plan::Central(Box::new(Central { sources, central_sql: own_sql.clone() })))
}


// ---- grouping ----------------------------------------------------------------------------------

/// What a grouped query has gathered: the columns each shard selects, and the output columns that
/// the coordinator computes from them.
pub ghost struct Build {
    pub partial: Seq<Seq<char>>,
    pub outputs: Seq<OutputCol>,
}

struct Builder {
    partial: Vec<String>,
    outputs: Vec<OutputCol>,
}

impl View for Builder {
    type V = Build;

    closed spec fn view(&self) -> Build {
        Build { partial: views(self.partial@), outputs: self.outputs@ }
    }
}

/// The build with one more aggregate: `COUNT`, `SUM`, `MIN` and `MAX` keep their own call on each
/// shard, `AVG` becomes a `SUM` and a `COUNT`. `None` where the call is no aggregate.
pub open spec fn with_aggregate(c: CallModel, b: Build) -> Result<Option<Build>, Reason> {
    match aggregate_choice(c) {
        Err(e) => Err(e),
        Ok(None) => Ok(None),
        Ok(Some(choice)) => match single_arg(c) {
            Err(e) => Err(e),
            Ok(arg) => Ok(
                Some(
                    match choice {
                        AggChoice::Simple(kind) => Build {
                            partial: b.partial.push(c.name + "("@ + arg + ")"@),
                            outputs: b.outputs.push(
                                OutputCol::Combine { kind, col: b.partial.len() as usize },
                            ),
                        },
                        AggChoice::Avg => Build {
                            partial: b.partial.push("SUM("@ + arg + ")"@).push(
                                "COUNT("@ + arg + ")"@,
                            ),
                            outputs: b.outputs.push(
                                OutputCol::Avg {
                                    sum_col: b.partial.len() as usize,
                                    count_col: (b.partial.len() + 1) as usize,
                                },
                            ),
                        },
                    },
                ),
            ),
        },
    }
}

/// The first place in `s` that holds `x`, from `i` on.
pub open spec fn index_from(s: Seq<Seq<char>>, x: Seq<char>, i: int) -> Option<usize>
    decreases s.len() - i,
{
    if i < 0 || i >= s.len() {
        None
    } else if s[i] == x {
        Some(i as usize)
    } else {
        index_from(s, x, i + 1)
    }
}

fn position(v: &Vec<String>, x: &str) -> (r: Option<usize>)
    ensures
        r == index_from(views(v@), x@, 0),
{
    let mut i: usize = 0;
    while i < v.len()
        invariant
            i <= v@.len(),
            index_from(views(v@), x@, i as int) == index_from(views(v@), x@, 0),
        decreases v@.len() - i,
    {
        if same(v[i].as_str(), x) {
            return Some(i);
        }
        i = i + 1;
    }
    None
}

fn call_text(name: &str, arg: &str) -> (r: String)
    ensures
        r@ == name@ + "("@ + arg@ + ")"@,
{
    let mut out = name.to_owned();
    out.append("(");
    out.append(arg);
    out.append(")");
    out
}

fn push_aggregate(c: &Call, b: &mut Builder) -> (r: Result<Option<usize>, Reason>)
    ensures
        match r {
            Ok(Some(i)) => i == old(b)@.outputs.len() && with_aggregate(c@, old(b)@) == Ok::<
                Option<Build>,
                Reason,
            >(Some(final(b)@)),
            Ok(None) => with_aggregate(c@, old(b)@) == Ok::<Option<Build>, Reason>(None) && final(b)@ == old(b)@,
            Err(e) => with_aggregate(c@, old(b)@) == Err::<Option<Build>, Reason>(e),
        },
{
    let choice = match classify_aggregate(c) {
        Err(e) => {
            return Err(e);
        },
        Ok(None) => {
            return Ok(None);
        },
        Ok(Some(choice)) => choice,
    };
    let arg = match single_arg_sql(c) {
        Err(e) => {
            return Err(e);
        },
        Ok(arg) => arg,
    };
    let index: usize = b.outputs.len();
    let ghost before = b@;
    let ghost columns = b.partial@;
    match choice {
        AggChoice::Simple(kind) => {
            let col: usize = b.partial.len();
            b.partial.push(call_text(c.name.as_str(), arg.as_str()));
            b.outputs.push(OutputCol::Combine { kind, col });
            assert(b@.partial =~= before.partial.push(c@.name + "("@ + arg@ + ")"@));
        },
        AggChoice::Avg => {
            let sum_col: usize = b.partial.len();
            let sum = call_text("SUM", arg.as_str());
            let count = call_text("COUNT", arg.as_str());
            proof {
                reveal_strlit("SUM");
                reveal_strlit("(");
                reveal_strlit("SUM(");
                reveal_strlit("COUNT");
                reveal_strlit("COUNT(");
                assert("SUM"@ + "("@ =~= "SUM("@);
                assert("COUNT"@ + "("@ =~= "COUNT("@);
            }
            b.partial.push(sum);
            let count_col: usize = b.partial.len();
            b.partial.push(count);
            b.outputs.push(OutputCol::Avg { sum_col, count_col });
            assert(b@.partial =~= before.partial.push("SUM("@ + arg@ + ")"@).push(
                "COUNT("@ + arg@ + ")"@,
            ));
        },
    }
    Ok(Some(index))
}

/// The header of an output column: the alias, else the column's own name, else the text.
pub open spec fn header(term: TermModel, alias: Option<Seq<char>>) -> Seq<char> {
    match alias {
        Some(a) => a,
        None => match term.node {
            NodeModel::Identifier(s) => s,
            NodeModel::Compound(parts) => if parts.len() > 0 {
                parts.last()
            } else {
                term.text
            },
            _ => term.text,
        },
    }
}

fn output_name(term: &Term, alias: &Option<String>) -> (r: String)
    ensures
        r@ == header(term.model(), text_option(*alias)),
{
    match alias {
        Some(a) => a.clone(),
        None => match &term.node {
            Node::Identifier(s) => s.clone(),
            Node::Compound(parts) => if parts.len() > 0 {
                assert(views(parts@).last() == parts@.last()@);
                parts[parts.len() - 1].clone()
            } else {
                term.text.clone()
            },
            _ => term.text.clone(),
        },
    }
}

/// What the select list of a grouped query comes to, item by item. `central` says that some item
/// needs the whole query to be run on the coordinator.
pub ghost struct Projected {
    pub build: Build,
    pub names: Seq<Seq<char>>,
    pub central: bool,
}

/// An item that is no combinable aggregate is a grouping expression, or wraps an aggregate, or
/// cannot be selected.
pub open spec fn project_plain(
    term: TermModel,
    calls: Seq<CallMentionModel>,
    groups: Seq<Seq<char>>,
    at: Projected,
) -> Result<Projected, Reason> {
    match index_from(groups, lower(term.text), 0) {
        Some(g) => Ok(
            Projected {
                build: Build { outputs: at.build.outputs.push(OutputCol::Group(g)), ..at.build },
                ..at
            },
        ),
        None => if mentions_aggregate(calls) {
            Ok(Projected { central: true, ..at })
        } else {
            Err(Reason::BareColumn)
        },
    }
}

pub open spec fn project_item(item: ItemModel, groups: Seq<Seq<char>>, at: Projected) -> Result<
    Projected,
    Reason,
> {
    match item {
        ItemModel::Wildcard => Err(Reason::GroupedWildcard),
        ItemModel::Aliases => Err(Reason::GroupedAliases),
        ItemModel::Term { term, alias, calls } => {
            let named = Projected { names: at.names.push(header(term, alias)), ..at };
            match term.node {
                NodeModel::Call(c) => if distinct_aggregate(c) {
                    Ok(Projected { central: true, ..named })
                } else {
                    match with_aggregate(c, named.build) {
                        Err(e) => Err(e),
                        Ok(Some(build)) => Ok(Projected { build, ..named }),
                        Ok(None) => project_plain(term, calls, groups, named),
                    }
                },
                _ => project_plain(term, calls, groups, named),
            }
        },
    }
}

/// What the first `n` items of the select list come to.
pub open spec fn projected(
    items: Seq<ItemModel>,
    groups: Seq<Seq<char>>,
    start: Projected,
    n: nat,
) -> Result<Projected, Reason>
    decreases n,
{
    if n == 0 || n > items.len() {
        Ok(start)
    } else {
        match projected(items, groups, start, (n - 1) as nat) {
            Err(e) => Err(e),
            Ok(at) => project_item(items[n - 1], groups, at),
        }
    }
}

proof fn lemma_projected_stops(
    items: Seq<ItemModel>,
    groups: Seq<Seq<char>>,
    start: Projected,
    n: nat,
    m: nat,
)
    requires
        n <= m <= items.len(),
        projected(items, groups, start, n) is Err,
    ensures
        projected(items, groups, start, m) == projected(items, groups, start, n),
    decreases m - n,
{
    if n < m {
        lemma_projected_stops(items, groups, start, n, (m - 1) as nat);
    }
}

struct Projection {
    build: Builder,
    names: Vec<String>,
    central: bool,
}

impl View for Projection {
    type V = Projected;

    closed spec fn view(&self) -> Projected {
        Projected { build: self.build@, names: views(self.names@), central: self.central }
    }
}

fn add_plain(term: &Term, calls: &Vec<CallMention>, groups: &Vec<String>, at: &mut Projection) -> (r:
    Result<(), Reason>)
    ensures
        match r {
            Ok(_) => project_plain(term.model(), calls_model(calls@), views(groups@), old(at)@)
                == Ok::<Projected, Reason>(final(at)@),
            Err(e) => project_plain(term.model(), calls_model(calls@), views(groups@), old(at)@)
                == Err::<Projected, Reason>(e),
        },
{
    let normal = to_lower(term.text.as_str());
    match position(groups, normal.as_str()) {
        Some(g) => {
            at.build.outputs.push(OutputCol::Group(g));
            Ok(())
        },
        None => {
            if expr_contains_aggregate(calls) {
                at.central = true;
                Ok(())
            } else {
                Err(Reason::BareColumn)
            }
        },
    }
}

fn add_item(item: &Item, groups: &Vec<String>, at: &mut Projection) -> (r: Result<(), Reason>)
    ensures
        match r {
            Ok(_) => project_item(item@, views(groups@), old(at)@) == Ok::<Projected, Reason>(
                final(at)@,
            ),
            Err(e) => project_item(item@, views(groups@), old(at)@) == Err::<Projected, Reason>(e),
        },
{
    match item {
        Item::Wildcard => Err(Reason::GroupedWildcard),
        Item::Aliases => Err(Reason::GroupedAliases),
        Item::Term { term, alias, calls } => {
            let ghost before = at@;
            let ghost names_before = at.names@;
            at.names.push(output_name(term, alias));
            proof {
                assert(at@.names =~= before.names.push(header(term.model(), text_option(*alias))));
            }
            match &term.node {
                Node::Call(c) => {
                    if is_distinct_aggregate(c) {
                        at.central = true;
                        return Ok(());
                    }
                    match push_aggregate(c, &mut at.build) {
                        Err(e) => Err(e),
                        Ok(Some(_)) => Ok(()),
                        Ok(None) => add_plain(term, calls, groups, at),
                    }
                },
                _ => add_plain(term, calls, groups, at),
            }
        },
    }
}

// ---- HAVING ------------------------------------------------------------------------------------

/// A literal as an operand. An integer that fits in 64 bits is an integer; any other number is
/// kept as a real in its own digits.
pub open spec fn literal_operand(l: LiteralModel) -> Result<OperandModel, Reason> {
    match l {
        LiteralModel::Number(n) => match signed_text(n) {
            Some(v) => if i64::MIN <= v <= i64::MAX {
                Ok(OperandModel::Literal(Datum::Integer(v as i64)))
            } else {
                Ok(OperandModel::RealText { digits: n, negative: false })
            },
            None => if float_text(n) {
                Ok(OperandModel::RealText { digits: n, negative: false })
            } else {
                Err(Reason::HavingNumber)
            },
        },
        LiteralModel::Text(s) => Ok(OperandModel::Literal(Datum::Text(s))),
        LiteralModel::Boolean(b) => Ok(
            OperandModel::Literal(
                Datum::Integer(
                    if b {
                        1
                    } else {
                        0
                    },
                ),
            ),
        ),
        LiteralModel::Null => Ok(OperandModel::Literal(Datum::Null)),
        LiteralModel::Other => Err(Reason::HavingLiteral),
    }
}

/// A literal behind a minus sign. The negation of an integer that has none in 64 bits is a real.
pub open spec fn negated_operand(l: LiteralModel) -> Result<OperandModel, Reason> {
    match literal_operand(l) {
        Err(e) => Err(e),
        Ok(OperandModel::Literal(Datum::Integer(n))) => if n == i64::MIN {
            Ok(OperandModel::RealText { digits: l->Number_0, negative: true })
        } else {
            Ok(OperandModel::Literal(Datum::Integer((-n) as i64)))
        },
        Ok(OperandModel::RealText { digits, negative }) => Ok(
            OperandModel::RealText { digits, negative: !negative },
        ),
        Ok(_) => Err(Reason::HavingOperand),
    }
}

/// A grouping expression as an operand: a further output column that holds it.
pub open spec fn group_operand(t: TermModel, groups: Seq<Seq<char>>, b: Build) -> Result<
    (OperandModel, Build),
    Reason,
> {
    match index_from(groups, lower(t.text), 0) {
        Some(g) => Ok(
            (
                OperandModel::Column(b.outputs.len() as usize),
                Build { outputs: b.outputs.push(OutputCol::Group(g)), ..b },
            ),
        ),
        None => Err(Reason::HavingColumn),
    }
}

/// One operand of a `HAVING` comparison.
pub open spec fn having_operand(t: TermModel, groups: Seq<Seq<char>>, b: Build) -> Result<
    (OperandModel, Build),
    Reason,
>
    decreases t,
{
    match t.node {
        NodeModel::Nested(inner) => having_operand(*inner, groups, b),
        NodeModel::Call(c) => match with_aggregate(c, b) {
            Err(e) => Err(e),
            Ok(Some(more)) => Ok((OperandModel::Column(b.outputs.len() as usize), more)),
            Ok(None) => group_operand(t, groups, b),
        },
        NodeModel::Literal(l) => match literal_operand(l) {
            Ok(o) => Ok((o, b)),
            Err(e) => Err(e),
        },
        NodeModel::Minus(inner) => match inner.node {
            NodeModel::Literal(l) => match negated_operand(l) {
                Ok(o) => Ok((o, b)),
                Err(e) => Err(e),
            },
            _ => group_operand(t, groups, b),
        },
        _ => group_operand(t, groups, b),
    }
}

pub open spec fn compare_op(op: BinOp) -> Option<CompareOp> {
    match op {
        BinOp::Eq => Some(CompareOp::Eq),
        BinOp::NotEq => Some(CompareOp::Ne),
        BinOp::Lt => Some(CompareOp::Lt),
        BinOp::LtEq => Some(CompareOp::Le),
        BinOp::Gt => Some(CompareOp::Gt),
        BinOp::GtEq => Some(CompareOp::Ge),
        _ => None,
    }
}

/// A `HAVING` condition as a predicate over output columns, with the columns it adds.
pub open spec fn having_predicate(t: TermModel, groups: Seq<Seq<char>>, b: Build) -> Result<
    (PredicateModel, Build),
    Reason,
>
    decreases t,
{
    match t.node {
        NodeModel::Nested(inner) => having_predicate(*inner, groups, b),
        NodeModel::Not(inner) => match having_predicate(*inner, groups, b) {
            Err(e) => Err(e),
            Ok(p) => Ok((PredicateModel::Not(Box::new(p.0)), p.1)),
        },
        NodeModel::IsNull(inner) => match having_operand(*inner, groups, b) {
            Err(e) => Err(e),
            Ok(v) => Ok((PredicateModel::IsNull { value: v.0, negated: false }, v.1)),
        },
        NodeModel::IsNotNull(inner) => match having_operand(*inner, groups, b) {
            Err(e) => Err(e),
            Ok(v) => Ok((PredicateModel::IsNull { value: v.0, negated: true }, v.1)),
        },
        NodeModel::Binary(left, op, right) => if op == BinOp::And || op == BinOp::Or {
            match having_predicate(*left, groups, b) {
                Err(e) => Err(e),
                Ok(l) => match having_predicate(*right, groups, l.1) {
                    Err(e) => Err(e),
                    Ok(r) => Ok(
                        (
                            if op == BinOp::And {
                                PredicateModel::And(Box::new(l.0), Box::new(r.0))
                            } else {
                                PredicateModel::Or(Box::new(l.0), Box::new(r.0))
                            },
                            r.1,
                        ),
                    ),
                },
            }
        } else {
            match compare_op(op) {
                None => Err(Reason::HavingOperator),
                Some(compared) => match having_operand(*left, groups, b) {
                    Err(e) => Err(e),
                    Ok(l) => match having_operand(*right, groups, l.1) {
                        Err(e) => Err(e),
                        Ok(r) => Ok(
                            (PredicateModel::Compare { left: l.0, op: compared, right: r.0 }, r.1),
                        ),
                    },
                },
            }
        },
        _ => Err(Reason::HavingForm),
    }
}

pub open spec fn operand_result(r: Result<HavingValue, Reason>) -> Result<OperandModel, Reason> {
    match r {
        Ok(v) => Ok(v@),
        Err(e) => Err(e),
    }
}

fn literal_value(l: &Literal) -> (r: Result<HavingValue, Reason>)
    ensures
        operand_result(r) == literal_operand(l@),
{
    match l {
        Literal::Number(n) => match parse_i64(n.as_str()) {
            Some(v) => Ok(HavingValue::Literal(DbValue::Integer(v))),
            None => {
                if is_signed(n.as_str()) || is_float(n.as_str()) {
                    Ok(HavingValue::RealText { digits: n.clone(), negative: false })
                } else {
                    Err(Reason::HavingNumber)
                }
            },
        },
        Literal::Text(s) => Ok(HavingValue::Literal(DbValue::Text(s.clone()))),
        Literal::Boolean(b) => Ok(
            HavingValue::Literal(
                DbValue::Integer(
                    if *b {
                        1
                    } else {
                        0
                    },
                ),
            ),
        ),
        Literal::Null => Ok(HavingValue::Literal(DbValue::Null)),
        Literal::Other => Err(Reason::HavingLiteral),
    }
}

fn negated_value(l: &Literal) -> (r: Result<HavingValue, Reason>)
    ensures
        operand_result(r) == negated_operand(l@),
{
    match literal_value(l) {
        Err(e) => Err(e),
        Ok(HavingValue::Literal(DbValue::Integer(n))) => {
            if n == i64::MIN {
                match l {
                    Literal::Number(digits) => Ok(
                        HavingValue::RealText { digits: digits.clone(), negative: true },
                    ),
                    _ => Err(Reason::HavingOperand),
                }
            } else {
                Ok(HavingValue::Literal(DbValue::Integer(-n)))
            }
        },
        Ok(HavingValue::RealText { digits, negative }) => Ok(
            HavingValue::RealText { digits, negative: !negative },
        ),
        Ok(_) => Err(Reason::HavingOperand),
    }
}

fn group_column_value(t: &Term, groups: &Vec<String>, b: &mut Builder) -> (r: Result<
    HavingValue,
    Reason,
>)
    ensures
        match r {
            Ok(v) => group_operand(t.model(), views(groups@), old(b)@) == Ok::<
                (OperandModel, Build),
                Reason,
            >((v@, final(b)@)),
            Err(e) => group_operand(t.model(), views(groups@), old(b)@) == Err::<
                (OperandModel, Build),
                Reason,
            >(e),
        },
{
    let normal = to_lower(t.text.as_str());
    match position(groups, normal.as_str()) {
        Some(g) => {
            let index: usize = b.outputs.len();
            b.outputs.push(OutputCol::Group(g));
            Ok(HavingValue::Column(index))
        },
        None => Err(Reason::HavingColumn),
    }
}

fn build_having_value(t: &Term, groups: &Vec<String>, b: &mut Builder) -> (r: Result<
    HavingValue,
    Reason,
>)
    ensures
        match r {
            Ok(v) => having_operand(t.model(), views(groups@), old(b)@) == Ok::<
                (OperandModel, Build),
                Reason,
            >((v@, final(b)@)),
            Err(e) => having_operand(t.model(), views(groups@), old(b)@) == Err::<
                (OperandModel, Build),
                Reason,
            >(e),
        },
    decreases t,
{
    match &t.node {
        Node::Nested(inner) => build_having_value(inner, groups, b),
        Node::Call(c) => match push_aggregate(c, b) {
            Err(e) => Err(e),
            Ok(Some(index)) => Ok(HavingValue::Column(index)),
            Ok(None) => group_column_value(t, groups, b),
        },
        Node::Literal(l) => literal_value(l),
        Node::Minus(inner) => {
            assert(inner.model().node == inner.node.model());
            match &inner.node {
                Node::Literal(l) => negated_value(l),
                _ => group_column_value(t, groups, b),
            }
        },
        _ => group_column_value(t, groups, b),
    }
}

fn build_having(t: &Term, groups: &Vec<String>, b: &mut Builder) -> (r: Result<HavingExpr, Reason>)
    ensures
        match r {
            Ok(p) => having_predicate(t.model(), views(groups@), old(b)@) == Ok::<
                (PredicateModel, Build),
                Reason,
            >((p.model(), final(b)@)),
            Err(e) => having_predicate(t.model(), views(groups@), old(b)@) == Err::<
                (PredicateModel, Build),
                Reason,
            >(e),
        },
    decreases t,
{
    match &t.node {
        Node::Nested(inner) => build_having(inner, groups, b),
        Node::Not(inner) => match build_having(inner, groups, b) {
            Err(e) => Err(e),
            Ok(p) => Ok(HavingExpr::Not(Box::new(p))),
        },
        Node::IsNull(inner) => match build_having_value(inner, groups, b) {
            Err(e) => Err(e),
            Ok(value) => Ok(HavingExpr::IsNull { value, negated: false }),
        },
        Node::IsNotNull(inner) => match build_having_value(inner, groups, b) {
            Err(e) => Err(e),
            Ok(value) => Ok(HavingExpr::IsNull { value, negated: true }),
        },
        Node::Binary(left, op, right) => {
            let compared = match op {
                BinOp::And => {
                    let l = match build_having(left, groups, b) {
                        Err(e) => {
                            return Err(e);
                        },
                        Ok(l) => l,
                    };
                    return match build_having(right, groups, b) {
                        Err(e) => Err(e),
                        Ok(r) => Ok(HavingExpr::And(Box::new(l), Box::new(r))),
                    };
                },
                BinOp::Or => {
                    let l = match build_having(left, groups, b) {
                        Err(e) => {
                            return Err(e);
                        },
                        Ok(l) => l,
                    };
                    return match build_having(right, groups, b) {
                        Err(e) => Err(e),
                        Ok(r) => Ok(HavingExpr::Or(Box::new(l), Box::new(r))),
                    };
                },
                BinOp::Eq => CompareOp::Eq,
                BinOp::NotEq => CompareOp::Ne,
                BinOp::Lt => CompareOp::Lt,
                BinOp::LtEq => CompareOp::Le,
                BinOp::Gt => CompareOp::Gt,
                BinOp::GtEq => CompareOp::Ge,
                BinOp::Other => {
                    return Err(Reason::HavingOperator);
                },
            };
            let l = match build_having_value(left, groups, b) {
                Err(e) => {
                    return Err(e);
                },
                Ok(l) => l,
            };
            match build_having_value(right, groups, b) {
                Err(e) => Err(e),
                Ok(r) => Ok(HavingExpr::Compare { left: l, op: compared, right: r }),
            }
        },
        _ => Err(Reason::HavingForm),
    }
}


// ---- GROUP BY ----------------------------------------------------------------------------------

pub open spec fn term_texts(terms: Seq<TermModel>) -> Seq<Seq<char>> {
    terms.map_values(|t: TermModel| t.text)
}

pub open spec fn lowered(texts: Seq<Seq<char>>) -> Seq<Seq<char>> {
    texts.map_values(|t: Seq<char>| lower(t))
}

pub open spec fn group_clause(group_sql: Seq<Seq<char>>) -> Seq<char> {
    if group_sql.len() == 0 {
        Seq::empty()
    } else {
        " GROUP BY "@ + join_with(group_sql, ", "@)
    }
}

/// What each shard runs for a grouped query: its partial groups, without `HAVING`, `ORDER BY` and
/// `LIMIT`, which are the coordinator's.
pub open spec fn partial_sql(
    partial: Seq<Seq<char>>,
    from: Seq<char>,
    selection: Option<TermModel>,
    group_sql: Seq<Seq<char>>,
) -> Seq<char> {
    "SELECT "@ + join_with(partial, ", "@) + " FROM "@ + from + where_clause(selection)
        + group_clause(group_sql)
}

/// The `HAVING` predicate, if there is one, and the build with the columns it adds.
pub open spec fn having_build(
    having: Option<HavingModel>,
    groups: Seq<Seq<char>>,
    b: Build,
) -> Result<(Option<PredicateModel>, Build), Reason> {
    match having {
        None => Ok((None, b)),
        Some(h) => match having_predicate(h.term, groups, b) {
            Err(e) => Err(e),
            Ok(p) => Ok((Some(p.0), p.1)),
        },
    }
}

/// What the select list is folded from: the grouping columns alone.
pub open spec fn grouping_start(group_sql: Seq<Seq<char>>) -> Projected {
    Projected {
        build: Build { partial: group_sql, outputs: Seq::empty() },
        names: Seq::empty(),
        central: false,
    }
}

/// A grouped query. Without grouping terms it is one group over the whole table.
pub open spec fn grouped_plan(
    query: QueryModel,
    select: SelectModel,
    terms: Seq<TermModel>,
    modified: bool,
    keys: Map<Seq<char>, Seq<char>>,
    own_sql: Seq<char>,
    central_sql: Seq<char>,
) -> Result<PlanModel, Reason> {
    let group_sql = term_texts(terms);
    let groups = lowered(group_sql);
    if modified {
        Err(Reason::GroupModifiers)
    } else if join_refusal(select.from, keys) is Some {
        Err(join_refusal(select.from, keys)->0)
    } else if select.from.len() == 0 {
        Err(Reason::GroupedNoFrom)
    } else {
        match projected(
            select.projection,
            groups,
            grouping_start(group_sql),
            select.projection.len(),
        ) {
            Err(e) => Err(e),
            Ok(p) => if p.central || (select.having is Some && mentions_distinct_aggregate(
                select.having->0.calls,
            )) {
                central_grouped_plan(query, select, own_sql, central_sql)
            } else {
                match having_build(select.having, groups, p.build) {
                    Err(e) => Err(e),
                    Ok(h) => match window(query.limit) {
                        Err(e) => Err(e),
                        Ok(w) => match sort_keys(query.order_by, select.projection) {
                            Err(e) => Err(e),
                            Ok(order_by) => Ok(
                                PlanModel::Grouped(
                                    GroupedModel {
                                        shard_sql: partial_sql(
                                            h.1.partial,
                                            select.from[0].text,
                                            select.selection,
                                            group_sql,
                                        ),
                                        group_cols: Seq::new(terms.len(), |i: int| i as usize),
                                        outputs: h.1.outputs,
                                        visible_count: p.build.outputs.len() as usize,
                                        having: h.0,
                                        output_names: p.names,
                                        order_by,
                                        offset: w.1,
                                        limit: w.0,
                                    },
                                ),
                            ),
                        },
                    },
                }
            },
        }
    }
}

fn texts_of(terms: &Vec<Term>) -> (r: Vec<String>)
    ensures
        views(r@) == term_texts(terms_model(terms@)),
{
    let ghost model = term_texts(terms_model(terms@));
    let mut out: Vec<String> = Vec::new();
    let mut i: usize = 0;
    assert(views(out@) =~= model.take(0));
    while i < terms.len()
        invariant
            i <= terms@.len(),
            model == term_texts(terms_model(terms@)),
            views(out@) == model.take(i as int),
        decreases terms@.len() - i,
    {
        let ghost before = out@;
        out.push(terms[i].text.clone());
        proof {
            assert(views(out@) =~= views(before).push(terms@[i as int].text@));
            assert(model.take(i as int + 1) =~= model.take(i as int).push(model[i as int]));
        }
        i = i + 1;
    }
    assert(model.take(terms@.len() as int) =~= model);
    out
}

fn lower_all(texts: &Vec<String>) -> (r: Vec<String>)
    ensures
        views(r@) == lowered(views(texts@)),
{
    let ghost model = lowered(views(texts@));
    let mut out: Vec<String> = Vec::new();
    let mut i: usize = 0;
    assert(views(out@) =~= model.take(0));
    while i < texts.len()
        invariant
            i <= texts@.len(),
            model == lowered(views(texts@)),
            views(out@) == model.take(i as int),
        decreases texts@.len() - i,
    {
        let ghost before = out@;
        out.push(to_lower(texts[i].as_str()));
        proof {
            assert(views(out@) =~= views(before).push(lower(texts@[i as int]@)));
            assert(model.take(i as int + 1) =~= model.take(i as int).push(model[i as int]));
        }
        i = i + 1;
    }
    assert(model.take(texts@.len() as int) =~= model);
    out
}

fn counting_to(n: usize) -> (r: Vec<usize>)
    ensures
        r@ == Seq::new(n as nat, |i: int| i as usize),
{
    let mut out: Vec<usize> = Vec::new();
    let mut i: usize = 0;
    while i < n
        invariant
            i <= n,
            out@.len() == i,
            forall|k: int| 0 <= k < i ==> out@[k] == k,
        decreases n - i,
    {
        out.push(i);
        i = i + 1;
    }
    assert(out@ =~= Seq::new(n as nat, |i: int| i as usize));
    out
}

/// The query each shard runs for a grouped query.
fn partial_query(
    partial: &Vec<String>,
    from: &str,
    selection: &Option<Term>,
    group_sql: &Vec<String>,
) -> (r: String)
    ensures
        r@ == partial_sql(views(partial@), from@, term_option(*selection), views(group_sql@)),
{
    let mut sql = "SELECT ".to_owned();
    let columns = join(partial, ", ");
    sql.append(columns.as_str());
    sql.append(" FROM ");
    sql.append(from);
    push_where(&mut sql, selection);
    assert(views(group_sql@).len() == group_sql@.len());
    if group_sql.len() > 0 {
        let list = join(group_sql, ", ");
        sql.append(" GROUP BY ");
        sql.append(list.as_str());
    }
    assert(sql@ =~= partial_sql(
        views(partial@),
        from@,
        term_option(*selection),
        views(group_sql@),
    ));
    sql
}

/// Fold the select list of a grouped query, item by item.
#[verifier::loop_isolation(false)]
fn project_all(items: &Vec<Item>, groups: &Vec<String>, group_sql: &Vec<String>) -> (r: Result<
    Projection,
    Reason,
>)
    ensures
        match r {
            Ok(p) => projected(
                items_model(items@),
                views(groups@),
                grouping_start(views(group_sql@)),
                items@.len(),
            ) == Ok::<Projected, Reason>(p@),
            Err(e) => projected(
                items_model(items@),
                views(groups@),
                grouping_start(views(group_sql@)),
                items@.len(),
            ) == Err::<Projected, Reason>(e),
        },
{
    let ghost model = items_model(items@);
    let ghost start = grouping_start(views(group_sql@));
    let mut at = Projection {
        build: Builder {
            partial: crate::storage::exec::copy_strings(group_sql),
            outputs: Vec::new(),
        },
        names: Vec::new(),
        central: false,
    };
    assert(at@.names =~= Seq::empty());
    assert(at@.build.outputs =~= Seq::empty());
    assert(at@ == start);
    let mut i: usize = 0;
    while i < items.len()
        invariant
            i <= items@.len(),
            projected(model, views(groups@), start, i as nat) == Ok::<Projected, Reason>(at@),
        decreases items@.len() - i,
    {
        assert(model[i as int] == items@[i as int]@);
        match add_item(&items[i], groups, &mut at) {
            Ok(_) => {},
            Err(e) => {
                proof {
                    lemma_projected_stops(model, views(groups@), start, (i + 1) as nat, model.len());
                }
                return Err(e);
            },
        }
        i = i + 1;
    }
    Ok(at)
}

/// Plan a `GROUP BY` as two-phase aggregation.
fn plan_grouped(
    query: &QueryTree,
    select: &SelectTree,
    terms: &Vec<Term>,
    modified: bool,
    keys: &ShardKeys,
    own_sql: &String,
    central_sql: &String,
) -> (r: Result<Plan, Reason>)
    ensures
        plan_result(r) == grouped_plan(
            query@,
            select@,
            terms_model(terms@),
            modified,
            keys@,
            own_sql@,
            central_sql@,
        ),
{
    if modified {
        return Err(Reason::GroupModifiers);
    }
    if let Err(e) = check_join(select, keys) {
        return Err(e);
    }
    if select.from.len() == 0 {
        return Err(Reason::GroupedNoFrom);
    }
    assert(select@.from[0] == select.from@[0]@);
    let group_sql = texts_of(terms);
    let groups = lower_all(&group_sql);
    let mut at = match project_all(&select.projection, &groups, &group_sql) {
        Ok(at) => at,
        Err(e) => {
            return Err(e);
        },
    };
    assert(select@.projection.len() == select.projection@.len());
    let central = at.central || match &select.having {
        Some(h) => expr_has_distinct_aggregate(&h.calls),
        None => false,
    };
    if central {
        return plan_central_grouped(query, select, own_sql, central_sql);
    }
    let visible_count: usize = at.build.outputs.len();
    let having: Option<HavingExpr> = match &select.having {
        None => None,
        Some(h) => match build_having(&h.term, &groups, &mut at.build) {
            Ok(p) => Some(p),
            Err(e) => {
                return Err(e);
            },
        },
    };
    let (limit, offset) = match limit_and_offset(query) {
        Ok(w) => w,
        Err(e) => {
            return Err(e);
        },
    };
    let order_by = match resolve_sort_keys(&query.order_by, &select.projection) {
        Ok(k) => k,
        Err(e) => {
            return Err(e);
        },
    };
    let shard_sql = partial_query(
        &at.build.partial,
        select.from[0].text.as_str(),
        &select.selection,
        &group_sql,
    );
    let group_cols = counting_to(terms.len());
    assert(terms_model(terms@).len() == terms@.len());
    Ok(
        Plan::Grouped(
            Box::new(
                Grouped {
                    shard_sql,
                    group_cols,
                    outputs: at.build.outputs,
                    visible_count,
                    having,
                    output_names: at.names,
                    order_by,
                    offset,
                    limit,
                },
            ),
        ),
    )
}

// ---- queries without GROUP BY ------------------------------------------------------------------

/// Whether one of the first `n` items is an aggregate, or the refusal of the first that is one
/// that cannot be combined.
pub open spec fn any_aggregate(items: Seq<ItemModel>, n: nat) -> Result<bool, Reason>
    decreases n,
{
    if n == 0 || n > items.len() {
        Ok(false)
    } else {
        match any_aggregate(items, (n - 1) as nat) {
            Err(e) => Err(e),
            Ok(found) => match items[n - 1] {
                ItemModel::Term { term, .. } => match term.node {
                    NodeModel::Call(c) => match aggregate_choice(c) {
                        Err(e) => Err(e),
                        Ok(choice) => Ok(found || choice is Some),
                    },
                    _ => Ok(found),
                },
                _ => Ok(found),
            },
        }
    }
}

proof fn lemma_any_aggregate_stops(items: Seq<ItemModel>, n: nat, m: nat)
    requires
        n <= m <= items.len(),
        any_aggregate(items, n) is Err,
    ensures
        any_aggregate(items, m) == any_aggregate(items, n),
    decreases m - n,
{
    if n < m {
        lemma_any_aggregate_stops(items, n, (m - 1) as nat);
    }
}

#[verifier::loop_isolation(false)]
fn has_aggregate(items: &Vec<Item>) -> (r: Result<bool, Reason>)
    ensures
        r == any_aggregate(items_model(items@), items@.len()),
{
    let ghost model = items_model(items@);
    let mut found = false;
    let mut i: usize = 0;
    while i < items.len()
        invariant
            i <= items@.len(),
            any_aggregate(model, i as nat) == Ok::<bool, Reason>(found),
        decreases items@.len() - i,
    {
        assert(model[i as int] == items@[i as int]@);
        match &items[i] {
            Item::Term { term, .. } => match &term.node {
                Node::Call(c) => match classify_aggregate(c) {
                    Err(e) => {
                        proof {
                            lemma_any_aggregate_stops(model, (i + 1) as nat, model.len());
                        }
                        return Err(e);
                    },
                    Ok(choice) => {
                        if choice.is_some() {
                            found = true;
                        }
                    },
                },
                _ => {},
            },
            _ => {},
        }
        i = i + 1;
    }
    Ok(found)
}

/// Whether a query takes the fast path of one combined value: a single associative aggregate, not
/// over `DISTINCT` values, with neither `ORDER BY` nor `LIMIT`.
pub open spec fn lone_aggregate(query: QueryModel, select: SelectModel) -> Option<Combine> {
    if select.projection.len() == 1 && query.order_by is None && query.limit is None
        && !item_distinct(select.projection[0]) {
        match item_aggregate(select.projection[0]) {
            Ok(Some(combine)) => Some(combine),
            _ => None,
        }
    } else {
        None
    }
}

/// An aggregate without `GROUP BY`: `None` where the select list has none.
pub open spec fn bare_plan(
    query: QueryModel,
    select: SelectModel,
    keys: Map<Seq<char>, Seq<char>>,
    own_sql: Seq<char>,
    central_sql: Seq<char>,
) -> Result<Option<PlanModel>, Reason> {
    match any_aggregate(select.projection, select.projection.len()) {
        Err(e) => Err(e),
        Ok(false) => Ok(None),
        Ok(true) => match lone_aggregate(query, select) {
            Some(combine) => Ok(Some(PlanModel::Aggregate { combine })),
            None => match grouped_plan(
                query,
                select,
                Seq::empty(),
                false,
                keys,
                own_sql,
                central_sql,
            ) {
                Err(e) => Err(e),
                Ok(p) => Ok(Some(p)),
            },
        },
    }
}

fn plan_bare_aggregate(
    query: &QueryTree,
    select: &SelectTree,
    keys: &ShardKeys,
    own_sql: &String,
    central_sql: &String,
) -> (r: Result<Option<Plan>, Reason>)
    ensures
        match r {
            Ok(Some(p)) => bare_plan(query@, select@, keys@, own_sql@, central_sql@) == Ok::<
                Option<PlanModel>,
                Reason,
            >(Some(p@)),
            Ok(None) => bare_plan(query@, select@, keys@, own_sql@, central_sql@) == Ok::<
                Option<PlanModel>,
                Reason,
            >(None),
            Err(e) => bare_plan(query@, select@, keys@, own_sql@, central_sql@) == Err::<
                Option<PlanModel>,
                Reason,
            >(e),
        },
{
    assert(select@.projection.len() == select.projection@.len());
    match has_aggregate(&select.projection) {
        Err(e) => {
            return Err(e);
        },
        Ok(found) => {
            if !found {
                return Ok(None);
            }
        },
    }
    if select.projection.len() == 1 && query.order_by.is_none() && query.limit.is_none() {
        assert(select@.projection[0] == select.projection@[0]@);
        if !item_is_distinct_aggregate(&select.projection[0]) {
            if let Ok(Some(combine)) = aggregate_of(&select.projection[0]) {
                return Ok(Some(Plan::Aggregate { combine }));
            }
        }
    }
    let none: Vec<Term> = Vec::new();
    assert(terms_model(none@) =~= Seq::empty());
    match plan_grouped(query, select, &none, false, keys, own_sql, central_sql) {
        Ok(p) => Ok(Some(p)),
        Err(e) => Err(e),
    }
}

/// The query for one shard: without its own `LIMIT`, and with `limit` in its place.
pub open spec fn limited_sql(unlimited: Seq<char>, limit: Option<nat>) -> Seq<char> {
    match limit {
        Some(n) => unlimited + " LIMIT "@ + decimal(n),
        None => unlimited,
    }
}

/// The rows each shard must ship so that `offset` can be skipped and `limit` kept.
pub open spec fn widened(limit: Option<usize>, offset: usize) -> Option<nat> {
    match limit {
        Some(n) => Some((n + offset) as nat),
        None => None,
    }
}

fn shard_sql_with_limit(query: &QueryTree, limit: Option<usize>, offset: usize) -> (r: String)
    ensures
        r@ == limited_sql(query@.unlimited, widened(limit, offset)),
{
    let mut sql = query.unlimited.clone();
    match limit {
        Some(n) => {
            sql.append(" LIMIT ");
            push_decimal_wide(&mut sql, n as u128 + offset as u128);
            sql
        },
        None => sql,
    }
}

/// A query whose rows are concatenated, merged, combined or grouped: everything but `DISTINCT`.
pub open spec fn rows_plan(
    query: QueryModel,
    select: SelectModel,
    keys: Map<Seq<char>, Seq<char>>,
    own_sql: Seq<char>,
    central_sql: Seq<char>,
) -> Result<PlanModel, Reason> {
    match select.group_by {
        GroupByModel::All => Err(Reason::GroupByAll),
        GroupByModel::Terms { terms, modified } => if terms.len() > 0 {
            grouped_plan(query, select, terms, modified, keys, own_sql, central_sql)
        } else if select.having is Some {
            Err(Reason::HavingAlone)
        } else {
            match bare_plan(query, select, keys, own_sql, central_sql) {
                Err(e) => Err(e),
                Ok(Some(p)) => Ok(p),
                Ok(None) => match window(query.limit) {
                    Err(e) => Err(e),
                    Ok(w) => match sort_keys(query.order_by, select.projection) {
                        Err(e) => Err(e),
                        Ok(order_by) => if w.1 > 0 {
                            Ok(
                                PlanModel::PostProcess(
                                    PostProcessModel {
                                        shard_sql: limited_sql(query.unlimited, widened(w.0, w.1)),
                                        distinct: false,
                                        order_by,
                                        offset: w.1,
                                        limit: w.0,
                                    },
                                ),
                            )
                        } else if order_by.len() == 0 {
                            Ok(PlanModel::Concat { limit: w.0 })
                        } else {
                            Ok(PlanModel::Merge { keys: order_by, limit: w.0 })
                        },
                    },
                },
            }
        },
    }
}

fn plan_rows(
    query: &QueryTree,
    select: &SelectTree,
    keys: &ShardKeys,
    own_sql: &String,
    central_sql: &String,
) -> (r: Result<Plan, Reason>)
    ensures
        plan_result(r) == rows_plan(query@, select@, keys@, own_sql@, central_sql@),
{
    match &select.group_by {
        GroupBy::All => {
            return Err(Reason::GroupByAll);
        },
        GroupBy::Terms { terms, modified } => {
            assert(terms_model(terms@).len() == terms@.len());
            if terms.len() > 0 {
                return plan_grouped(query, select, terms, *modified, keys, own_sql, central_sql);
            }
        },
    }
    if select.having.is_some() {
        return Err(Reason::HavingAlone);
    }
    match plan_bare_aggregate(query, select, keys, own_sql, central_sql) {
        Err(e) => {
            return Err(e);
        },
        Ok(Some(p)) => {
            return Ok(p);
        },
        Ok(None) => {},
    }
    let (limit, offset) = match limit_and_offset(query) {
        Ok(w) => w,
        Err(e) => {
            return Err(e);
        },
    };
    let order_by = match resolve_sort_keys(&query.order_by, &select.projection) {
        Ok(k) => k,
        Err(e) => {
            return Err(e);
        },
    };
    if offset > 0 {
        let shard_sql = shard_sql_with_limit(query, limit, offset);
        return Ok(
            Plan::PostProcess(
                Box::new(PostProcess { shard_sql, distinct: false, order_by, offset, limit }),
            ),
        );
    }
    if order_by.len() == 0 {
        Ok(Plan::Concat { limit })
    } else {
        Ok(Plan::Merge { keys: order_by, limit })
    }
}

// ---- DISTINCT ----------------------------------------------------------------------------------

/// Whether one of the items is an aggregate of any kind.
pub open spec fn selects_aggregate(items: Seq<ItemModel>) -> bool {
    exists|i: int| 0 <= i < items.len() && item_aggregate(#[trigger] items[i]) != Ok::<
        Option<Combine>,
        Reason,
    >(None)
}

fn any_item_aggregate(items: &Vec<Item>) -> (r: bool)
    ensures
        r == selects_aggregate(items_model(items@)),
{
    let ghost model = items_model(items@);
    let mut i: usize = 0;
    while i < items.len()
        invariant
            i <= items@.len(),
            model == items_model(items@),
            forall|k: int| 0 <= k < i ==> item_aggregate(#[trigger] model[k]) == Ok::<
                Option<Combine>,
                Reason,
            >(None),
        decreases items@.len() - i,
    {
        assert(model[i as int] == items@[i as int]@);
        match aggregate_of(&items[i]) {
            Ok(None) => {},
            _ => {
                return true;
            },
        }
        i = i + 1;
    }
    false
}

/// Why a select does not produce plain rows: it groups, filters groups, joins across shards, or
/// aggregates.
pub open spec fn plain_refusal(select: SelectModel, keys: Map<Seq<char>, Seq<char>>) -> Option<
    Reason,
> {
    if !(select.group_by matches GroupByModel::Terms { terms, .. } && terms.len() == 0) {
        Some(Reason::GroupedDistinct)
    } else if select.having is Some {
        Some(Reason::HavingHere)
    } else if join_refusal(select.from, keys) is Some {
        join_refusal(select.from, keys)
    } else if selects_aggregate(select.projection) {
        Some(Reason::AggregateDistinct)
    } else {
        None
    }
}

fn require_plain_select(select: &SelectTree, keys: &ShardKeys) -> (r: Result<(), Reason>)
    ensures
        plain_refusal(select@, keys@) == (match r {
            Ok(_) => None,
            Err(e) => Some(e),
        }),
{
    match &select.group_by {
        GroupBy::Terms { terms, .. } => {
            assert(terms_model(terms@).len() == terms@.len());
            if terms.len() > 0 {
                return Err(Reason::GroupedDistinct);
            }
        },
        GroupBy::All => {
            return Err(Reason::GroupedDistinct);
        },
    }
    if select.having.is_some() {
        return Err(Reason::HavingHere);
    }
    if let Err(e) = check_join(select, keys) {
        return Err(e);
    }
    if any_item_aggregate(&select.projection) {
        return Err(Reason::AggregateDistinct);
    }
    Ok(())
}

/// A `SELECT DISTINCT`. Over aggregates it is redundant, and the query is planned without it. A
/// limit is pushed to the shards only where the rows are ordered, so that each shard's first rows
/// hold the first rows of the whole.
pub open spec fn distinct_plan(
    query: QueryModel,
    select: SelectModel,
    keys: Map<Seq<char>, Seq<char>>,
) -> Result<PlanModel, Reason> {
    if select.distinct == DistinctKind::On {
        Err(Reason::DistinctOn)
    } else if selects_aggregate(select.projection) {
        rows_plan(query, select, keys, query.plain, query.plain)
    } else {
        match plain_refusal(select, keys) {
            Some(e) => Err(e),
            None => match window(query.limit) {
                Err(e) => Err(e),
                Ok(w) => match sort_keys(query.order_by, select.projection) {
                    Err(e) => Err(e),
                    Ok(order_by) => Ok(
                        PlanModel::PostProcess(
                            PostProcessModel {
                                shard_sql: limited_sql(
                                    query.unlimited,
                                    if order_by.len() == 0 {
                                        None
                                    } else {
                                        widened(w.0, w.1)
                                    },
                                ),
                                distinct: true,
                                order_by,
                                offset: w.1,
                                limit: w.0,
                            },
                        ),
                    ),
                },
            },
        }
    }
}

fn plan_distinct(query: &QueryTree, select: &SelectTree, keys: &ShardKeys) -> (r: Result<Plan, Reason>)
    ensures
        plan_result(r) == distinct_plan(query@, select@, keys@),
{
    if select.distinct == DistinctKind::On {
        return Err(Reason::DistinctOn);
    }
    if any_item_aggregate(&select.projection) {
        return plan_rows(query, select, keys, &query.plain, &query.plain);
    }
    if let Err(e) = require_plain_select(select, keys) {
        return Err(e);
    }
    let (limit, offset) = match limit_and_offset(query) {
        Ok(w) => w,
        Err(e) => {
            return Err(e);
        },
    };
    let order_by = match resolve_sort_keys(&query.order_by, &select.projection) {
        Ok(k) => k,
        Err(e) => {
            return Err(e);
        },
    };
    let push: Option<usize> = if order_by.len() == 0 {
        None
    } else {
        limit
    };
    let shard_sql = shard_sql_with_limit(query, push, offset);
    Ok(
        Plan::PostProcess(
            Box::new(PostProcess { shard_sql, distinct: true, order_by, offset, limit }),
        ),
    )
}

// ---- set operations ----------------------------------------------------------------------------

/// The leaves of a set operation, left to right.
pub open spec fn leaves(body: BodyModel) -> Seq<SelectModel>
    decreases body,
{
    match body {
        BodyModel::Select(s) => seq![*s],
        BodyModel::Operation { left, right, .. } => leaves(*left) + leaves(*right),
        BodyModel::Other => Seq::empty(),
    }
}

/// The tree over the leaves of a body, the first of which has the index `start`.
pub open spec fn set_tree(body: BodyModel, start: nat) -> Result<SetTree, Reason>
    decreases body,
{
    match body {
        BodyModel::Select(_) => Ok(SetTree::Leaf(start as usize)),
        BodyModel::Operation { op, quantifier, left, right } => if quantifier
            == Quantifier::ByName {
            Err(Reason::ByName)
        } else {
            match set_tree(*left, start) {
                Err(e) => Err(e),
                Ok(l) => match set_tree(*right, start + leaves(*left).len()) {
                    Err(e) => Err(e),
                    Ok(r) => Ok(
                        SetTree::Op {
                            op,
                            all: quantifier == Quantifier::All,
                            left: Box::new(l),
                            right: Box::new(r),
                        },
                    ),
                },
            }
        },
        BodyModel::Other => Err(Reason::SetBranch),
    }
}

pub open spec fn select_texts(selects: Seq<SelectModel>) -> Seq<Seq<char>> {
    selects.map_values(|s: SelectModel| s.text)
}

/// A set operation: every leaf a query of its own, and the tree that combines them. An `ORDER BY`
/// speaks of the columns of the first leaf.
pub open spec fn set_plan(query: QueryModel) -> Result<PlanModel, Reason> {
    let all = leaves(query.body);
    match set_tree(query.body, 0) {
        Err(e) => Err(e),
        Ok(tree) => if all.len() == 0 {
            Err(Reason::EmptySetOperation)
        } else {
            match window(query.limit) {
                Err(e) => Err(e),
                Ok(w) => match sort_keys(query.order_by, all[0].projection) {
                    Err(e) => Err(e),
                    Ok(order_by) => Ok(
                        PlanModel::SetOp(
                            SetOpModel {
                                branches: select_texts(all),
                                tree,
                                order_by,
                                offset: w.1,
                                limit: w.0,
                            },
                        ),
                    ),
                },
            }
        },
    }
}

pub open spec fn select_list(list: Seq<&SelectTree>) -> Seq<SelectModel> {
    list.map_values(|s: &SelectTree| s@)
}

fn build_set_tree<'a>(body: &'a Body, found: &mut Vec<&'a SelectTree>) -> (r: Result<SetTree, Reason>)
    ensures
        match r {
            Ok(tree) => set_tree(body.model(), old(found)@.len()) == Ok::<SetTree, Reason>(tree)
                && select_list(final(found)@) == select_list(old(found)@) + leaves(body.model()),
            Err(e) => set_tree(body.model(), old(found)@.len()) == Err::<SetTree, Reason>(e),
        },
    decreases body,
{
    match body {
        Body::Select(s) => {
            let index: usize = found.len();
            found.push(s);
            assert(select_list(found@) =~= select_list(old(found)@) + leaves(body.model()));
            Ok(SetTree::Leaf(index))
        },
        Body::Operation { op, quantifier, left, right } => {
            if *quantifier == Quantifier::ByName {
                return Err(Reason::ByName);
            }
            let all = *quantifier == Quantifier::All;
            let l = match build_set_tree(left, found) {
                Ok(l) => l,
                Err(e) => {
                    return Err(e);
                },
            };
            assert(found@.len() == select_list(found@).len());
            assert(old(found)@.len() == select_list(old(found)@).len());
            let r = match build_set_tree(right, found) {
                Ok(r) => r,
                Err(e) => {
                    return Err(e);
                },
            };
            assert(select_list(found@) =~= select_list(old(found)@) + leaves(body.model()));
            Ok(SetTree::Op { op: *op, all, left: Box::new(l), right: Box::new(r) })
        },
        Body::Other => Err(Reason::SetBranch),
    }
}

fn branch_texts(selects: &Vec<&SelectTree>) -> (r: Vec<String>)
    ensures
        views(r@) == select_texts(select_list(selects@)),
{
    let ghost model = select_texts(select_list(selects@));
    let mut out: Vec<String> = Vec::new();
    let mut i: usize = 0;
    assert(views(out@) =~= model.take(0));
    while i < selects.len()
        invariant
            i <= selects@.len(),
            model == select_texts(select_list(selects@)),
            views(out@) == model.take(i as int),
        decreases selects@.len() - i,
    {
        let ghost before = out@;
        out.push(selects[i].text.clone());
        proof {
            assert(views(out@) =~= views(before).push(selects@[i as int].text@));
            assert(model.take(i as int + 1) =~= model.take(i as int).push(model[i as int]));
        }
        i = i + 1;
    }
    assert(model.take(selects@.len() as int) =~= model);
    out
}

fn plan_set_op(query: &QueryTree) -> (r: Result<Plan, Reason>)
    ensures
        plan_result(r) == set_plan(query@),
{
    let mut found: Vec<&SelectTree> = Vec::new();
    let tree = match build_set_tree(&query.body, &mut found) {
        Ok(t) => t,
        Err(e) => {
            return Err(e);
        },
    };
    proof {
        assert(select_list(found@) =~= leaves(query.body.model()));
    }
    if found.len() == 0 {
        return Err(Reason::EmptySetOperation);
    }
    assert(select_list(found@)[0] == found@[0]@);
    let (limit, offset) = match limit_and_offset(query) {
        Ok(w) => w,
        Err(e) => {
            return Err(e);
        },
    };
    let order_by = match resolve_sort_keys(&query.order_by, &found[0].projection) {
        Ok(k) => k,
        Err(e) => {
            return Err(e);
        },
    };
    let branches = branch_texts(&found);
    Ok(Plan::SetOp(Box::new(SetOp { branches, tree, order_by, offset, limit })))
}

// ---- the whole query ---------------------------------------------------------------------------

pub open spec fn has_quantified(mentions: Seq<MentionModel>) -> bool {
    exists|i: int| 0 <= i < mentions.len() && (#[trigger] mentions[i]) is Quantified
}

pub open spec fn has_subquery(mentions: Seq<MentionModel>) -> bool {
    exists|i: int| 0 <= i < mentions.len() && (#[trigger] mentions[i]) is Subquery
}

/// How a query is run across shards, or why it is refused.
pub open spec fn query_plan(query: QueryModel, keys: Map<Seq<char>, Seq<char>>) -> Result<
    PlanModel,
    Reason,
> {
    if query.with {
        Err(Reason::Cte)
    } else if query.fetch {
        Err(Reason::Fetch)
    } else if has_quantified(query.mentions) {
        Err(Reason::QuantifiedSubquery)
    } else if has_subquery(query.mentions) {
        Ok(PlanModel::Subqueries)
    } else {
        match query.body {
            BodyModel::Other => Err(Reason::QueryForm),
            BodyModel::Operation { .. } => set_plan(query),
            BodyModel::Select(select) => if join_refusal(select.from, keys) is Some {
                central_plan(*select, query.central)
            } else if select.distinct != DistinctKind::Absent {
                distinct_plan(query, *select, keys)
            } else {
                rows_plan(query, *select, keys, query.text, query.central)
            },
        }
    }
}

/// What subqueries a query contains.
#[derive(Clone, Copy, Debug, PartialEq, Eq, Structural)]
pub enum SubqueryClass {
    Absent,
    Substitutable,
    Unsupported,
}

fn classify_subqueries(query: &QueryTree) -> (r: SubqueryClass)
    ensures
        r == (if has_quantified(query@.mentions) {
            SubqueryClass::Unsupported
        } else if has_subquery(query@.mentions) {
            SubqueryClass::Substitutable
        } else {
            SubqueryClass::Absent
        }),
{
    let ghost model = query@.mentions;
    let mut substitutable = false;
    let mut i: usize = 0;
    while i < query.mentions.len()
        invariant
            i <= query.mentions@.len(),
            model == mentions_model(query.mentions@),
            model == query@.mentions,
            forall|k: int| 0 <= k < i ==> !((#[trigger] model[k]) is Quantified),
            substitutable == exists|k: int| 0 <= k < i && (#[trigger] model[k]) is Subquery,
        decreases query.mentions@.len() - i,
    {
        assert(model[i as int] == query.mentions@[i as int]@);
        match &query.mentions[i] {
            Mention::Quantified => {
                return SubqueryClass::Unsupported;
            },
            Mention::Subquery => {
                substitutable = true;
            },
            _ => {},
        }
        i = i + 1;
    }
    if substitutable {
        SubqueryClass::Substitutable
    } else {
        SubqueryClass::Absent
    }
}

/// Decide how a parsed query is run across shards.
pub fn plan_query(query: &QueryTree, keys: &ShardKeys) -> (r: Result<Plan, Reason>)
    ensures
        plan_result(r) == query_plan(query@, keys@),
{
    if query.with {
        return Err(Reason::Cte);
    }
    if query.fetch {
        return Err(Reason::Fetch);
    }
    match classify_subqueries(query) {
        SubqueryClass::Absent => {},
        SubqueryClass::Substitutable => {
            return Ok(Plan::Subqueries);
        },
        SubqueryClass::Unsupported => {
            return Err(Reason::QuantifiedSubquery);
        },
    }
    let select = match &query.body {
        Body::Select(s) => s,
        Body::Operation { .. } => {
            return plan_set_op(query);
        },
        Body::Other => {
            return Err(Reason::QueryForm);
        },
    };
    if check_join(select, keys).is_err() {
        return plan_central(select, &query.central);
    }
    if select.distinct != DistinctKind::Absent {
        return plan_distinct(query, select, keys);
    }
    plan_rows(query, select, keys, &query.text, &query.central)
}

/// How the text of a query is run across shards, or why it is refused.
pub open spec fn sql_plan(sql: Seq<char>, keys: Map<Seq<char>, Seq<char>>) -> Result<
    PlanModel,
    Reason,
> {
    match parsed(sql) {
        None => Err(Reason::Unparsed),
        Some(all) => if all.len() != 1 {
            Err(Reason::ManyStatements)
        } else {
            match all[0] {
                SqlModel::Query(q) => query_plan(q, keys),
                _ => Err(Reason::NotAQuery),
            }
        },
    }
}

/// Whether the texts that the query in a text is planned with are its own, and those of the query
/// without its limit, without its duplicate treatment, and with its sources named.
pub open spec fn texts_of_the_query(sql: Seq<char>) -> bool {
    lone_statement(sql) matches Some(SqlModel::Query(q)) ==> q == with_texts(lone_query(sql))
        && rewritings_hold(lone_query(sql))
}

/// Decide how `sql` can be run across shards, with no shard keys declared.
pub fn plan(sql: &str) -> (r: Result<Plan, Unsupported>)
    ensures
        match r {
            Ok(p) => sql_plan(sql@, Map::empty()) == Ok::<PlanModel, Reason>(p@),
            Err(u) => sql_plan(sql@, Map::empty()) is Err && u.what@ == sql_plan(
                sql@,
                Map::empty(),
            )->Err_0.what() && u.why@ == sql_plan(sql@, Map::empty())->Err_0.why(),
        },
        texts_of_the_query(sql@),
{
    plan_with(sql, &ShardKeys::new())
}

/// Decide how `sql` can be run across shards. A join on the declared shard keys is pushed to each
/// shard.
pub fn plan_with(sql: &str, shard_keys: &ShardKeys) -> (r: Result<Plan, Unsupported>)
    ensures
        match r {
            Ok(p) => sql_plan(sql@, shard_keys@) == Ok::<PlanModel, Reason>(p@),
            Err(u) => sql_plan(sql@, shard_keys@) is Err && u.what@ == sql_plan(
                sql@,
                shard_keys@,
            )->Err_0.what() && u.why@ == sql_plan(sql@, shard_keys@)->Err_0.why(),
        },
        texts_of_the_query(sql@),
{
    let mut statements = match parse(sql) {
        None => {
            return Err(Reason::Unparsed.unsupported());
        },
        Some(v) => v,
    };
    assert(parsed_models(statements@).len() == statements@.len());
    if statements.len() != 1 {
        return Err(Reason::ManyStatements.unsupported());
    }
    assert(parsed_models(statements@)[0] == statements@[0].model());
    match statements[0].read() {
        Sql::Query(q) => match plan_query(&q, shard_keys) {
            Ok(p) => Ok(p),
            Err(e) => Err(e.unsupported()),
        },
        _ => Err(Reason::NotAQuery.unsupported()),
    }
}

} // verus!
