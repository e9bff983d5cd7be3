//! Why a query cannot be answered across shards.

use vstd::prelude::*;

verus! {

/// Why a query cannot be answered across shards.
#[derive(Clone, Copy, Debug)]
pub struct Unsupported {
    pub what: &'static str,
    pub why: &'static str,
}

impl Unsupported {
    /// The refusal as it is shown to a client.
    pub open spec fn message(self) -> Seq<char> {
        self.what@ + " cannot be answered across shards: "@ + self.why@
            + ". Target a single shard instead, or restructure the query."@
    }

    /// The refusal as a sentence for the client.
    pub fn to_text(&self) -> (r: String)
        ensures
            r@ == self.message(),
    {
        let mut out = self.what.to_owned();
        out.append(" cannot be answered across shards: ");
        out.append(self.why);
        out.append(". Target a single shard instead, or restructure the query.");
        out
    }
}

/// The refusals of the planner, one for each rule that a query can break.
#[derive(Clone, Copy, Debug, PartialEq, Eq, Structural)]
pub enum Reason {
    Unparsed,
    ManyStatements,
    NotAQuery,
    Cte,
    Fetch,
    QuantifiedSubquery,
    QueryForm,
    GroupByAll,
    HavingAlone,
    DistinctOn,
    EmptySetOperation,
    ByName,
    SetBranch,
    GroupedDistinct,
    HavingHere,
    AggregateDistinct,
    CrossJoin,
    DerivedFrom,
    NotOnShardKeys,
    JoinedSubquery,
    JoinUndeclared,
    JoinType,
    JoinConstraint,
    NoSource,
    UnnamedDerived,
    FromSource,
    OrderByAll,
    OrderByHidden,
    LimitForm,
    LimitLiteral,
    OffsetLiteral,
    GroupModifiers,
    GroupedNoFrom,
    GroupedWildcard,
    GroupedAliases,
    BareColumn,
    HavingOperator,
    HavingForm,
    HavingOperand,
    HavingColumn,
    HavingLiteral,
    HavingNumber,
    GroupConcat,
    UnknownAggregate,
    UnknownAssociative,
    Avg,
    ArgumentList,
    ArgumentDistinct,
    ArgumentCount,
    ArgumentForm,
}

impl Reason {
    /// The part of the query that is refused.
    pub open spec fn what(self) -> Seq<char> {
        match self {
            Reason::Unparsed => "this statement"@,
            Reason::ManyStatements => "multiple statements"@,
            Reason::NotAQuery => "a non-query statement"@,
            Reason::Cte => "a common table expression"@,
            Reason::Fetch => "FETCH"@,
            Reason::QuantifiedSubquery => "an ANY or ALL subquery"@,
            Reason::QueryForm => "this query form"@,
            Reason::GroupByAll => "GROUP BY ALL"@,
            Reason::HavingAlone => "HAVING"@,
            Reason::DistinctOn => "DISTINCT ON"@,
            Reason::EmptySetOperation => "an empty set operation"@,
            Reason::ByName => "a BY NAME set operation"@,
            Reason::SetBranch => "this query form in a set operation"@,
            Reason::GroupedDistinct => "GROUP BY combined with DISTINCT or a set operation"@,
            Reason::HavingHere => "HAVING here"@,
            Reason::AggregateDistinct => "an aggregate with DISTINCT or a set operation"@,
            Reason::CrossJoin => "a cross join (comma-separated tables)"@,
            Reason::DerivedFrom => "a subquery or table-valued function in FROM"@,
            Reason::NotOnShardKeys => "a join that is not on the tables' shard keys"@,
            Reason::JoinedSubquery => "a subquery or derived table in a join"@,
            Reason::JoinUndeclared => "a join on a table with no declared shard key"@,
            Reason::JoinType => "this join type"@,
            Reason::JoinConstraint => "a USING or NATURAL join"@,
            Reason::NoSource => "a query with no source table to materialise"@,
            Reason::UnnamedDerived => "a derived table without an alias"@,
            Reason::FromSource => "this FROM source"@,
            Reason::OrderByAll => "ORDER BY ALL"@,
            Reason::OrderByHidden => "ORDER BY on an expression that is not in the select list"@,
            Reason::LimitForm => "this LIMIT form"@,
            Reason::LimitLiteral => "a non-literal LIMIT"@,
            Reason::OffsetLiteral => "a non-literal OFFSET"@,
            Reason::GroupModifiers => "ROLLUP, CUBE or GROUPING SETS"@,
            Reason::GroupedNoFrom => "a grouped query with no FROM"@,
            Reason::GroupedWildcard => "* in a grouped query"@,
            Reason::GroupedAliases => "a column-list alias in a grouped query"@,
            Reason::BareColumn => "a column that is neither grouped nor aggregated"@,
            Reason::HavingOperator => "this operator in HAVING"@,
            Reason::HavingForm => "this HAVING expression"@,
            Reason::HavingOperand => "this HAVING operand"@,
            Reason::HavingColumn => "a HAVING column that is neither grouped nor aggregated"@,
            Reason::HavingLiteral => "this HAVING literal"@,
            Reason::HavingNumber => "this HAVING number"@,
            Reason::GroupConcat => "GROUP_CONCAT"@,
            Reason::UnknownAggregate => "this aggregate"@,
            Reason::UnknownAssociative => "this aggregate"@,
            Reason::Avg => "AVG"@,
            Reason::ArgumentList => "an aggregate without a plain argument list"@,
            Reason::ArgumentDistinct => "DISTINCT inside an aggregate"@,
            Reason::ArgumentCount => "an aggregate with more than one argument"@,
            Reason::ArgumentForm => "this aggregate argument form"@,
        }
    }

    /// Why it is refused.
    pub open spec fn why(self) -> Seq<char> {
        match self {
            Reason::Unparsed => "it could not be parsed, and a fan-out must understand a query before it can merge the results safely"@,
            Reason::ManyStatements => "each would need its own plan"@,
            Reason::NotAQuery => "only SELECT is fanned out; writes are routed to a single shard"@,
            Reason::Cte => "a CTE can contain a join, grouping or aggregate that a fan-out cannot reassemble"@,
            Reason::Fetch => "it has the same problem as OFFSET"@,
            Reason::QuantifiedSubquery => "only scalar, IN and EXISTS subqueries can be evaluated separately and substituted"@,
            Reason::QueryForm => "only a plain SELECT can be fanned out"@,
            Reason::GroupByAll => "the grouping columns cannot be resolved to a fan-out-safe plan"@,
            Reason::HavingAlone => "it filters groups, which are partial per shard"@,
            Reason::DistinctOn => "it keeps an arbitrary row per group, which a fan-out cannot reproduce"@,
            Reason::EmptySetOperation => "there is nothing to combine"@,
            Reason::ByName => "columns are combined by position across shards, not by name"@,
            Reason::SetBranch => "only plain SELECT branches can be combined"@,
            Reason::GroupedDistinct => "the grouping is partial per shard, so it cannot be pushed down here"@,
            Reason::HavingHere => "it filters groups that are partial per shard"@,
            Reason::AggregateDistinct => "a per-shard aggregate is only a fragment of the whole, so it cannot be combined here"@,
            Reason::CrossJoin => "it pairs rows regardless of key, so matching rows may live on different shards"@,
            Reason::DerivedFrom => "a derived table needs coordinator-side materialisation, not built yet; run it as a separate query"@,
            Reason::NotOnShardKeys => "matching rows may live on different shards; join co-partitioned tables on their declared shard keys"@,
            Reason::JoinedSubquery => "only named, co-partitioned tables can be joined across shards"@,
            Reason::JoinUndeclared => "declare the table's shard key (co-partitioning) before joining it across shards"@,
            Reason::JoinType => "only INNER, LEFT, RIGHT and FULL joins on shard keys are supported"@,
            Reason::JoinConstraint => "the join must have an explicit ON equality on the shard keys"@,
            Reason::NoSource => "there is nothing to run centrally"@,
            Reason::UnnamedDerived => "a subquery in FROM must be named with AS so it can be referenced"@,
            Reason::FromSource => "only named tables and derived tables can be materialised for central execution"@,
            Reason::OrderByAll => "the sort columns cannot be resolved to output columns"@,
            Reason::OrderByHidden => "a merge can only sort by values it can see in the rows, so the sort column must be selected (use an alias or an ordinal)"@,
            Reason::LimitForm => "only a literal row count can be pushed down to each shard"@,
            Reason::LimitLiteral => "only a literal row count can be pushed down to each shard"@,
            Reason::OffsetLiteral => "only a literal row offset is supported"@,
            Reason::GroupModifiers => "these produce super-aggregate rows that a fan-out cannot reassemble"@,
            Reason::GroupedNoFrom => "there is nothing to fan out"@,
            Reason::GroupedWildcard => "a wildcard selects bare columns a fan-out cannot reassemble; list the group columns and aggregates explicitly"@,
            Reason::GroupedAliases => "multi-alias projections are not supported in a fan-out"@,
            Reason::BareColumn => "in a grouped query every selected column must appear in GROUP BY or be a COUNT, SUM, MIN, MAX or AVG"@,
            Reason::HavingOperator => "HAVING supports comparisons (= != < <= > >=) and AND/OR/NOT of them"@,
            Reason::HavingForm => "HAVING supports comparisons and AND/OR/NOT over aggregates, grouping columns and literals"@,
            Reason::HavingOperand => "only numeric, text and NULL literals are supported"@,
            Reason::HavingColumn => "HAVING can only reference a grouping column or an aggregate"@,
            Reason::HavingLiteral => "only numeric, text and NULL literals are supported"@,
            Reason::HavingNumber => "it is not a valid integer or real"@,
            Reason::GroupConcat => "the order of concatenation across shards is not defined"@,
            Reason::UnknownAggregate => "only COUNT, SUM, MIN, MAX and AVG combine correctly from partial results"@,
            Reason::UnknownAssociative => "only COUNT, SUM, MIN and MAX combine correctly from partial results"@,
            Reason::Avg => "a mean of per-shard means is not the mean, since shards hold different numbers of rows. Select SUM and COUNT and divide"@,
            Reason::ArgumentList => "only single-argument COUNT, SUM, MIN, MAX and AVG are combined"@,
            Reason::ArgumentDistinct => "the same value can appear on several shards, so a per-shard distinct count or sum would double-count"@,
            Reason::ArgumentCount => "only single-argument COUNT, SUM, MIN, MAX and AVG are combined"@,
            Reason::ArgumentForm => "only a column, an expression or * is supported"@,
        }
    }

    fn what_text(self) -> (r: &'static str)
        ensures
            r@ == self.what(),
    {
        match self {
            Reason::Unparsed => "this statement",
            Reason::ManyStatements => "multiple statements",
            Reason::NotAQuery => "a non-query statement",
            Reason::Cte => "a common table expression",
            Reason::Fetch => "FETCH",
            Reason::QuantifiedSubquery => "an ANY or ALL subquery",
            Reason::QueryForm => "this query form",
            Reason::GroupByAll => "GROUP BY ALL",
            Reason::HavingAlone => "HAVING",
            Reason::DistinctOn => "DISTINCT ON",
            Reason::EmptySetOperation => "an empty set operation",
            Reason::ByName => "a BY NAME set operation",
            Reason::SetBranch => "this query form in a set operation",
            Reason::GroupedDistinct => "GROUP BY combined with DISTINCT or a set operation",
            Reason::HavingHere => "HAVING here",
            Reason::AggregateDistinct => "an aggregate with DISTINCT or a set operation",
            Reason::CrossJoin => "a cross join (comma-separated tables)",
            Reason::DerivedFrom => "a subquery or table-valued function in FROM",
            Reason::NotOnShardKeys => "a join that is not on the tables' shard keys",
            Reason::JoinedSubquery => "a subquery or derived table in a join",
            Reason::JoinUndeclared => "a join on a table with no declared shard key",
            Reason::JoinType => "this join type",
            Reason::JoinConstraint => "a USING or NATURAL join",
            Reason::NoSource => "a query with no source table to materialise",
            Reason::UnnamedDerived => "a derived table without an alias",
            Reason::FromSource => "this FROM source",
            Reason::OrderByAll => "ORDER BY ALL",
            Reason::OrderByHidden => "ORDER BY on an expression that is not in the select list",
            Reason::LimitForm => "this LIMIT form",
            Reason::LimitLiteral => "a non-literal LIMIT",
            Reason::OffsetLiteral => "a non-literal OFFSET",
            Reason::GroupModifiers => "ROLLUP, CUBE or GROUPING SETS",
            Reason::GroupedNoFrom => "a grouped query with no FROM",
            Reason::GroupedWildcard => "* in a grouped query",
            Reason::GroupedAliases => "a column-list alias in a grouped query",
            Reason::BareColumn => "a column that is neither grouped nor aggregated",
            Reason::HavingOperator => "this operator in HAVING",
            Reason::HavingForm => "this HAVING expression",
            Reason::HavingOperand => "this HAVING operand",
            Reason::HavingColumn => "a HAVING column that is neither grouped nor aggregated",
            Reason::HavingLiteral => "this HAVING literal",
            Reason::HavingNumber => "this HAVING number",
            Reason::GroupConcat => "GROUP_CONCAT",
            Reason::UnknownAggregate => "this aggregate",
            Reason::UnknownAssociative => "this aggregate",
            Reason::Avg => "AVG",
            Reason::ArgumentList => "an aggregate without a plain argument list",
            Reason::ArgumentDistinct => "DISTINCT inside an aggregate",
            Reason::ArgumentCount => "an aggregate with more than one argument",
            Reason::ArgumentForm => "this aggregate argument form",
        }
    }

    fn why_text(self) -> (r: &'static str)
        ensures
            r@ == self.why(),
    {
        match self {
            Reason::Unparsed => "it could not be parsed, and a fan-out must understand a query before it can merge the results safely",
            Reason::ManyStatements => "each would need its own plan",
            Reason::NotAQuery => "only SELECT is fanned out; writes are routed to a single shard",
            Reason::Cte => "a CTE can contain a join, grouping or aggregate that a fan-out cannot reassemble",
            Reason::Fetch => "it has the same problem as OFFSET",
            Reason::QuantifiedSubquery => "only scalar, IN and EXISTS subqueries can be evaluated separately and substituted",
            Reason::QueryForm => "only a plain SELECT can be fanned out",
            Reason::GroupByAll => "the grouping columns cannot be resolved to a fan-out-safe plan",
            Reason::HavingAlone => "it filters groups, which are partial per shard",
            Reason::DistinctOn => "it keeps an arbitrary row per group, which a fan-out cannot reproduce",
            Reason::EmptySetOperation => "there is nothing to combine",
            Reason::ByName => "columns are combined by position across shards, not by name",
            Reason::SetBranch => "only plain SELECT branches can be combined",
            Reason::GroupedDistinct => "the grouping is partial per shard, so it cannot be pushed down here",
            Reason::HavingHere => "it filters groups that are partial per shard",
            Reason::AggregateDistinct => "a per-shard aggregate is only a fragment of the whole, so it cannot be combined here",
            Reason::CrossJoin => "it pairs rows regardless of key, so matching rows may live on different shards",
            Reason::DerivedFrom => "a derived table needs coordinator-side materialisation, not built yet; run it as a separate query",
            Reason::NotOnShardKeys => "matching rows may live on different shards; join co-partitioned tables on their declared shard keys",
            Reason::JoinedSubquery => "only named, co-partitioned tables can be joined across shards",
            Reason::JoinUndeclared => "declare the table's shard key (co-partitioning) before joining it across shards",
            Reason::JoinType => "only INNER, LEFT, RIGHT and FULL joins on shard keys are supported",
            Reason::JoinConstraint => "the join must have an explicit ON equality on the shard keys",
            Reason::NoSource => "there is nothing to run centrally",
            Reason::UnnamedDerived => "a subquery in FROM must be named with AS so it can be referenced",
            Reason::FromSource => "only named tables and derived tables can be materialised for central execution",
            Reason::OrderByAll => "the sort columns cannot be resolved to output columns",
            Reason::OrderByHidden => "a merge can only sort by values it can see in the rows, so the sort column must be selected (use an alias or an ordinal)",
            Reason::LimitForm => "only a literal row count can be pushed down to each shard",
            Reason::LimitLiteral => "only a literal row count can be pushed down to each shard",
            Reason::OffsetLiteral => "only a literal row offset is supported",
            Reason::GroupModifiers => "these produce super-aggregate rows that a fan-out cannot reassemble",
            Reason::GroupedNoFrom => "there is nothing to fan out",
            Reason::GroupedWildcard => "a wildcard selects bare columns a fan-out cannot reassemble; list the group columns and aggregates explicitly",
            Reason::GroupedAliases => "multi-alias projections are not supported in a fan-out",
            Reason::BareColumn => "in a grouped query every selected column must appear in GROUP BY or be a COUNT, SUM, MIN, MAX or AVG",
            Reason::HavingOperator => "HAVING supports comparisons (= != < <= > >=) and AND/OR/NOT of them",
            Reason::HavingForm => "HAVING supports comparisons and AND/OR/NOT over aggregates, grouping columns and literals",
            Reason::HavingOperand => "only numeric, text and NULL literals are supported",
            Reason::HavingColumn => "HAVING can only reference a grouping column or an aggregate",
            Reason::HavingLiteral => "only numeric, text and NULL literals are supported",
            Reason::HavingNumber => "it is not a valid integer or real",
            Reason::GroupConcat => "the order of concatenation across shards is not defined",
            Reason::UnknownAggregate => "only COUNT, SUM, MIN, MAX and AVG combine correctly from partial results",
            Reason::UnknownAssociative => "only COUNT, SUM, MIN and MAX combine correctly from partial results",
            Reason::Avg => "a mean of per-shard means is not the mean, since shards hold different numbers of rows. Select SUM and COUNT and divide",
            Reason::ArgumentList => "only single-argument COUNT, SUM, MIN, MAX and AVG are combined",
            Reason::ArgumentDistinct => "the same value can appear on several shards, so a per-shard distinct count or sum would double-count",
            Reason::ArgumentCount => "only single-argument COUNT, SUM, MIN, MAX and AVG are combined",
            Reason::ArgumentForm => "only a column, an expression or * is supported",
        }
    }

    /// The refusal in words.
    pub fn unsupported(self) -> (r: Unsupported)
        ensures
            r.what@ == self.what(),
            r.why@ == self.why(),
    {
        Unsupported { what: self.what_text(), why: self.why_text() }
    }
}

} // verus!
