//! How a query is run across shards.
//!
//! Shards are separate databases with no shared snapshot, so a query that spans them is answered
//! by running a part of it on every shard and combining the results. A [`Plan`] says what each
//! shard runs and how the results are combined. Anything that cannot be answered correctly is
//! refused, never approximated: see [`super::planner`] for the rules.

use vstd::prelude::*;

use crate::storage::exec::{Datum, DbValue};
use crate::text::views;

pub use super::planner::{plan, plan_query, plan_with};
pub use super::reason::Unsupported;
pub use super::syntax::SetKind;

verus! {

/// Table name to shard-key column, both in lower case. A join on two tables' shard keys keeps
/// every matching pair on one shard, so it can be pushed to each shard and concatenated. This is
/// the caller's word: nothing here can verify that rows were routed by those columns.
pub type ShardKeys = crate::text::TextMap;

/// How to combine one aggregate column across shards.
#[derive(Clone, Copy, Debug, PartialEq, Eq, Structural)]
pub enum Combine {
    Sum,
    Min,
    Max,
}

/// A sort key, as an index into the output columns.
#[derive(Clone, Copy, Debug, PartialEq, Eq, Structural)]
pub struct SortKey {
    pub column: usize,
    pub descending: bool,
    /// NULLs come first in ascending order and last in descending order, unless told otherwise.
    pub nulls_first: bool,
}

/// How a query should be executed across shards.
#[derive(Debug)]
pub enum Plan {
    /// Run on one shard only; nothing to merge.
    SingleShard,
    /// Fan out and concatenate.
    Concat { limit: Option<usize> },
    /// Fan out, then merge in the order of `keys`.
    Merge { keys: Vec<SortKey>, limit: Option<usize> },
    /// Fan out, then combine a single aggregate column.
    Aggregate { combine: Combine },
    /// Fan out a rewritten partial-aggregation query, then re-aggregate by group key.
    Grouped(Box<Grouped>),
    /// Fan out a rewritten query, then dedup, sort, skip and truncate on the coordinator.
    PostProcess(Box<PostProcess>),
    /// Evaluate each branch of a set operation as its own fan-out, then combine.
    SetOp(Box<SetOp>),
    /// Evaluate each subquery, substitute its result, then plan the query that results.
    Subqueries,
    /// Materialise each source on the coordinator and run the query there.
    Central(Box<Central>),
}

/// What a [`Plan`] holds.
pub ghost enum PlanModel {
    SingleShard,
    Concat { limit: Option<usize> },
    Merge { keys: Seq<SortKey>, limit: Option<usize> },
    Aggregate { combine: Combine },
    Grouped(GroupedModel),
    PostProcess(PostProcessModel),
    SetOp(SetOpModel),
    Subqueries,
    Central(CentralModel),
}

impl View for Plan {
    type V = PlanModel;

    open spec fn view(&self) -> PlanModel {
        match self {
            Plan::SingleShard => PlanModel::SingleShard,
            Plan::Concat { limit } => PlanModel::Concat { limit: *limit },
            Plan::Merge { keys, limit } => PlanModel::Merge { keys: keys@, limit: *limit },
            Plan::Aggregate { combine } => PlanModel::Aggregate { combine: *combine },
            Plan::Grouped(g) => PlanModel::Grouped(g@),
            Plan::PostProcess(p) => PlanModel::PostProcess(p@),
            Plan::SetOp(s) => PlanModel::SetOp(s@),
            Plan::Subqueries => PlanModel::Subqueries,
            Plan::Central(c) => PlanModel::Central(c@),
        }
    }
}

/// A summary of how a query runs across shards. `heavy` marks a plan that pulls matching rows to
/// the coordinator.
#[derive(Clone, Copy, Debug)]
pub struct PlanDescription {
    pub strategy: &'static str,
    pub note: &'static str,
    pub heavy: bool,
}

impl PlanModel {
    pub open spec fn strategy(self) -> Seq<char> {
        match self {
            PlanModel::SingleShard => "single shard"@,
            PlanModel::Concat { .. } => "fan-out · concat"@,
            PlanModel::Merge { .. } => "fan-out · ordered merge"@,
            PlanModel::Aggregate { .. } => "fan-out · combined aggregate"@,
            PlanModel::Grouped(_) => "fan-out · grouped"@,
            PlanModel::PostProcess(_) => "fan-out · post-processed"@,
            PlanModel::SetOp(_) => "fan-out · set operation"@,
            PlanModel::Subqueries => "subquery fan-out"@,
            PlanModel::Central(_) => "central execution"@,
        }
    }

    pub open spec fn note(self) -> Seq<char> {
        match self {
            PlanModel::SingleShard => "Runs on one shard, routed by key — no fan-out."@,
            PlanModel::Concat { .. } => "Rows are gathered from every shard and concatenated."@,
            PlanModel::Merge { .. } => "Each shard sorts locally; the coordinator k-way merges the streams."@,
            PlanModel::Aggregate { .. } => "Each shard computes a partial aggregate; the coordinator combines the partials."@,
            PlanModel::Grouped(_) => "Each shard produces partial groups; the coordinator re-aggregates by group key."@,
            PlanModel::PostProcess(_) => "Fan-out, then dedup / sort / offset on the coordinator (DISTINCT / OFFSET)."@,
            PlanModel::SetOp(_) => "Each branch fans out; the coordinator combines them (UNION / INTERSECT / EXCEPT)."@,
            PlanModel::Subqueries => "Subqueries are evaluated globally and substituted, then the query fans out."@,
            PlanModel::Central(_) => "Matching rows are pulled to the coordinator and the query runs there — correct but memory-heavy, and heavier than a pushed-down aggregate. Consider restructuring the query or targeting a single shard."@,
        }
    }
}

impl Plan {
    /// Describe the plan's cross-shard strategy without running it.
    pub fn describe(&self) -> (r: PlanDescription)
        ensures
            r.strategy@ == self@.strategy(),
            r.note@ == self@.note(),
            r.heavy == (self@ is Central),
    {
        match self {
            Plan::SingleShard => PlanDescription {
                strategy: "single shard",
                note: "Runs on one shard, routed by key — no fan-out.",
                heavy: false,
            },
            Plan::Concat { .. } => PlanDescription {
                strategy: "fan-out · concat",
                note: "Rows are gathered from every shard and concatenated.",
                heavy: false,
            },
            Plan::Merge { .. } => PlanDescription {
                strategy: "fan-out · ordered merge",
                note: "Each shard sorts locally; the coordinator k-way merges the streams.",
                heavy: false,
            },
            Plan::Aggregate { .. } => PlanDescription {
                strategy: "fan-out · combined aggregate",
                note: "Each shard computes a partial aggregate; the coordinator combines the partials.",
                heavy: false,
            },
            Plan::Grouped(_) => PlanDescription {
                strategy: "fan-out · grouped",
                note: "Each shard produces partial groups; the coordinator re-aggregates by group key.",
                heavy: false,
            },
            Plan::PostProcess(_) => PlanDescription {
                strategy: "fan-out · post-processed",
                note: "Fan-out, then dedup / sort / offset on the coordinator (DISTINCT / OFFSET).",
                heavy: false,
            },
            Plan::SetOp(_) => PlanDescription {
                strategy: "fan-out · set operation",
                note: "Each branch fans out; the coordinator combines them (UNION / INTERSECT / EXCEPT).",
                heavy: false,
            },
            Plan::Subqueries => PlanDescription {
                strategy: "subquery fan-out",
                note: "Subqueries are evaluated globally and substituted, then the query fans out.",
                heavy: false,
            },
            Plan::Central(_) => PlanDescription {
                strategy: "central execution",
                note: "Matching rows are pulled to the coordinator and the query runs there — correct but memory-heavy, and heavier than a pushed-down aggregate. Consider restructuring the query or targeting a single shard.",
                heavy: true,
            },
        }
    }
}

/// A query answered by materialising its `FROM` sources on the coordinator. Each source is fanned
/// out on its own and loaded into a table; `central_sql` refers to those tables by name.
#[derive(Debug)]
pub struct Central {
    pub sources: Vec<CentralSource>,
    pub central_sql: String,
}

/// What a [`Central`] holds.
pub ghost struct CentralModel {
    pub sources: Seq<CentralSourceModel>,
    pub central_sql: Seq<char>,
}

/// A table to materialise, and the query whose rows fill it.
#[derive(Debug)]
pub struct CentralSource {
    pub table: String,
    pub sql: String,
}

/// What a [`CentralSource`] holds.
pub ghost struct CentralSourceModel {
    pub table: Seq<char>,
    pub sql: Seq<char>,
}

impl View for CentralSource {
    type V = CentralSourceModel;

    open spec fn view(&self) -> CentralSourceModel {
        CentralSourceModel { table: self.table@, sql: self.sql@ }
    }
}

pub open spec fn sources_model(sources: Seq<CentralSource>) -> Seq<CentralSourceModel> {
    sources.map_values(|s: CentralSource| s@)
}

impl View for Central {
    type V = CentralModel;

    open spec fn view(&self) -> CentralModel {
        CentralModel { sources: sources_model(self.sources@), central_sql: self.central_sql@ }
    }
}

/// A coordinator-side reshape of concatenated shard rows: dedup them where `distinct`, sort them,
/// skip `offset`, then keep `limit`.
#[derive(Debug)]
pub struct PostProcess {
    pub shard_sql: String,
    pub distinct: bool,
    pub order_by: Vec<SortKey>,
    pub offset: usize,
    pub limit: Option<usize>,
}

/// What a [`PostProcess`] holds.
pub ghost struct PostProcessModel {
    pub shard_sql: Seq<char>,
    pub distinct: bool,
    pub order_by: Seq<SortKey>,
    pub offset: usize,
    pub limit: Option<usize>,
}

impl View for PostProcess {
    type V = PostProcessModel;

    open spec fn view(&self) -> PostProcessModel {
        PostProcessModel {
            shard_sql: self.shard_sql@,
            distinct: self.distinct,
            order_by: self.order_by@,
            offset: self.offset,
            limit: self.limit,
        }
    }
}

/// A set operation, evaluated by fanning out each branch as a query of its own.
#[derive(Debug)]
pub struct SetOp {
    /// The SQL of each leaf `SELECT`, left to right; `tree` refers to these by index.
    pub branches: Vec<String>,
    pub tree: SetTree,
    pub order_by: Vec<SortKey>,
    pub offset: usize,
    pub limit: Option<usize>,
}

/// What a [`SetOp`] holds.
pub ghost struct SetOpModel {
    pub branches: Seq<Seq<char>>,
    pub tree: SetTree,
    pub order_by: Seq<SortKey>,
    pub offset: usize,
    pub limit: Option<usize>,
}

impl View for SetOp {
    type V = SetOpModel;

    open spec fn view(&self) -> SetOpModel {
        SetOpModel {
            branches: views(self.branches@),
            tree: self.tree,
            order_by: self.order_by@,
            offset: self.offset,
            limit: self.limit,
        }
    }
}

/// The shape of a set-operation expression, over branch indices. `all` keeps duplicates.
#[derive(Debug)]
pub enum SetTree {
    Leaf(usize),
    Op { op: SetKind, all: bool, left: Box<SetTree>, right: Box<SetTree> },
}

/// A two-phase `GROUP BY`: each shard runs `shard_sql` for its partial groups, and the coordinator
/// re-aggregates them by the grouping columns.
#[derive(Debug)]
pub struct Grouped {
    pub shard_sql: String,
    /// Positions of the grouping columns within a partial row.
    pub group_cols: Vec<usize>,
    /// The first `visible_count` are the selected columns; the rest are needed by `having` alone.
    pub outputs: Vec<OutputCol>,
    pub visible_count: usize,
    pub having: Option<HavingExpr>,
    pub output_names: Vec<String>,
    pub order_by: Vec<SortKey>,
    pub offset: usize,
    pub limit: Option<usize>,
}

/// What a [`Grouped`] holds.
pub ghost struct GroupedModel {
    pub shard_sql: Seq<char>,
    pub group_cols: Seq<usize>,
    pub outputs: Seq<OutputCol>,
    pub visible_count: usize,
    pub having: Option<PredicateModel>,
    pub output_names: Seq<Seq<char>>,
    pub order_by: Seq<SortKey>,
    pub offset: usize,
    pub limit: Option<usize>,
}

pub open spec fn predicate_option(h: Option<HavingExpr>) -> Option<PredicateModel> {
    match h {
        Some(e) => Some(e.model()),
        None => None,
    }
}

impl View for Grouped {
    type V = GroupedModel;

    open spec fn view(&self) -> GroupedModel {
        GroupedModel {
            shard_sql: self.shard_sql@,
            group_cols: self.group_cols@,
            outputs: self.outputs@,
            visible_count: self.visible_count,
            having: predicate_option(self.having),
            output_names: views(self.output_names@),
            order_by: self.order_by@,
            offset: self.offset,
            limit: self.limit,
        }
    }
}

/// How one final output column is produced from a group's partial rows.
#[derive(Clone, Copy, Debug, PartialEq, Eq, Structural)]
pub enum OutputCol {
    /// The group-key value at this partial position.
    Group(usize),
    /// One partial aggregate column, folded across the group.
    Combine { kind: Combine, col: usize },
    /// The sum of the partial sums over the sum of the partial counts; NULL where that is zero.
    Avg { sum_col: usize, count_col: usize },
}

/// A `HAVING` predicate over a group's computed row.
#[derive(Debug)]
pub enum HavingExpr {
    And(Box<HavingExpr>, Box<HavingExpr>),
    Or(Box<HavingExpr>, Box<HavingExpr>),
    Not(Box<HavingExpr>),
    Compare { left: HavingValue, op: CompareOp, right: HavingValue },
    IsNull { value: HavingValue, negated: bool },
}

/// What a [`HavingExpr`] holds.
pub ghost enum PredicateModel {
    And(Box<PredicateModel>, Box<PredicateModel>),
    Or(Box<PredicateModel>, Box<PredicateModel>),
    Not(Box<PredicateModel>),
    Compare { left: OperandModel, op: CompareOp, right: OperandModel },
    IsNull { value: OperandModel, negated: bool },
}

impl HavingExpr {
    pub open spec fn model(self) -> PredicateModel
        decreases self,
    {
        match self {
            HavingExpr::And(a, b) => PredicateModel::And(Box::new(a.model()), Box::new(b.model())),
            HavingExpr::Or(a, b) => PredicateModel::Or(Box::new(a.model()), Box::new(b.model())),
            HavingExpr::Not(a) => PredicateModel::Not(Box::new(a.model())),
            HavingExpr::Compare { left, op, right } => PredicateModel::Compare {
                left: left@,
                op,
                right: right@,
            },
            HavingExpr::IsNull { value, negated } => PredicateModel::IsNull {
                value: value@,
                negated,
            },
        }
    }
}

/// One operand of a `HAVING` comparison: a column of the group's computed row, a constant, or a
/// real number still in the digits it was written with.
#[derive(Debug)]
pub enum HavingValue {
    Column(usize),
    Literal(DbValue),
    RealText { digits: String, negative: bool },
}

/// What a [`HavingValue`] holds.
pub ghost enum OperandModel {
    Column(usize),
    Literal(Datum),
    RealText { digits: Seq<char>, negative: bool },
}

impl View for HavingValue {
    type V = OperandModel;

    open spec fn view(&self) -> OperandModel {
        match self {
            HavingValue::Column(i) => OperandModel::Column(*i),
            HavingValue::Literal(v) => OperandModel::Literal(v@),
            HavingValue::RealText { digits, negative } => OperandModel::RealText {
                digits: digits@,
                negative: *negative,
            },
        }
    }
}

#[derive(Clone, Copy, Debug, PartialEq, Eq, Structural)]
pub enum CompareOp {
    Eq,
    Ne,
    Lt,
    Le,
    Gt,
    Ge,
}

} // verus!
