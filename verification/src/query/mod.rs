//! Planning a query across shards, and putting the shards' answers together.

pub mod ddl;
pub mod fanout;
pub mod groups;
pub mod intent;
pub mod laws;
pub mod merge;
pub mod order;
pub mod outcomes;
pub mod placing;
pub mod plan;
pub mod planner;
pub mod reader;
pub mod reason;
pub mod route;
pub mod safety;
pub mod schemas;
pub mod strict;
pub mod substitute;
pub mod syntax;

pub use merge::{evaluate_set_tree, finalize_rows, merge_results};
pub use plan::{plan, plan_query, plan_with, Plan, SetKind, Unsupported};
pub use route::{route_statement, route_statement_with, Route};
pub use substitute::substitute_subqueries;
