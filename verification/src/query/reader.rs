//! Reading SQL: `sqlparser` parses a statement, and the parts of its tree that the rules need are
//! taken over into [`super::syntax`], layer by layer.
//!
//! The parse tree's types are opaque to the proofs. What a node holds is given a name
//! ([`expr_of`], [`select_of`], ...), and each function that looks into a node says how the name of
//! the node is made of what the function hands out. The functions that walk the tree are proved
//! against those statements. None of them is about SQL: what a text parses to ([`parsed`]) is
//! `sqlparser`'s affair.

use std::ops::ControlFlow;

use sqlparser::ast::{
    visit_expressions, AssignmentTarget, BinaryOperator, ColumnOption, Distinct,
    DuplicateTreatment, Expr, FromTable, FunctionArg, FunctionArgExpr, FunctionArguments,
    GroupByExpr, JoinConstraint, JoinOperator, LimitClause, OrderByKind, Parens, SelectItem, SetExpr,
    SetOperator, SetQuantifier, Statement as SqlStatement, TableConstraint, TableFactor, TableObject,
    UnaryOperator, Value as SqlValue,
};
use sqlparser::dialect::SQLiteDialect;
use sqlparser::parser::Parser;
use vstd::prelude::*;

use super::syntax::{
    args_model, calls_model, columns_model, constraints_model, from_model, items_model,
    joins_model, mentions_model, order_terms_model, targets_model, term_option, terms_model,
    text_option, value_rows_model, Arg, ArgModel, BinOp, Body, BodyModel, Call, CallMention,
    CallMentionModel, CallModel, Column, ColumnModel, ColumnRule, Constraint, ConstraintModel,
    DeleteTree, DeleteModel, DistinctKind, FromItem, FromModel, GroupBy, GroupByModel, Having,
    HavingModel, InsertModel, InsertSource, InsertSourceModel, InsertTree, Item, ItemModel,
    JoinModel, JoinOn, JoinOnModel, JoinTree, Limit, LimitModel, Literal, LiteralModel, Mention,
    MentionModel, Node, NodeModel, OrderByModel, OrderTerm, OrderTermModel, OrderTree, Quantifier,
    QueryModel, QueryTree, SelectModel, SelectTree, SetKind, Source, SourceModel, Sql, SqlModel,
    TableTree, CreateTableModel, Term, TermModel, UpdateModel, UpdateTree,
};
use crate::text::{quote_ident, quoted, views};

verus! {

// ---- the types of the parse tree ---------------------------------------------------------------

#[verifier::external_type_specification]
#[verifier::external_body]
pub struct ExExpr(sqlparser::ast::Expr);

#[verifier::external_type_specification]
#[verifier::external_body]
pub struct ExFunction(sqlparser::ast::Function);

#[verifier::external_type_specification]
#[verifier::external_body]
pub struct ExFunctionArg(sqlparser::ast::FunctionArg);

#[verifier::external_type_specification]
#[verifier::external_body]
pub struct ExSelectItem(sqlparser::ast::SelectItem);

#[verifier::external_type_specification]
#[verifier::external_body]
pub struct ExTableFactor(sqlparser::ast::TableFactor);

#[verifier::external_type_specification]
#[verifier::external_body]
pub struct ExJoin(sqlparser::ast::Join);

#[verifier::external_type_specification]
#[verifier::external_body]
pub struct ExTableWithJoins(sqlparser::ast::TableWithJoins);

#[verifier::external_type_specification]
#[verifier::external_body]
pub struct ExSelect(sqlparser::ast::Select);

#[verifier::external_type_specification]
#[verifier::external_body]
pub struct ExSetExpr(sqlparser::ast::SetExpr);

#[verifier::external_type_specification]
#[verifier::external_body]
pub struct ExOrderBy(sqlparser::ast::OrderBy);

#[verifier::external_type_specification]
#[verifier::external_body]
pub struct ExOrderByExpr(sqlparser::ast::OrderByExpr);

#[verifier::external_type_specification]
#[verifier::external_body]
pub struct ExQuery(sqlparser::ast::Query);

#[verifier::external_type_specification]
#[verifier::external_body]
pub struct ExObjectName(sqlparser::ast::ObjectName);

#[verifier::external_type_specification]
#[verifier::external_body]
pub struct ExInsert(sqlparser::ast::Insert);

#[verifier::external_type_specification]
#[verifier::external_body]
pub struct ExAssignment(sqlparser::ast::Assignment);

#[verifier::external_type_specification]
#[verifier::external_body]
pub struct ExUpdate(sqlparser::ast::Update);

#[verifier::external_type_specification]
#[verifier::external_body]
pub struct ExDelete(sqlparser::ast::Delete);

#[verifier::external_type_specification]
#[verifier::external_body]
pub struct ExColumnDef(sqlparser::ast::ColumnDef);

#[verifier::external_type_specification]
#[verifier::external_body]
pub struct ExTableConstraint(sqlparser::ast::TableConstraint);

#[verifier::external_type_specification]
#[verifier::external_body]
pub struct ExCreateTable(sqlparser::ast::CreateTable);

#[verifier::external_type_specification]
#[verifier::external_body]
pub struct ExStatement(sqlparser::ast::Statement);

#[verifier::external_type_specification]
#[verifier::external_body]
pub struct ExBinaryOperator(sqlparser::ast::BinaryOperator);

#[verifier::external_type_specification]
#[verifier::external_body]
pub struct ExValueWithSpan(sqlparser::ast::ValueWithSpan);

// ---- what a node holds -------------------------------------------------------------------------

/// The expression that an `Expr` holds.
pub uninterp spec fn expr_of(e: sqlparser::ast::Expr) -> TermModel;

/// The operator that a `BinaryOperator` is.
pub uninterp spec fn operator_of(op: sqlparser::ast::BinaryOperator) -> BinOp;

/// The literal that a `ValueWithSpan` holds.
pub uninterp spec fn literal_of(v: sqlparser::ast::ValueWithSpan) -> LiteralModel;

/// The call that a `Function` holds.
pub uninterp spec fn call_of(f: sqlparser::ast::Function) -> CallModel;

/// The argument that a `FunctionArg` holds.
pub uninterp spec fn arg_of(a: sqlparser::ast::FunctionArg) -> ArgModel;

/// The item that a `SelectItem` holds.
pub uninterp spec fn item_of(i: sqlparser::ast::SelectItem) -> ItemModel;

/// The rendered name and the last identifier that an `ObjectName` holds.
pub uninterp spec fn name_of(n: sqlparser::ast::ObjectName) -> (Seq<char>, Seq<char>);

/// The relation that a `TableFactor` holds.
pub uninterp spec fn source_of(t: sqlparser::ast::TableFactor) -> SourceModel;

/// The join that a `Join` holds.
pub uninterp spec fn join_of(j: sqlparser::ast::Join) -> JoinModel;

/// The item of a `FROM` that a `TableWithJoins` holds.
pub uninterp spec fn from_of(t: sqlparser::ast::TableWithJoins) -> FromModel;

/// The select that a `Select` holds.
pub uninterp spec fn select_of(s: sqlparser::ast::Select) -> SelectModel;

/// The body that a `SetExpr` holds.
pub uninterp spec fn body_of(b: sqlparser::ast::SetExpr) -> BodyModel;

/// The `ORDER BY` that an `OrderBy` holds.
pub uninterp spec fn order_of(o: sqlparser::ast::OrderBy) -> OrderByModel;

/// The term that an `OrderByExpr` holds.
pub uninterp spec fn order_term_of(o: sqlparser::ast::OrderByExpr) -> OrderTermModel;

/// The query that a `Query` holds.
pub uninterp spec fn query_of(q: sqlparser::ast::Query) -> QueryModel;

/// The expressions that `visit_expressions` meets on a walk of an expression, in order.
pub uninterp spec fn walk_of_expr(e: sqlparser::ast::Expr) -> Seq<sqlparser::ast::Expr>;

/// What an expression met on a walk of a query is to the rules.
pub uninterp spec fn mention_of(e: sqlparser::ast::Expr) -> MentionModel;

/// The `body` of a `Query`.
pub uninterp spec fn body_within(q: sqlparser::ast::Query) -> sqlparser::ast::SetExpr;

/// The `Select` that a `SetExpr` is, where it is one.
pub uninterp spec fn select_within(b: sqlparser::ast::SetExpr) -> sqlparser::ast::Select;

/// The `from` of a `Select`.
pub uninterp spec fn from_within(s: sqlparser::ast::Select) -> Seq<sqlparser::ast::TableWithJoins>;

/// The `relation` of a `TableWithJoins`.
pub uninterp spec fn relation_within(t: sqlparser::ast::TableWithJoins) -> sqlparser::ast::TableFactor;

/// A `Query` without its `limit_clause`.
pub uninterp spec fn without_limit(q: sqlparser::ast::Query) -> sqlparser::ast::Query;

/// A `Query` without the `distinct` of its `Select`.
pub uninterp spec fn without_distinct(q: sqlparser::ast::Query) -> sqlparser::ast::Query;

/// A `Query` with another relation in its `FROM`: as that of the item `table`, or of one of its
/// joins.
pub uninterp spec fn with_relation(
    q: sqlparser::ast::Query,
    table: int,
    join: Option<int>,
    t: sqlparser::ast::TableFactor,
) -> sqlparser::ast::Query;

/// The `INSERT` that an `Insert` holds.
pub uninterp spec fn insert_of(i: sqlparser::ast::Insert) -> InsertModel;

/// The expressions of the rows of an `Insert`'s `VALUES`.
pub uninterp spec fn rows_within(i: sqlparser::ast::Insert) -> Seq<Seq<sqlparser::ast::Expr>>;

/// An `Insert` with other rows in its `VALUES`, and all else as it is.
pub uninterp spec fn insert_with(
    i: sqlparser::ast::Insert,
    rows: Seq<Seq<sqlparser::ast::Expr>>,
) -> sqlparser::ast::Insert;

/// How an `Insert` is written.
pub uninterp spec fn insert_print_of(i: sqlparser::ast::Insert) -> Seq<char>;

/// The columns that an `Assignment` sets.
pub uninterp spec fn targets_of(a: sqlparser::ast::Assignment) -> Seq<Seq<char>>;

/// The `UPDATE` that an `Update` holds.
pub uninterp spec fn update_of(u: sqlparser::ast::Update) -> UpdateModel;

/// The `DELETE` that a `Delete` holds.
pub uninterp spec fn delete_of(d: sqlparser::ast::Delete) -> DeleteModel;

/// The column definition that a `ColumnDef` holds.
pub uninterp spec fn column_of(c: sqlparser::ast::ColumnDef) -> ColumnModel;

/// The constraint that a `TableConstraint` holds.
pub uninterp spec fn constraint_of(c: sqlparser::ast::TableConstraint) -> ConstraintModel;

/// The `CREATE TABLE` that a `CreateTable` holds.
pub uninterp spec fn create_of(c: sqlparser::ast::CreateTable) -> CreateTableModel;

/// The statement that a `Statement` holds.
pub uninterp spec fn sql_of(s: sqlparser::ast::Statement) -> SqlModel;

/// The `Query` that a `Statement` is, where it is one.
pub uninterp spec fn query_within(s: sqlparser::ast::Statement) -> sqlparser::ast::Query;

/// The `Insert` that a `Statement` is, where it is one.
pub uninterp spec fn insert_within(s: sqlparser::ast::Statement) -> sqlparser::ast::Insert;

/// What `sqlparser` makes of a text in its SQLite dialect: the statements, or the parser's message.
pub uninterp spec fn statements_of(sql: Seq<char>) -> Result<
    Seq<sqlparser::ast::Statement>,
    Seq<char>,
>;

/// The statements of a text in the library's own terms, or `None` where it does not parse.
pub open spec fn parsed(sql: Seq<char>) -> Option<Seq<SqlModel>> {
    match statements_of(sql) {
        Ok(all) => Some(all.map_values(|s: sqlparser::ast::Statement| sql_of(s))),
        Err(_) => None,
    }
}

pub open spec fn exprs_of(v: Seq<sqlparser::ast::Expr>) -> Seq<TermModel> {
    v.map_values(|e: sqlparser::ast::Expr| expr_of(e))
}

pub open spec fn expr_option(e: Option<&sqlparser::ast::Expr>) -> Option<TermModel> {
    match e {
        Some(e) => Some(expr_of(*e)),
        None => None,
    }
}

// ---- lists -------------------------------------------------------------------------------------

/// `f` of every element.
fn map_list<A, B, F: Fn(&A) -> B>(v: &Vec<A>, f: F) -> (r: Vec<B>)
    requires
        forall|i: int| 0 <= i < v@.len() ==> call_requires(f, (&#[trigger] v@[i],)),
    ensures
        r@.len() == v@.len(),
        forall|i: int| 0 <= i < v@.len() ==> call_ensures(f, (&v@[i],), #[trigger] r@[i]),
{
    let mut out: Vec<B> = Vec::with_capacity(v.len());
    let mut i: usize = 0;
    while i < v.len()
        invariant
            i <= v@.len(),
            out@.len() == i,
            forall|k: int| 0 <= k < v@.len() ==> call_requires(f, (&#[trigger] v@[k],)),
            forall|k: int| 0 <= k < i ==> call_ensures(f, (&v@[k],), #[trigger] out@[k]),
        decreases v@.len() - i,
    {
        let x: &A = &v[i];
        assert(*x == v@[i as int]);
        out.push(f(x));
        i = i + 1;
    }
    out
}

// ---- expressions -------------------------------------------------------------------------------

/// An expression made of other expressions.
enum Branch<'a> {
    Binary(&'a sqlparser::ast::Expr, &'a sqlparser::ast::BinaryOperator, &'a sqlparser::ast::Expr),
    Not(&'a sqlparser::ast::Expr),
    Minus(&'a sqlparser::ast::Expr),
    Nested(&'a sqlparser::ast::Expr),
    IsNull(&'a sqlparser::ast::Expr),
    IsNotNull(&'a sqlparser::ast::Expr),
}

/// An expression that is not one of those.
enum Leaf<'a> {
    Identifier(String),
    Compound(Vec<String>),
    Literal(&'a sqlparser::ast::ValueWithSpan),
    Call(&'a sqlparser::ast::Function),
    Other,
}

/// Whether a node is made of other expressions that the rules look into.
pub open spec fn is_branch(n: NodeModel) -> bool {
    n is Binary || n is Not || n is Minus || n is Nested || n is IsNull || n is IsNotNull
}

/// `sqlparser::ast::Expr`'s `Display`: the text that the expression renders to.
#[verifier::external_body]
fn expr_text(e: &sqlparser::ast::Expr) -> (r: String)
    ensures
        r@ == expr_of(*e).text,
{
    e.to_string()
}

/// The variants of `sqlparser::ast::Expr` that hold operands: a binary operation, `NOT`, unary
/// minus, parentheses, `IS NULL` and `IS NOT NULL`, each with its operands.
#[verifier::external_body]
fn expr_branch<'a>(e: &'a sqlparser::ast::Expr) -> (r: Option<Branch<'a>>)
    ensures
        match r {
            Some(Branch::Binary(l, op, right)) => expr_of(*e).node == NodeModel::Binary(
                Box::new(expr_of(*l)),
                operator_of(*op),
                Box::new(expr_of(*right)),
            ),
            Some(Branch::Not(x)) => expr_of(*e).node == NodeModel::Not(Box::new(expr_of(*x))),
            Some(Branch::Minus(x)) => expr_of(*e).node == NodeModel::Minus(Box::new(expr_of(*x))),
            Some(Branch::Nested(x)) => expr_of(*e).node == NodeModel::Nested(Box::new(expr_of(*x))),
            Some(Branch::IsNull(x)) => expr_of(*e).node == NodeModel::IsNull(Box::new(expr_of(*x))),
            Some(Branch::IsNotNull(x)) => expr_of(*e).node == NodeModel::IsNotNull(
                Box::new(expr_of(*x)),
            ),
            None => !is_branch(expr_of(*e).node),
        },
{
    match e {
        Expr::BinaryOp { left, op, right } => Some(Branch::Binary(left, op, right)),
        Expr::UnaryOp { op: UnaryOperator::Not, expr } => Some(Branch::Not(expr)),
        Expr::UnaryOp { op: UnaryOperator::Minus, expr } => Some(Branch::Minus(expr)),
        Expr::Nested(x) => Some(Branch::Nested(x)),
        Expr::IsNull(x) => Some(Branch::IsNull(x)),
        Expr::IsNotNull(x) => Some(Branch::IsNotNull(x)),
        _ => None,
    }
}

/// The variants of `sqlparser::ast::Expr` without operands that the rules look into: a column name
/// of one part or several (the parts' values, unquoted), a literal, a function call.
#[verifier::external_body]
fn expr_leaf<'a>(e: &'a sqlparser::ast::Expr) -> (r: Leaf<'a>)
    ensures
        match r {
            Leaf::Identifier(s) => expr_of(*e).node == NodeModel::Identifier(s@),
            Leaf::Compound(parts) => expr_of(*e).node == NodeModel::Compound(views(parts@)),
            Leaf::Literal(v) => expr_of(*e).node == NodeModel::Literal(literal_of(*v)),
            Leaf::Call(f) => expr_of(*e).node == NodeModel::Call(call_of(*f)),
            Leaf::Other => expr_of(*e).node is Other || is_branch(expr_of(*e).node),
        },
{
    match e {
        Expr::Identifier(id) => Leaf::Identifier(id.value.clone()),
        Expr::CompoundIdentifier(ids) => {
            Leaf::Compound(ids.iter().map(|id| id.value.clone()).collect())
        },
        Expr::Value(v) => Leaf::Literal(v),
        Expr::Function(f) => Leaf::Call(f),
        _ => Leaf::Other,
    }
}

/// The variants of `sqlparser::ast::BinaryOperator` that the rules tell apart.
#[verifier::external_body]
fn operator_kind(op: &sqlparser::ast::BinaryOperator) -> (r: BinOp)
    ensures
        r == operator_of(*op),
{
    match op {
        BinaryOperator::And => BinOp::And,
        BinaryOperator::Or => BinOp::Or,
        BinaryOperator::Eq => BinOp::Eq,
        BinaryOperator::NotEq => BinOp::NotEq,
        BinaryOperator::Lt => BinOp::Lt,
        BinaryOperator::LtEq => BinOp::LtEq,
        BinaryOperator::Gt => BinOp::Gt,
        BinaryOperator::GtEq => BinOp::GtEq,
        _ => BinOp::Other,
    }
}

/// The variants of `sqlparser::ast::Value` that the rules tell apart: a number as it is written, a
/// single- or double-quoted string without its quotes, a boolean, NULL.
#[verifier::external_body]
fn literal_kind(v: &sqlparser::ast::ValueWithSpan) -> (r: Literal)
    ensures
        r@ == literal_of(*v),
{
    match &v.value {
        SqlValue::Number(n, _) => Literal::Number(n.clone()),
        SqlValue::SingleQuotedString(s) => Literal::Text(s.clone()),
        SqlValue::DoubleQuotedString(s) => Literal::Text(s.clone()),
        SqlValue::Boolean(b) => Literal::Boolean(*b),
        SqlValue::Null => Literal::Null,
        _ => Literal::Other,
    }
}

/// The fields of `sqlparser::ast::Function`: the rendered name, the arguments where they are a
/// list (with whether it is marked `DISTINCT`), and whether there is an `OVER` clause.
#[verifier::external_body]
fn call_layer<'a>(f: &'a sqlparser::ast::Function) -> (r: (
    String,
    Option<(bool, &'a Vec<sqlparser::ast::FunctionArg>)>,
    bool,
))
    ensures
        call_of(*f) == (CallModel {
            name: r.0@,
            listed: r.1 is Some,
            distinct: match r.1 {
                Some(list) => list.0,
                None => false,
            },
            args: match r.1 {
                Some(list) => args_of(list.1@),
                None => Seq::empty(),
            },
            windowed: r.2,
        }),
{
    let list = match &f.args {
        FunctionArguments::List(list) => {
            Some((list.duplicate_treatment == Some(DuplicateTreatment::Distinct), &list.args))
        },
        _ => None,
    };
    (f.name.to_string(), list, f.over.is_some())
}

/// The variants of `sqlparser::ast::FunctionArg` that the rules accept: an unnamed `*`, a bare
/// column, or another expression, the latter two as rendered text.
#[verifier::external_body]
fn arg_layer(a: &sqlparser::ast::FunctionArg) -> (r: Arg)
    ensures
        r@ == arg_of(*a),
{
    match a {
        FunctionArg::Unnamed(FunctionArgExpr::Wildcard) => Arg::Wildcard,
        FunctionArg::Unnamed(FunctionArgExpr::Expr(e @ Expr::Identifier(_))) => {
            Arg::Column(e.to_string())
        },
        FunctionArg::Unnamed(FunctionArgExpr::Expr(e)) => Arg::Expression(e.to_string()),
        _ => Arg::Other,
    }
}

pub open spec fn args_of(v: Seq<sqlparser::ast::FunctionArg>) -> Seq<ArgModel> {
    v.map_values(|a: sqlparser::ast::FunctionArg| arg_of(a))
}

fn read_call(f: &sqlparser::ast::Function) -> (r: Call)
    ensures
        r@ == call_of(*f),
{
    let (name, list, windowed) = call_layer(f);
    match list {
        Some((distinct, outside)) => {
            let args = map_list(outside, arg_layer);
            assert(args_model(args@) =~= args_of(outside@));
            Call { name, listed: true, distinct, args, windowed }
        },
        None => {
            let args: Vec<Arg> = Vec::new();
            assert(args_model(args@) =~= Seq::empty());
            Call { name, listed: false, distinct: false, args, windowed }
        },
    }
}

fn read_expr(e: &sqlparser::ast::Expr) -> (r: Term)
    ensures
        r.model() == expr_of(*e),
    decreases expr_of(*e),
{
    let text = expr_text(e);
    let ghost whole = expr_of(*e);
    let node = match expr_branch(e) {
        Some(Branch::Binary(l, op, right)) => {
            proof {
                assert(decreases_to!(whole => whole.node));
                assert(decreases_to!(whole => whole.node->Binary_0));
                assert(decreases_to!(whole => whole.node->Binary_2));
            }
            Node::Binary(Box::new(read_expr(l)), operator_kind(op), Box::new(read_expr(right)))
        },
        Some(Branch::Not(x)) => {
            assert(decreases_to!(whole => whole.node->Not_0));
            Node::Not(Box::new(read_expr(x)))
        },
        Some(Branch::Minus(x)) => {
            assert(decreases_to!(whole => whole.node->Minus_0));
            Node::Minus(Box::new(read_expr(x)))
        },
        Some(Branch::Nested(x)) => {
            assert(decreases_to!(whole => whole.node->Nested_0));
            Node::Nested(Box::new(read_expr(x)))
        },
        Some(Branch::IsNull(x)) => {
            assert(decreases_to!(whole => whole.node->IsNull_0));
            Node::IsNull(Box::new(read_expr(x)))
        },
        Some(Branch::IsNotNull(x)) => {
            assert(decreases_to!(whole => whole.node->IsNotNull_0));
            Node::IsNotNull(Box::new(read_expr(x)))
        },
        None => match expr_leaf(e) {
            Leaf::Identifier(s) => Node::Identifier(s),
            Leaf::Compound(parts) => Node::Compound(parts),
            Leaf::Literal(v) => Node::Literal(literal_kind(v)),
            Leaf::Call(f) => Node::Call(read_call(f)),
            Leaf::Other => Node::Other,
        },
    };
    Term { text, node }
}

fn read_exprs(v: &Vec<sqlparser::ast::Expr>) -> (r: Vec<Term>)
    ensures
        terms_model(r@) == exprs_of(v@),
{
    let out = map_list(v, read_expr);
    assert(terms_model(out@) =~= exprs_of(v@));
    out
}

fn read_option(e: Option<&sqlparser::ast::Expr>) -> (r: Option<Term>)
    ensures
        term_option(r) == expr_option(e),
{
    match e {
        Some(e) => Some(read_expr(e)),
        None => None,
    }
}

// ---- walks -------------------------------------------------------------------------------------

/// `sqlparser::ast::visit_expressions` over an expression: every expression it meets, in order.
#[verifier::external_body]
fn walk_expr(e: &sqlparser::ast::Expr) -> (r: Vec<sqlparser::ast::Expr>)
    ensures
        r@ == walk_of_expr(*e),
{
    let mut out = Vec::new();
    let _ = visit_expressions(e, |x| {
        out.push(x.clone());
        ControlFlow::<()>::Continue(())
    });
    out
}

/// `sqlparser::ast::visit_expressions` over a query: every expression it meets, in order.
#[verifier::external_body]
fn walk_query(q: &sqlparser::ast::Query) -> (r: Vec<sqlparser::ast::Expr>)
    ensures
        mentions_of(r@) == query_of(*q).mentions,
{
    let mut out = Vec::new();
    let _ = visit_expressions(q, |x| {
        out.push(x.clone());
        ControlFlow::<()>::Continue(())
    });
    out
}

/// The calls among expressions, in order.
pub open spec fn calls_among(v: Seq<TermModel>, n: nat) -> Seq<CallMentionModel>
    decreases n,
{
    if n == 0 || n > v.len() {
        Seq::empty()
    } else {
        let before = calls_among(v, (n - 1) as nat);
        match v[n - 1].node {
            NodeModel::Call(c) => before.push(
                CallMentionModel { name: c.name, distinct: c.distinct },
            ),
            _ => before,
        }
    }
}

/// The calls that a walk of an expression meets.
pub open spec fn calls_in(e: sqlparser::ast::Expr) -> Seq<CallMentionModel> {
    let all = exprs_of(walk_of_expr(e));
    calls_among(all, all.len())
}

#[verifier::loop_isolation(false)]
fn read_calls(e: &sqlparser::ast::Expr) -> (r: Vec<CallMention>)
    ensures
        calls_model(r@) == calls_in(*e),
{
    let all = walk_expr(e);
    let ghost model = exprs_of(all@);
    let mut out: Vec<CallMention> = Vec::new();
    let mut i: usize = 0;
    assert(calls_model(out@) =~= Seq::empty());
    while i < all.len()
        invariant
            i <= all@.len(),
            calls_model(out@) == calls_among(model, i as nat),
        decreases all@.len() - i,
    {
        assert(model[i as int] == expr_of(all@[i as int]));
        if expr_branch(&all[i]).is_none() {
            if let Leaf::Call(f) = expr_leaf(&all[i]) {
                let call = read_call(f);
                let ghost before = out@;
                out.push(CallMention { name: call.name, distinct: call.distinct });
                assert(calls_model(out@) =~= calls_model(before).push(
                    CallMentionModel { name: call@.name, distinct: call@.distinct },
                ));
            }
        }
        i = i + 1;
    }
    out
}

/// The variants of `sqlparser::ast::Expr` that the walk of a query tells apart: a column (the
/// value of the last part of its name), `ANY` and `ALL`, and the subqueries that stand for a
/// value, a list or a boolean.
#[verifier::external_body]
fn mention_layer(e: &sqlparser::ast::Expr) -> (r: Mention)
    ensures
        r@ == mention_of(*e),
{
    match e {
        Expr::Identifier(id) => Mention::Column(id.value.clone()),
        Expr::CompoundIdentifier(ids) => match ids.last() {
            Some(id) => Mention::Column(id.value.clone()),
            None => Mention::Other,
        },
        Expr::AnyOp { .. } | Expr::AllOp { .. } => Mention::Quantified,
        Expr::Subquery(_) | Expr::InSubquery { .. } | Expr::Exists { .. } => Mention::Subquery,
        _ => Mention::Other,
    }
}

pub open spec fn mentions_of(v: Seq<sqlparser::ast::Expr>) -> Seq<MentionModel> {
    v.map_values(|e: sqlparser::ast::Expr| mention_of(e))
}

fn read_mentions(q: &sqlparser::ast::Query) -> (r: Vec<Mention>)
    ensures
        mentions_model(r@) == query_of(*q).mentions,
{
    let all = walk_query(q);
    let out = map_list(&all, mention_layer);
    assert(mentions_model(out@) =~= mentions_of(all@));
    out
}

// ---- FROM --------------------------------------------------------------------------------------

/// `sqlparser::ast::ObjectName`: its rendered text, and the value of its last identifier (empty
/// where its last part is none).
#[verifier::external_body]
fn name_layer(n: &sqlparser::ast::ObjectName) -> (r: (String, String))
    ensures
        (r.0@, r.1@) == name_of(*n),
{
    let last = n.0.last().and_then(|p| p.as_ident()).map(|i| i.value.clone());
    (n.to_string(), last.unwrap_or_default())
}

enum SourceLayer<'a> {
    Table(&'a sqlparser::ast::ObjectName, Option<String>),
    Derived(String, Option<String>),
    Other,
}

/// The variants of `sqlparser::ast::TableFactor` that the rules tell apart: a named table and a
/// derived table (its inner query as rendered text), each with the value of its alias.
#[verifier::external_body]
fn source_layer<'a>(t: &'a sqlparser::ast::TableFactor) -> (r: SourceLayer<'a>)
    ensures
        match r {
            SourceLayer::Table(n, alias) => source_of(*t) == (SourceModel::Table {
                name: name_of(*n).0,
                ident: name_of(*n).1,
                alias: text_option(alias),
            }),
            SourceLayer::Derived(sql, alias) => source_of(*t) == (SourceModel::Derived {
                sql: sql@,
                alias: text_option(alias),
            }),
            SourceLayer::Other => source_of(*t) == SourceModel::Other,
        },
{
    match t {
        TableFactor::Table { name, alias, .. } => {
            SourceLayer::Table(name, alias.as_ref().map(|a| a.name.value.clone()))
        },
        TableFactor::Derived { subquery, alias, .. } => {
            let alias = alias.as_ref().map(|a| a.name.value.clone());
            SourceLayer::Derived(subquery.to_string(), alias)
        },
        _ => SourceLayer::Other,
    }
}

fn read_source(t: &sqlparser::ast::TableFactor) -> (r: Source)
    ensures
        r@ == source_of(*t),
{
    match source_layer(t) {
        SourceLayer::Table(n, alias) => {
            let (name, ident) = name_layer(n);
            Source::Table { name, ident, alias }
        },
        SourceLayer::Derived(sql, alias) => Source::Derived { sql, alias },
        SourceLayer::Other => Source::Other,
    }
}

enum OnLayer<'a> {
    On(&'a sqlparser::ast::Expr),
    Constraint,
    Operator,
}

/// The fields of `sqlparser::ast::Join`: its relation, and the `ON` condition of an inner or outer
/// join. Such a join with another constraint is `Constraint`, any other join operator `Operator`.
#[verifier::external_body]
fn join_layer<'a>(j: &'a sqlparser::ast::Join) -> (r: (
    &'a sqlparser::ast::TableFactor,
    OnLayer<'a>,
))
    ensures
        join_of(*j) == (JoinModel {
            source: source_of(*r.0),
            on: match r.1 {
                OnLayer::On(e) => JoinOnModel::On(expr_of(*e)),
                OnLayer::Constraint => JoinOnModel::Constraint,
                OnLayer::Operator => JoinOnModel::Operator,
            },
        }),
{
    let on = match &j.join_operator {
        JoinOperator::Join(c) | JoinOperator::Inner(c) | JoinOperator::Left(c)
        | JoinOperator::LeftOuter(c) | JoinOperator::Right(c) | JoinOperator::RightOuter(c)
        | JoinOperator::FullOuter(c) => match c {
            JoinConstraint::On(e) => OnLayer::On(e),
            _ => OnLayer::Constraint,
        },
        _ => OnLayer::Operator,
    };
    (&j.relation, on)
}

fn read_join(j: &sqlparser::ast::Join) -> (r: JoinTree)
    ensures
        r@ == join_of(*j),
{
    let (relation, on) = join_layer(j);
    let source = read_source(relation);
    let on = match on {
        OnLayer::On(e) => JoinOn::On(read_expr(e)),
        OnLayer::Constraint => JoinOn::Constraint,
        OnLayer::Operator => JoinOn::Operator,
    };
    JoinTree { source, on }
}

pub open spec fn joins_of(v: Seq<sqlparser::ast::Join>) -> Seq<JoinModel> {
    v.map_values(|j: sqlparser::ast::Join| join_of(j))
}

/// The fields of `sqlparser::ast::TableWithJoins`, and its rendered text.
#[verifier::external_body]
fn from_layer<'a>(t: &'a sqlparser::ast::TableWithJoins) -> (r: (
    String,
    &'a sqlparser::ast::TableFactor,
    &'a Vec<sqlparser::ast::Join>,
))
    ensures
        from_of(*t) == (FromModel {
            text: r.0@,
            source: source_of(*r.1),
            joins: joins_of(r.2@),
        }),
        *r.1 == relation_within(*t),
{
    (t.to_string(), &t.relation, &t.joins)
}

fn read_from_item(t: &sqlparser::ast::TableWithJoins) -> (r: FromItem)
    ensures
        r@ == from_of(*t),
{
    let (text, relation, outside) = from_layer(t);
    let source = read_source(relation);
    let joins = map_list(outside, read_join);
    assert(joins_model(joins@) =~= joins_of(outside@));
    FromItem { text, source, joins }
}

pub open spec fn from_list_of(v: Seq<sqlparser::ast::TableWithJoins>) -> Seq<FromModel> {
    v.map_values(|t: sqlparser::ast::TableWithJoins| from_of(t))
}

fn read_from(v: &Vec<sqlparser::ast::TableWithJoins>) -> (r: Vec<FromItem>)
    ensures
        from_model(r@) == from_list_of(v@),
{
    let out = map_list(v, read_from_item);
    assert(from_model(out@) =~= from_list_of(v@));
    out
}

// ---- SELECT ------------------------------------------------------------------------------------

enum ItemLayer<'a> {
    Term(&'a sqlparser::ast::Expr, Option<String>),
    Wildcard,
    Aliases,
}

/// The variants of `sqlparser::ast::SelectItem`: an expression with the value of its alias, a
/// wildcard, and an expression with a list of aliases.
#[verifier::external_body]
fn item_layer<'a>(i: &'a sqlparser::ast::SelectItem) -> (r: ItemLayer<'a>)
    ensures
        match r {
            ItemLayer::Term(e, alias) => item_of(*i) == (ItemModel::Term {
                term: expr_of(*e),
                alias: text_option(alias),
                calls: calls_in(*e),
            }),
            ItemLayer::Wildcard => item_of(*i) == ItemModel::Wildcard,
            ItemLayer::Aliases => item_of(*i) == ItemModel::Aliases,
        },
{
    match i {
        SelectItem::UnnamedExpr(e) => ItemLayer::Term(e, None),
        SelectItem::ExprWithAlias { expr, alias } => {
            ItemLayer::Term(expr, Some(alias.value.clone()))
        },
        SelectItem::Wildcard(_) | SelectItem::QualifiedWildcard(..) => ItemLayer::Wildcard,
        SelectItem::ExprWithAliases { .. } => ItemLayer::Aliases,
    }
}

fn read_item(i: &sqlparser::ast::SelectItem) -> (r: Item)
    ensures
        r@ == item_of(*i),
{
    match item_layer(i) {
        ItemLayer::Term(e, alias) => {
            let calls = read_calls(e);
            Item::Term { term: read_expr(e), alias, calls }
        },
        ItemLayer::Wildcard => Item::Wildcard,
        ItemLayer::Aliases => Item::Aliases,
    }
}

pub open spec fn items_of(v: Seq<sqlparser::ast::SelectItem>) -> Seq<ItemModel> {
    v.map_values(|i: sqlparser::ast::SelectItem| item_of(i))
}

/// The fields of `sqlparser::ast::Select` that the rules read, and its rendered text.
struct SelectLayer<'a> {
    text: String,
    projection: &'a Vec<sqlparser::ast::SelectItem>,
    from: &'a Vec<sqlparser::ast::TableWithJoins>,
    selection: Option<&'a sqlparser::ast::Expr>,
    having: Option<&'a sqlparser::ast::Expr>,
}

/// The fields of `sqlparser::ast::Select`, each as it stands, and its rendered text.
#[verifier::external_body]
fn select_layer<'a>(s: &'a sqlparser::ast::Select) -> (r: SelectLayer<'a>)
    ensures
        select_of(*s).text == r.text@,
        select_of(*s).projection == items_of(r.projection@),
        select_of(*s).from == from_list_of(r.from@),
        r.from@ == from_within(*s),
        select_of(*s).selection == expr_option(r.selection),
        select_of(*s).having == (match r.having {
            Some(e) => Some(HavingModel { term: expr_of(*e), calls: calls_in(*e) }),
            None => None,
        }),
{
    SelectLayer {
        text: s.to_string(),
        projection: &s.projection,
        from: &s.from,
        selection: s.selection.as_ref(),
        having: s.having.as_ref(),
    }
}

/// The `distinct` field of `sqlparser::ast::Select`.
#[verifier::external_body]
fn select_distinct(s: &sqlparser::ast::Select) -> (r: DistinctKind)
    ensures
        r == select_of(*s).distinct,
{
    match &s.distinct {
        None => DistinctKind::Absent,
        Some(Distinct::On(_)) => DistinctKind::On,
        Some(_) => DistinctKind::Rows,
    }
}

/// The `group_by` field of `sqlparser::ast::Select`: `None` for `GROUP BY ALL`, else the
/// expressions and whether a modifier follows them.
#[verifier::external_body]
fn select_groups<'a>(s: &'a sqlparser::ast::Select) -> (r: Option<
    (&'a Vec<sqlparser::ast::Expr>, bool),
>)
    ensures
        select_of(*s).group_by == (match r {
            None => GroupByModel::All,
            Some((terms, modified)) => GroupByModel::Terms { terms: exprs_of(terms@), modified },
        }),
{
    match &s.group_by {
        GroupByExpr::All(_) => None,
        GroupByExpr::Expressions(terms, modifiers) => Some((terms, !modifiers.is_empty())),
    }
}

fn read_select(s: &sqlparser::ast::Select) -> (r: SelectTree)
    ensures
        r@ == select_of(*s),
{
    let layer = select_layer(s);
    let projection = map_list(layer.projection, read_item);
    assert(items_model(projection@) =~= items_of(layer.projection@));
    let from = read_from(layer.from);
    let selection = read_option(layer.selection);
    let group_by = match select_groups(s) {
        None => GroupBy::All,
        Some((terms, modified)) => GroupBy::Terms { terms: read_exprs(terms), modified },
    };
    let having = match layer.having {
        Some(e) => {
            let calls = read_calls(e);
            Some(Having { term: read_expr(e), calls })
        },
        None => None,
    };
    SelectTree {
        text: layer.text,
        distinct: select_distinct(s),
        projection,
        from,
        selection,
        group_by,
        having,
    }
}

// ---- queries -----------------------------------------------------------------------------------

enum BodyLayer<'a> {
    Select(&'a sqlparser::ast::Select),
    Operation(SetKind, Quantifier, &'a sqlparser::ast::SetExpr, &'a sqlparser::ast::SetExpr),
    Other,
}

/// The variants of `sqlparser::ast::SetExpr` that a fan-out reads: a select, and a set operation
/// with its operands. `MINUS` is `EXCEPT`.
#[verifier::external_body]
fn body_layer<'a>(b: &'a sqlparser::ast::SetExpr) -> (r: BodyLayer<'a>)
    ensures
        match r {
            BodyLayer::Select(s) => body_of(*b) == BodyModel::Select(Box::new(select_of(*s))) && *s
                == select_within(*b),
            BodyLayer::Operation(op, quantifier, left, right) => body_of(*b)
                == (BodyModel::Operation {
                op,
                quantifier,
                left: Box::new(body_of(*left)),
                right: Box::new(body_of(*right)),
            }),
            BodyLayer::Other => body_of(*b) == BodyModel::Other,
        },
{
    let SetExpr::SetOperation { op, set_quantifier, left, right } = b else {
        return b.as_select().map_or(BodyLayer::Other, BodyLayer::Select);
    };
    let kind = match op {
        SetOperator::Union => SetKind::Union,
        SetOperator::Intersect => SetKind::Intersect,
        SetOperator::Except | SetOperator::Minus => SetKind::Except,
    };
    let quantifier = match set_quantifier {
        SetQuantifier::All => Quantifier::All,
        SetQuantifier::Distinct | SetQuantifier::None => Quantifier::Distinct,
        _ => Quantifier::ByName,
    };
    BodyLayer::Operation(kind, quantifier, left, right)
}

fn read_body(b: &sqlparser::ast::SetExpr) -> (r: Body)
    ensures
        r.model() == body_of(*b),
    decreases body_of(*b),
{
    let ghost whole = body_of(*b);
    match body_layer(b) {
        BodyLayer::Select(s) => Body::Select(Box::new(read_select(s))),
        BodyLayer::Operation(op, quantifier, left, right) => {
            proof {
                assert(decreases_to!(whole => whole->left));
                assert(decreases_to!(whole => whole->right));
            }
            Body::Operation {
                op,
                quantifier,
                left: Box::new(read_body(left)),
                right: Box::new(read_body(right)),
            }
        },
        BodyLayer::Other => Body::Other,
    }
}

pub open spec fn order_terms_of(v: Seq<sqlparser::ast::OrderByExpr>) -> Seq<OrderTermModel> {
    v.map_values(|o: sqlparser::ast::OrderByExpr| order_term_of(o))
}

/// The fields of `sqlparser::ast::OrderByExpr` that the rules read: the expression, and the sort
/// direction and place of NULLs where they are written.
#[verifier::external_body]
fn order_term_layer<'a>(o: &'a sqlparser::ast::OrderByExpr) -> (r: (
    &'a sqlparser::ast::Expr,
    Option<bool>,
    Option<bool>,
))
    ensures
        order_term_of(*o) == (OrderTermModel {
            term: expr_of(*r.0),
            ascending: r.1,
            nulls_first: r.2,
        }),
{
    (&o.expr, o.options.asc, o.options.nulls_first)
}

/// `sqlparser::ast::OrderBy`: its rendered text, and its terms unless it is `ORDER BY ALL`.
#[verifier::external_body]
fn order_layer<'a>(o: &'a sqlparser::ast::OrderBy) -> (r: (
    String,
    Option<&'a Vec<sqlparser::ast::OrderByExpr>>,
))
    ensures
        order_of(*o) == (OrderByModel {
            text: r.0@,
            terms: match r.1 {
                Some(terms) => Some(order_terms_of(terms@)),
                None => None,
            },
        }),
{
    let terms = match &o.kind {
        OrderByKind::Expressions(terms) => Some(terms),
        OrderByKind::All(_) => None,
    };
    (o.to_string(), terms)
}

fn read_order_term(o: &sqlparser::ast::OrderByExpr) -> (r: OrderTerm)
    ensures
        r@ == order_term_of(*o),
{
    let (e, ascending, nulls_first) = order_term_layer(o);
    OrderTerm { term: read_expr(e), ascending, nulls_first }
}

fn read_order(o: &sqlparser::ast::OrderBy) -> (r: OrderTree)
    ensures
        r@ == order_of(*o),
{
    let (text, terms) = order_layer(o);
    match terms {
        None => OrderTree { text, terms: None },
        Some(outside) => {
            let list = map_list(outside, read_order_term);
            assert(order_terms_model(list@) =~= order_terms_of(outside@));
            OrderTree { text, terms: Some(list) }
        },
    }
}

enum LimitLayer<'a> {
    Absent,
    Rows(Option<&'a sqlparser::ast::Expr>, Option<&'a sqlparser::ast::Expr>),
    Other,
}

/// The `limit_clause` field of `sqlparser::ast::Query`: the row count and the offset of the
/// standard form, each where it is written, or another form.
#[verifier::external_body]
fn limit_layer<'a>(q: &'a sqlparser::ast::Query) -> (r: LimitLayer<'a>)
    ensures
        query_of(*q).limit == (match r {
            LimitLayer::Absent => None,
            LimitLayer::Rows(limit, offset) => Some(
                LimitModel::Rows { limit: expr_option(limit), offset: expr_option(offset) },
            ),
            LimitLayer::Other => Some(LimitModel::Other),
        }),
{
    match &q.limit_clause {
        None => LimitLayer::Absent,
        Some(LimitClause::LimitOffset { limit, offset, .. }) => {
            LimitLayer::Rows(limit.as_ref(), offset.as_ref().map(|o| &o.value))
        },
        Some(_) => LimitLayer::Other,
    }
}

struct QueryLayer<'a> {
    with: bool,
    fetch: bool,
    body: &'a sqlparser::ast::SetExpr,
    order_by: Option<&'a sqlparser::ast::OrderBy>,
}

/// The fields of `sqlparser::ast::Query` that the rules read.
#[verifier::external_body]
fn query_layer<'a>(q: &'a sqlparser::ast::Query) -> (r: QueryLayer<'a>)
    ensures
        query_of(*q).with == r.with,
        query_of(*q).fetch == r.fetch,
        query_of(*q).body == body_of(*r.body),
        *r.body == body_within(*q),
        query_of(*q).order_by == (match r.order_by {
            Some(o) => Some(order_of(*o)),
            None => None,
        }),
{
    QueryLayer {
        with: q.with.is_some(),
        fetch: q.fetch.is_some(),
        body: &q.body,
        order_by: q.order_by.as_ref(),
    }
}

/// `sqlparser::ast::Query`'s `Display`: the text that the query renders to.
#[verifier::external_body]
pub(crate) fn query_text(q: &sqlparser::ast::Query) -> (r: String)
    ensures
        r@ == query_of(*q).text,
{
    q.to_string()
}

/// `Clone` of `sqlparser::ast::Query`: the same query, to be changed.
#[verifier::external_body]
fn query_copy(q: &sqlparser::ast::Query) -> (r: sqlparser::ast::Query)
    ensures
        r == *q,
{
    q.clone()
}

/// Whether a query is another one without its `LIMIT` clause.
pub open spec fn limit_cleared(before: QueryModel, after: QueryModel) -> bool {
    &&& after.limit is None
    &&& after.with == before.with
    &&& after.fetch == before.fetch
    &&& after.body == before.body
    &&& after.order_by == before.order_by
}

/// The field `limit_clause` of `sqlparser::ast::Query`, set to none. The other fields stay.
#[verifier::external_body]
fn clear_limit(q: &mut sqlparser::ast::Query)
    ensures
        *final(q) == without_limit(*old(q)),
        limit_cleared(query_of(*old(q)), query_of(*final(q))),
{
    q.limit_clause = None;
}

/// Whether a query is another one without the duplicate treatment of its select.
pub open spec fn distinct_cleared(before: QueryModel, after: QueryModel) -> bool {
    &&& after.with == before.with
    &&& after.fetch == before.fetch
    &&& after.order_by == before.order_by
    &&& after.limit == before.limit
    &&& before.body matches BodyModel::Select(s)
    &&& after.body matches BodyModel::Select(t)
    &&& *t == (SelectModel { text: t.text, distinct: DistinctKind::Absent, ..*s })
}

/// The field `distinct` of the `sqlparser::ast::Select` that a query's body is, set to none. The
/// other fields stay.
#[verifier::external_body]
fn clear_distinct(q: &mut sqlparser::ast::Query)
    requires
        query_of(*old(q)).body is Select,
    ensures
        *final(q) == without_distinct(*old(q)),
        distinct_cleared(query_of(*old(q)), query_of(*final(q))),
{
    if let SetExpr::Select(select) = q.body.as_mut() {
        select.distinct = None;
    }
}

/// The query without the duplicate treatment of its select, where it has a select.
pub open spec fn plain_query(q: sqlparser::ast::Query) -> sqlparser::ast::Query {
    if query_of(q).body is Select {
        without_distinct(q)
    } else {
        q
    }
}

// ---- relations by their names ------------------------------------------------------------------

/// `Clone` of `sqlparser::ast::TableFactor`: the same relation.
#[verifier::external_body]
fn relation_copy(t: &sqlparser::ast::TableFactor) -> (r: sqlparser::ast::TableFactor)
    ensures
        r == *t,
{
    t.clone()
}

/// The query that a reference to a table is taken from.
pub open spec fn donor_sql(name: Seq<char>) -> Seq<char> {
    "SELECT 1 FROM "@ + quoted(name)
}

/// A reference to a table: the first relation of a query made for it. `None` where the query is
/// not read as one with a relation.
pub open spec fn table_named(name: Seq<char>) -> Option<sqlparser::ast::TableFactor> {
    match statements_of(donor_sql(name)) {
        Err(_) => None,
        Ok(all) => if all.len() == 0 || !(sql_of(all[0]) is Query) {
            None
        } else {
            let q = query_within(all[0]);
            match query_of(q).body {
                BodyModel::Select(s) => if s.from.len() == 0 {
                    None
                } else {
                    Some(relation_within(from_within(select_within(body_within(q)))[0]))
                },
                _ => None,
            }
        },
    }
}

/// A reference to the table of a name. The name is quoted, so that any identifier will do.
fn named_table(name: &str) -> (r: Option<sqlparser::ast::TableFactor>)
    ensures
        r == table_named(name@),
{
    let mut sql = "SELECT 1 FROM ".to_owned();
    sql.append(quote_ident(name).as_str());
    assert(sql@ =~= donor_sql(name@));
    let mut statements = match parse_statements(sql.as_str()) {
        Ok(v) => v,
        Err(_) => {
            return None;
        },
    };
    if statements.len() == 0 {
        return None;
    }
    let query = match statement_layer(statements.remove(0)) {
        Parsed::Query(q) => q,
        _ => {
            return None;
        },
    };
    let layer = query_layer(&query);
    let select = match body_layer(layer.body) {
        BodyLayer::Select(s) => s,
        _ => {
            return None;
        },
    };
    let from = select_layer(select).from;
    if from.len() == 0 {
        return None;
    }
    let (_, relation, _) = from_layer(&from[0]);
    Some(relation_copy(relation))
}

/// Whether a query has a relation at a place of its `FROM`.
pub open spec fn has_place(q: QueryModel, table: int, join: Option<int>) -> bool {
    &&& q.body matches BodyModel::Select(s)
    &&& 0 <= table < s.from.len()
    &&& join matches Some(k) ==> 0 <= k < s.from[table].joins.len()
}

/// Whether the items of a `FROM` are those of another but for one source, which is `source`.
pub open spec fn source_changed(
    before: Seq<FromModel>,
    after: Seq<FromModel>,
    table: int,
    join: Option<int>,
    source: SourceModel,
) -> bool {
    &&& after.len() == before.len()
    &&& forall|i: int| 0 <= i < after.len() && i != table ==> #[trigger] after[i] == before[i]
    &&& after[table].source == (if join is None {
        source
    } else {
        before[table].source
    })
    &&& after[table].joins.len() == before[table].joins.len()
    &&& forall|k: int|
        0 <= k < after[table].joins.len() ==> #[trigger] after[table].joins[k] == (if join == Some(
            k,
        ) {
            JoinModel { source, on: before[table].joins[k].on }
        } else {
            before[table].joins[k]
        })
}

/// Whether a query is another one with other items in its `FROM`.
pub open spec fn only_from_changed(before: QueryModel, after: QueryModel) -> bool {
    &&& after.with == before.with
    &&& after.fetch == before.fetch
    &&& after.order_by == before.order_by
    &&& after.limit == before.limit
    &&& before.body matches BodyModel::Select(s)
    &&& after.body matches BodyModel::Select(t)
    &&& *t == (SelectModel { text: t.text, from: t.from, ..*s })
}

pub open spec fn from_items(q: QueryModel) -> Seq<FromModel> {
    q.body->Select_0.from
}

pub open spec fn place_of(join: Option<usize>) -> Option<int> {
    match join {
        Some(k) => Some(k as int),
        None => None,
    }
}

/// The field `relation` of an item of the `from` of a query's select, or of one of the item's
/// joins, set. All else stays.
#[verifier::external_body]
fn set_relation(
    q: &mut sqlparser::ast::Query,
    table: usize,
    join: Option<usize>,
    t: sqlparser::ast::TableFactor,
)
    requires
        has_place(query_of(*old(q)), table as int, place_of(join)),
    ensures
        *final(q) == with_relation(*old(q), table as int, place_of(join), t),
        only_from_changed(query_of(*old(q)), query_of(*final(q))),
        source_changed(
            from_items(query_of(*old(q))),
            from_items(query_of(*final(q))),
            table as int,
            place_of(join),
            source_of(t),
        ),
{
    if let SetExpr::Select(select) = q.body.as_mut() {
        let item = &mut select.from[table];
        match join {
            None => item.relation = t,
            Some(k) => item.joins[k].relation = t,
        }
    }
}

/// What stands for a source over materialised sources: a reference to the table of its alias,
/// where it is a derived table that has one.
pub open spec fn named_source(source: SourceModel) -> SourceModel {
    match source {
        SourceModel::Derived { alias: Some(name), .. } => match table_named(name) {
            Some(t) => source_of(t),
            None => source,
        },
        _ => source,
    }
}

/// The query with one relation replaced by a reference to a table of its alias, where it is a
/// derived table that has one.
pub open spec fn named_relation(
    q: sqlparser::ast::Query,
    source: SourceModel,
    table: int,
    join: Option<int>,
) -> sqlparser::ast::Query {
    match source {
        SourceModel::Derived { alias: Some(name), .. } => match table_named(name) {
            Some(t) => with_relation(q, table, join, t),
            None => q,
        },
        _ => q,
    }
}

/// The query with the derived tables among the first `n` joins of an item replaced.
pub open spec fn named_joins(
    q: sqlparser::ast::Query,
    joins: Seq<JoinModel>,
    table: int,
    n: nat,
) -> sqlparser::ast::Query
    decreases n,
{
    if n == 0 || n > joins.len() {
        q
    } else {
        named_relation(
            named_joins(q, joins, table, (n - 1) as nat),
            joins[n - 1].source,
            table,
            Some(n - 1),
        )
    }
}

/// The query with the derived tables of the first `n` items of a `FROM` replaced.
pub open spec fn named_from(
    q: sqlparser::ast::Query,
    from: Seq<FromModel>,
    n: nat,
) -> sqlparser::ast::Query
    decreases n,
{
    if n == 0 || n > from.len() {
        q
    } else {
        let item = from[n - 1];
        named_joins(
            named_relation(named_from(q, from, (n - 1) as nat), item.source, n - 1, None),
            item.joins,
            n - 1,
            item.joins.len(),
        )
    }
}

/// The query as it is run over materialised sources.
pub open spec fn central_query(q: sqlparser::ast::Query) -> sqlparser::ast::Query {
    match query_of(q).body {
        BodyModel::Select(s) => named_from(q, s.from, s.from.len()),
        _ => q,
    }
}

/// Whether the items of a `FROM` are those of another with named sources in the first `n`, and,
/// where the next is begun, in its own place and its first `k` joins.
pub open spec fn named_so_far(
    before: Seq<FromModel>,
    after: Seq<FromModel>,
    n: int,
    begun: bool,
    k: int,
) -> bool {
    &&& after.len() == before.len()
    &&& forall|t: int|
        0 <= t < after.len() ==> (#[trigger] after[t]).source == (if t < n || (t == n && begun) {
            named_source(before[t].source)
        } else {
            before[t].source
        })
    &&& forall|t: int|
        0 <= t < after.len() ==> (#[trigger] after[t]).joins.len() == before[t].joins.len()
    &&& forall|t: int, j: int|
        0 <= t < after.len() && 0 <= j < after[t].joins.len() ==> (#[trigger] after[t].joins[j])
            == (JoinModel {
            source: if t < n || (t == n && begun && j < k) {
                named_source(before[t].joins[j].source)
            } else {
                before[t].joins[j].source
            },
            on: before[t].joins[j].on,
        })
}

/// Whether a query is another one with every aliased derived table of its `FROM` replaced by a
/// reference to a table of that name.
pub open spec fn sources_named(before: QueryModel, after: QueryModel) -> bool {
    &&& only_from_changed(before, after)
    &&& named_so_far(from_items(before), from_items(after), from_items(before).len() as int, false, 0)
}

fn name_source(
    q: &mut sqlparser::ast::Query,
    source: &Source,
    table: usize,
    join: Option<usize>,
)
    requires
        has_place(query_of(*old(q)), table as int, place_of(join)),
        source@ == (match join {
            None => from_items(query_of(*old(q)))[table as int].source,
            Some(k) => from_items(query_of(*old(q)))[table as int].joins[k as int].source,
        }),
    ensures
        *final(q) == named_relation(*old(q), source@, table as int, place_of(join)),
        only_from_changed(query_of(*old(q)), query_of(*final(q))),
        source_changed(
            from_items(query_of(*old(q))),
            from_items(query_of(*final(q))),
            table as int,
            place_of(join),
            named_source(source@),
        ),
{
    match source {
        Source::Derived { alias: Some(name), .. } => {
            if let Some(t) = named_table(name.as_str()) {
                set_relation(q, table, join, t);
            }
        },
        _ => {},
    }
}

/// The query's text over materialised sources.
#[verifier::loop_isolation(false)]
fn central_sql(q: &sqlparser::ast::Query, body: &Body) -> (r: String)
    requires
        body.model() == query_of(*q).body,
    ensures
        r@ == query_of(central_query(*q)).text,
        query_of(*q).body is Select ==> sources_named(
            query_of(*q),
            query_of(central_query(*q)),
        ),
{
    let mut central = query_copy(q);
    if let Body::Select(select) = body {
        let from = &select.from;
        let ghost model = from_model(from@);
        assert(query_of(*q).body->Select_0.from == model);
        let mut i: usize = 0;
        while i < from.len()
            invariant
                i <= from@.len(),
                central == named_from(*q, model, i as nat),
                only_from_changed(query_of(*q), query_of(central)),
                named_so_far(model, from_items(query_of(central)), i as int, false, 0),
            decreases from@.len() - i,
        {
            assert(model[i as int] == from@[i as int]@);
            name_source(&mut central, &from[i].source, i, None);
            let ghost base = central;
            let joins = &from[i].joins;
            let ghost joined = joins_model(joins@);
            assert(named_so_far(model, from_items(query_of(central)), i as int, true, 0));
            let mut k: usize = 0;
            while k < joins.len()
                invariant
                    k <= joins@.len(),
                    central == named_joins(base, joined, i as int, k as nat),
                    only_from_changed(query_of(*q), query_of(central)),
                    named_so_far(model, from_items(query_of(central)), i as int, true, k as int),
                decreases joins@.len() - k,
            {
                assert(joined[k as int] == joins@[k as int]@);
                name_source(&mut central, &joins[k].source, i, Some(k));
                k = k + 1;
            }
            i = i + 1;
        }
    }
    query_text(&central)
}

/// What a `Query` holds, with the texts that it has without its limit, without its duplicate
/// treatment, and over materialised sources.
pub open spec fn with_texts(q: sqlparser::ast::Query) -> QueryModel {
    QueryModel {
        unlimited: query_of(without_limit(q)).text,
        plain: query_of(plain_query(q)).text,
        central: query_of(central_query(q)).text,
        ..query_of(q)
    }
}

/// Whether the queries whose texts a query is read with are what they are said to be.
pub open spec fn rewritings_hold(q: sqlparser::ast::Query) -> bool {
    &&& limit_cleared(query_of(q), query_of(without_limit(q)))
    &&& query_of(q).body is Select ==> distinct_cleared(query_of(q), query_of(plain_query(q)))
    &&& query_of(q).body is Select ==> sources_named(query_of(q), query_of(central_query(q)))
}

fn read_query(q: &sqlparser::ast::Query) -> (r: QueryTree)
    ensures
        r@ == with_texts(*q),
        rewritings_hold(*q),
{
    let layer = query_layer(q);
    let body = read_body(layer.body);
    let central = central_sql(q, &body);
    let mut bare = query_copy(q);
    clear_limit(&mut bare);
    let mut plain = query_copy(q);
    if let Body::Select(_) = &body {
        clear_distinct(&mut plain);
    }
    let order_by = match layer.order_by {
        Some(o) => Some(read_order(o)),
        None => None,
    };
    let limit = match limit_layer(q) {
        LimitLayer::Absent => None,
        LimitLayer::Rows(limit, offset) => Some(
            Limit::Rows { limit: read_option(limit), offset: read_option(offset) },
        ),
        LimitLayer::Other => Some(Limit::Other),
    };
    QueryTree {
        text: query_text(q),
        unlimited: query_text(&bare),
        plain: query_text(&plain),
        central,
        with: layer.with,
        fetch: layer.fetch,
        body,
        order_by,
        limit,
        mentions: read_mentions(q),
    }
}

// ---- INSERT, UPDATE, DELETE --------------------------------------------------------------------

pub open spec fn idents_of(v: Seq<sqlparser::ast::ObjectName>) -> Seq<Seq<char>> {
    v.map_values(|n: sqlparser::ast::ObjectName| name_of(n).1)
}

fn last_ident(n: &sqlparser::ast::ObjectName) -> (r: String)
    ensures
        r@ == name_of(*n).1,
{
    name_layer(n).1
}

fn read_idents(v: &Vec<sqlparser::ast::ObjectName>) -> (r: Vec<String>)
    ensures
        views(r@) == idents_of(v@),
{
    let out = map_list(v, last_ident);
    assert(views(out@) =~= idents_of(v@));
    out
}

enum RowsLayer<'a> {
    Missing,
    Values(Vec<&'a Vec<sqlparser::ast::Expr>>),
    Query,
}

pub open spec fn value_rows_of(rows: Seq<&Vec<sqlparser::ast::Expr>>) -> Seq<Seq<TermModel>> {
    rows.map_values(|r: &Vec<sqlparser::ast::Expr>| exprs_of(r@))
}

pub open spec fn row_refs(rows: Seq<&Vec<sqlparser::ast::Expr>>) -> Seq<Seq<sqlparser::ast::Expr>> {
    rows.map_values(|r: &Vec<sqlparser::ast::Expr>| r@)
}

pub open spec fn rows_view_of(rows: Seq<Vec<sqlparser::ast::Expr>>) -> Seq<Seq<sqlparser::ast::Expr>> {
    rows.map_values(|r: Vec<sqlparser::ast::Expr>| r@)
}

pub open spec fn rows_of(rows: Seq<Seq<sqlparser::ast::Expr>>) -> Seq<Seq<TermModel>> {
    rows.map_values(|r: Seq<sqlparser::ast::Expr>| exprs_of(r))
}

/// The fields of `sqlparser::ast::Insert` that the rules read: the table's name where the target
/// is a table, the column names, and the rows where the source is a `VALUES` list.
#[verifier::external_body]
fn insert_layer<'a>(i: &'a sqlparser::ast::Insert) -> (r: (
    Option<&'a sqlparser::ast::ObjectName>,
    &'a Vec<sqlparser::ast::ObjectName>,
    RowsLayer<'a>,
))
    ensures
        insert_of(*i) == (InsertModel {
            table: match r.0 {
                Some(n) => Some(name_of(*n).1),
                None => None,
            },
            columns: idents_of(r.1@),
            source: match r.2 {
                RowsLayer::Missing => InsertSourceModel::Missing,
                RowsLayer::Values(rows) => InsertSourceModel::Values(value_rows_of(rows@)),
                RowsLayer::Query => InsertSourceModel::Query,
            },
        }),
        r.2 matches RowsLayer::Values(rows) ==> row_refs(rows@) == rows_within(*i),
{
    let table = match &i.table {
        TableObject::TableName(name) => Some(name),
        _ => None,
    };
    let rows = match i.source.as_ref().map(|q| q.body.as_ref()) {
        None => RowsLayer::Missing,
        Some(SetExpr::Values(v)) => RowsLayer::Values(v.rows.iter().map(|r| &r.content).collect()),
        Some(_) => RowsLayer::Query,
    };
    (table, &i.columns, rows)
}

fn read_row(row: &&Vec<sqlparser::ast::Expr>) -> (r: Vec<Term>)
    ensures
        terms_model(r@) == exprs_of(row@),
{
    read_exprs(row)
}

pub(crate) fn read_insert(i: &sqlparser::ast::Insert) -> (r: InsertTree)
    ensures
        r@ == insert_of(*i),
{
    let (table, columns, rows) = insert_layer(i);
    let table = match table {
        Some(n) => Some(last_ident(n)),
        None => None,
    };
    let source = match rows {
        RowsLayer::Missing => InsertSource::Missing,
        RowsLayer::Values(outside) => {
            let list = map_list(&outside, read_row);
            assert(value_rows_model(list@) =~= value_rows_of(outside@));
            InsertSource::Values(list)
        },
        RowsLayer::Query => InsertSource::Query,
    };
    InsertTree { table, columns: read_idents(columns), source }
}

/// `Clone` of a row of `sqlparser::ast::Expr`s: the same expressions.
#[verifier::external_body]
fn row_copy(row: &Vec<sqlparser::ast::Expr>) -> (r: Vec<sqlparser::ast::Expr>)
    ensures
        r@ == row@,
{
    row.clone()
}

/// The field `rows` of the `sqlparser::ast::Values` of an `sqlparser::ast::Insert`, set in a copy.
/// The table, the columns and whatever else the insert holds stay.
#[verifier::external_body]
fn set_rows(i: &sqlparser::ast::Insert, rows: Vec<Vec<sqlparser::ast::Expr>>) -> (r:
    sqlparser::ast::Insert)
    requires
        insert_of(*i).source is Values,
    ensures
        r == insert_with(*i, rows_view_of(rows@)),
        insert_of(r).table == insert_of(*i).table,
        insert_of(r).columns == insert_of(*i).columns,
        insert_of(r).source == InsertSourceModel::Values(rows_of(rows_view_of(rows@))),
        rows_within(r) == rows_view_of(rows@),
{
    let mut one = i.clone();
    if let Some(SetExpr::Values(v)) = one.source.as_mut().map(|q| q.body.as_mut()) {
        v.rows = rows.into_iter().map(Parens::with_empty_span).collect();
    }
    one
}

/// `Display` of `sqlparser::ast::Statement`, for one that is an insert.
#[verifier::external_body]
fn insert_print(i: sqlparser::ast::Insert) -> (r: String)
    ensures
        r@ == insert_print_of(i),
{
    SqlStatement::Insert(i).to_string()
}

/// The rows at some indices.
pub open spec fn rows_at<A>(all: Seq<A>, indices: Seq<usize>) -> Seq<A> {
    indices.map_values(|n: usize| all[n as int])
}

/// An insert with only the rows at some indices.
pub open spec fn insert_of_rows(i: sqlparser::ast::Insert, indices: Seq<usize>) -> sqlparser::ast::Insert {
    insert_with(i, rows_at(rows_within(i), indices))
}

/// Whether a text is that of an insert into the same columns of the same table, with the rows at
/// some indices, each once and in that order, and no other; all else as in the insert.
pub open spec fn writes_rows(text: Seq<char>, i: sqlparser::ast::Insert, indices: Seq<usize>) -> bool {
    let one = insert_of_rows(i, indices);
    &&& text == insert_print_of(one)
    &&& insert_of(one).table == insert_of(i).table
    &&& insert_of(one).columns == insert_of(i).columns
    &&& insert_of(one).source == InsertSourceModel::Values(
        rows_at(insert_of(i).source->Values_0, indices),
    )
}

/// An insert's text, with only the rows at the given indices in its `VALUES`.
pub(crate) fn insert_text(i: &sqlparser::ast::Insert, indices: &Vec<usize>) -> (r: String)
    requires
        insert_of(*i).source is Values,
        forall|k: int|
            0 <= k < indices@.len() ==> (#[trigger] indices@[k]) < insert_of(
                *i,
            ).source->Values_0.len(),
    ensures
        writes_rows(r@, *i, indices@),
{
    let (_, _, layer) = insert_layer(i);
    let mut chosen: Vec<Vec<sqlparser::ast::Expr>> = Vec::new();
    if let RowsLayer::Values(all) = layer {
        let ghost raw = rows_within(*i);
        assert(raw == row_refs(all@));
        let mut k: usize = 0;
        while k < indices.len()
            invariant
                k <= indices@.len(),
                raw == row_refs(all@),
                forall|j: int|
                    0 <= j < indices@.len() ==> (#[trigger] indices@[j]) < all@.len(),
                rows_view_of(chosen@) == rows_at(raw, indices@.take(k as int)),
            decreases indices@.len() - k,
        {
            let n: usize = indices[k];
            let ghost before = chosen@;
            chosen.push(row_copy(all[n]));
            proof {
                assert(indices@.take(k as int + 1) =~= indices@.take(k as int).push(n));
                assert(rows_view_of(chosen@) =~= rows_view_of(before).push(raw[n as int]));
                assert(rows_at(raw, indices@.take(k as int + 1)) =~= rows_at(
                    raw,
                    indices@.take(k as int),
                ).push(raw[n as int]));
            }
            k = k + 1;
        }
        proof {
            assert(indices@.take(k as int) =~= indices@);
            assert(rows_of(rows_at(raw, indices@)) =~= rows_at(
                insert_of(*i).source->Values_0,
                indices@,
            ));
        }
    }
    insert_print(set_rows(i, chosen))
}

/// The columns that `sqlparser::ast::Assignment` sets: one, or the several of a tuple.
#[verifier::external_body]
fn assignment_layer<'a>(a: &'a sqlparser::ast::Assignment) -> (r: Vec<
    &'a sqlparser::ast::ObjectName,
>)
    ensures
        targets_of(*a) == name_refs(r@),
{
    match &a.target {
        AssignmentTarget::ColumnName(name) => vec![name],
        AssignmentTarget::Tuple(names) => names.iter().collect(),
    }
}

pub open spec fn name_refs(v: Seq<&sqlparser::ast::ObjectName>) -> Seq<Seq<char>> {
    v.map_values(|n: &sqlparser::ast::ObjectName| name_of(*n).1)
}

fn last_ident_of_ref(n: &&sqlparser::ast::ObjectName) -> (r: String)
    ensures
        r@ == name_of(**n).1,
{
    last_ident(n)
}

fn read_assignment(a: &sqlparser::ast::Assignment) -> (r: Vec<String>)
    ensures
        views(r@) == targets_of(*a),
{
    let outside = assignment_layer(a);
    let out = map_list(&outside, last_ident_of_ref);
    assert(views(out@) =~= name_refs(outside@));
    out
}

pub open spec fn target_lists_of(v: Seq<sqlparser::ast::Assignment>) -> Seq<Seq<Seq<char>>> {
    v.map_values(|a: sqlparser::ast::Assignment| targets_of(a))
}

/// The fields of `sqlparser::ast::Update` that the rules read.
#[verifier::external_body]
fn update_layer<'a>(u: &'a sqlparser::ast::Update) -> (r: (
    &'a sqlparser::ast::TableWithJoins,
    bool,
    &'a Vec<sqlparser::ast::Assignment>,
    Option<&'a sqlparser::ast::Expr>,
))
    ensures
        update_of(*u) == (UpdateModel {
            target: from_of(*r.0),
            joined: r.1,
            targets: target_lists_of(r.2@),
            selection: expr_option(r.3),
        }),
{
    (&u.table, u.from.is_some(), &u.assignments, u.selection.as_ref())
}

fn read_update(u: &sqlparser::ast::Update) -> (r: UpdateTree)
    ensures
        r@ == update_of(*u),
{
    let (table, joined, outside, selection) = update_layer(u);
    let targets = map_list(outside, read_assignment);
    assert(targets_model(targets@) =~= target_lists_of(outside@));
    UpdateTree {
        target: read_from_item(table),
        joined,
        targets,
        selection: read_option(selection),
    }
}

/// The fields of `sqlparser::ast::Delete` that the rules read.
#[verifier::external_body]
fn delete_layer<'a>(d: &'a sqlparser::ast::Delete) -> (r: (
    &'a Vec<sqlparser::ast::TableWithJoins>,
    Option<&'a sqlparser::ast::Expr>,
))
    ensures
        delete_of(*d) == (DeleteModel {
            from: from_list_of(r.0@),
            selection: expr_option(r.1),
        }),
{
    let from = match &d.from {
        FromTable::WithFromKeyword(from) => from,
        FromTable::WithoutKeyword(from) => from,
    };
    (from, d.selection.as_ref())
}

fn read_delete(d: &sqlparser::ast::Delete) -> (r: DeleteTree)
    ensures
        r@ == delete_of(*d),
{
    let (from, selection) = delete_layer(d);
    DeleteTree { from: read_from(from), selection: read_option(selection) }
}

// ---- CREATE TABLE ------------------------------------------------------------------------------

/// `sqlparser::ast::ColumnDef`: the value of its name, and its options in order.
#[verifier::external_body]
fn column_layer(c: &sqlparser::ast::ColumnDef) -> (r: Column)
    ensures
        r@ == column_of(*c),
{
    let rules = c.options.iter().map(|o| match &o.option {
        ColumnOption::PrimaryKey(_) => ColumnRule::PrimaryKey,
        ColumnOption::Unique(_) => ColumnRule::Unique,
        ColumnOption::ForeignKey(_) => ColumnRule::ForeignKey,
        _ => ColumnRule::Other,
    });
    Column { name: c.name.value.clone(), rules: rules.collect() }
}

enum ConstraintLayer<'a> {
    PrimaryKey(Vec<&'a sqlparser::ast::Expr>),
    Unique(Vec<&'a sqlparser::ast::Expr>),
    ForeignKey,
    Other,
}

pub open spec fn expr_refs(v: Seq<&sqlparser::ast::Expr>) -> Seq<TermModel> {
    v.map_values(|e: &sqlparser::ast::Expr| expr_of(*e))
}

/// The variants of `sqlparser::ast::TableConstraint` that the rules tell apart, with the
/// expressions of the columns that a key or a unique index is made of.
#[verifier::external_body]
fn constraint_layer<'a>(c: &'a sqlparser::ast::TableConstraint) -> (r: ConstraintLayer<'a>)
    ensures
        constraint_of(*c) == (match r {
            ConstraintLayer::PrimaryKey(terms) => ConstraintModel::PrimaryKey(expr_refs(terms@)),
            ConstraintLayer::Unique(terms) => ConstraintModel::Unique(expr_refs(terms@)),
            ConstraintLayer::ForeignKey => ConstraintModel::ForeignKey,
            ConstraintLayer::Other => ConstraintModel::Other,
        }),
{
    match c {
        TableConstraint::PrimaryKey(k) => {
            ConstraintLayer::PrimaryKey(k.columns.iter().map(|i| &i.column.expr).collect())
        },
        TableConstraint::Unique(k) => {
            ConstraintLayer::Unique(k.columns.iter().map(|i| &i.column.expr).collect())
        },
        TableConstraint::ForeignKey(_) => ConstraintLayer::ForeignKey,
        _ => ConstraintLayer::Other,
    }
}

fn read_expr_ref(e: &&sqlparser::ast::Expr) -> (r: Term)
    ensures
        r.model() == expr_of(**e),
{
    read_expr(e)
}

fn read_expr_refs(v: &Vec<&sqlparser::ast::Expr>) -> (r: Vec<Term>)
    ensures
        terms_model(r@) == expr_refs(v@),
{
    let out = map_list(v, read_expr_ref);
    assert(terms_model(out@) =~= expr_refs(v@));
    out
}

fn read_constraint(c: &sqlparser::ast::TableConstraint) -> (r: Constraint)
    ensures
        r@ == constraint_of(*c),
{
    match constraint_layer(c) {
        ConstraintLayer::PrimaryKey(terms) => Constraint::PrimaryKey(read_expr_refs(&terms)),
        ConstraintLayer::Unique(terms) => Constraint::Unique(read_expr_refs(&terms)),
        ConstraintLayer::ForeignKey => Constraint::ForeignKey,
        ConstraintLayer::Other => Constraint::Other,
    }
}

pub open spec fn column_list_of(v: Seq<sqlparser::ast::ColumnDef>) -> Seq<ColumnModel> {
    v.map_values(|c: sqlparser::ast::ColumnDef| column_of(c))
}

pub open spec fn constraint_list_of(v: Seq<sqlparser::ast::TableConstraint>) -> Seq<
    ConstraintModel,
> {
    v.map_values(|c: sqlparser::ast::TableConstraint| constraint_of(c))
}

/// The fields of `sqlparser::ast::CreateTable` that the rules read.
#[verifier::external_body]
fn create_layer<'a>(c: &'a sqlparser::ast::CreateTable) -> (r: (
    &'a sqlparser::ast::ObjectName,
    &'a Vec<sqlparser::ast::ColumnDef>,
    &'a Vec<sqlparser::ast::TableConstraint>,
))
    ensures
        create_of(*c) == (CreateTableModel {
            name: name_of(*r.0).0,
            ident: name_of(*r.0).1,
            columns: column_list_of(r.1@),
            constraints: constraint_list_of(r.2@),
        }),
{
    (&c.name, &c.columns, &c.constraints)
}

fn read_create(c: &sqlparser::ast::CreateTable) -> (r: TableTree)
    ensures
        r@ == create_of(*c),
{
    let (table, outside_columns, outside_constraints) = create_layer(c);
    let (name, ident) = name_layer(table);
    let columns = map_list(outside_columns, column_layer);
    assert(columns_model(columns@) =~= column_list_of(outside_columns@));
    let constraints = map_list(outside_constraints, read_constraint);
    assert(constraints_model(constraints@) =~= constraint_list_of(outside_constraints@));
    TableTree { name, ident, columns, constraints }
}

// ---- statements --------------------------------------------------------------------------------

/// A parsed statement. Kinds that no rule looks into are `Other`.
pub(crate) enum Parsed {
    Query(Box<sqlparser::ast::Query>),
    Insert(Box<sqlparser::ast::Insert>),
    Update(Box<sqlparser::ast::Update>),
    Delete(Box<sqlparser::ast::Delete>),
    CreateTable(Box<sqlparser::ast::CreateTable>),
    Other,
}

impl Parsed {
    pub(crate) open spec fn model(self) -> SqlModel {
        match self {
            Parsed::Query(q) => SqlModel::Query(with_texts(*q)),
            Parsed::Insert(i) => SqlModel::Insert(insert_of(*i)),
            Parsed::Update(u) => SqlModel::Update(update_of(*u)),
            Parsed::Delete(d) => SqlModel::Delete(delete_of(*d)),
            Parsed::CreateTable(c) => SqlModel::CreateTable(create_of(*c)),
            Parsed::Other => SqlModel::Other,
        }
    }

    /// The statement in the library's own terms.
    pub(crate) fn read(&self) -> (r: Sql)
        ensures
            r@ == self.model(),
            self matches Parsed::Query(q) ==> rewritings_hold(**q),
    {
        match self {
            Parsed::Query(q) => Sql::Query(Box::new(read_query(q))),
            Parsed::Insert(i) => Sql::Insert(Box::new(read_insert(i))),
            Parsed::Update(u) => Sql::Update(Box::new(read_update(u))),
            Parsed::Delete(d) => Sql::Delete(Box::new(read_delete(d))),
            Parsed::CreateTable(c) => Sql::CreateTable(Box::new(read_create(c))),
            Parsed::Other => Sql::Other,
        }
    }
}

pub(crate) open spec fn parsed_models(v: Seq<Parsed>) -> Seq<SqlModel> {
    v.map_values(|p: Parsed| p.model())
}

/// `sqlparser::parser::Parser::parse_sql` with the SQLite dialect: the statements of a text, or the
/// parser's message where it does not parse.
#[verifier::external_body]
pub(crate) fn parse_statements(sql: &str) -> (r: Result<Vec<sqlparser::ast::Statement>, String>)
    ensures
        statements_of(sql@) == (match r {
            Ok(v) => Ok(v@),
            Err(m) => Err(m@),
        }),
{
    Parser::parse_sql(&SQLiteDialect {}, sql).map_err(|e| e.to_string())
}

/// The variants of `sqlparser::ast::Statement` that the rules look into.
#[verifier::external_body]
fn statement_layer(s: sqlparser::ast::Statement) -> (r: Parsed)
    ensures
        r.model() == sql_of(s),
        r matches Parsed::Query(q) ==> *q == query_within(s),
        r matches Parsed::Insert(i) ==> *i == insert_within(s),
{
    match s {
        SqlStatement::Query(q) => Parsed::Query(q),
        SqlStatement::Insert(i) => Parsed::Insert(Box::new(i)),
        SqlStatement::Update(u) => Parsed::Update(Box::new(u)),
        SqlStatement::Delete(d) => Parsed::Delete(Box::new(d)),
        SqlStatement::CreateTable(c) => Parsed::CreateTable(Box::new(c)),
        _ => Parsed::Other,
    }
}

/// Whether the queries and the inserts among parsed statements are those of the statements.
pub(crate) open spec fn nodes_kept(v: Seq<Parsed>, all: Seq<sqlparser::ast::Statement>) -> bool {
    forall|k: int|
        0 <= k < v.len() ==> match #[trigger] v[k] {
            Parsed::Query(q) => *q == query_within(all[k]),
            Parsed::Insert(i) => *i == insert_within(all[k]),
            _ => true,
        }
}

/// The statements of a text, or `None` where it does not parse.
pub(crate) fn parse(sql: &str) -> (r: Option<Vec<Parsed>>)
    ensures
        parsed(sql@) == (match r {
            Some(v) => Some(parsed_models(v@)),
            None => None,
        }),
        r matches Some(v) ==> nodes_kept(v@, statements_of(sql@)->Ok_0),
{
    let mut left = match parse_statements(sql) {
        Ok(all) => all,
        Err(_) => {
            return None;
        },
    };
    let ghost model = left@.map_values(|s: sqlparser::ast::Statement| sql_of(s));
    let ghost all = left@;
    let mut out: Vec<Parsed> = Vec::new();
    assert(parsed_models(out@) =~= model.take(0));
    assert(all.skip(0) =~= all);
    while left.len() > 0
        invariant
            out@.len() + left@.len() == all.len(),
            left@ == all.skip(out@.len() as int),
            model == all.map_values(|s: sqlparser::ast::Statement| sql_of(s)),
            parsed_models(out@) == model.take(out@.len() as int),
            nodes_kept(out@, all),
        decreases left@.len(),
    {
        let ghost n = out@.len() as int;
        let ghost before = out@;
        let s = left.remove(0);
        assert(s == all[n]);
        out.push(statement_layer(s));
        proof {
            assert(left@ =~= all.skip(n + 1));
            assert(parsed_models(out@) =~= parsed_models(before).push(model[n]));
            assert(model.take(n + 1) =~= model.take(n).push(model[n]));
        }
    }
    assert(model.take(all.len() as int) =~= model);
    Some(out)
}

/// The one statement of a text: `None` where it does not parse or holds another number of them.
pub open spec fn lone_statement(sql: Seq<char>) -> Option<SqlModel> {
    match parsed(sql) {
        Some(all) => if all.len() == 1 {
            Some(all[0])
        } else {
            None
        },
        None => None,
    }
}

/// The `Query` of a text that holds one statement, which is one.
pub open spec fn lone_query(sql: Seq<char>) -> sqlparser::ast::Query {
    query_within(statements_of(sql)->Ok_0[0])
}

/// The `Insert` of a text that holds one statement, which is one.
pub open spec fn lone_insert(sql: Seq<char>) -> sqlparser::ast::Insert {
    insert_within(statements_of(sql)->Ok_0[0])
}

/// Parses a text that holds one statement.
pub(crate) fn parse_one(sql: &str) -> (r: Option<Parsed>)
    ensures
        lone_statement(sql@) == (match r {
            Some(p) => Some(p.model()),
            None => None,
        }),
        r matches Some(Parsed::Insert(i)) ==> *i == lone_insert(sql@),
{
    match parse(sql) {
        None => None,
        Some(mut all) => {
            assert(parsed_models(all@).len() == all@.len());
            if all.len() != 1 {
                return None;
            }
            assert(parsed_models(all@)[0] == all@[0].model());
            all.pop()
        },
    }
}

} // verus!
