//! Two-pass subqueries: each is evaluated on its own, and its result put in its place.
//!
//! A scalar `(SELECT ...)` becomes a literal, `IN (SELECT ...)` a list of literals (or a boolean
//! where it is empty), `EXISTS (...)` a boolean. The walk is post-order, so that a nested subquery
//! is replaced before the one around it is evaluated; a correlated subquery fails in its
//! evaluation, on the column it does not know.

use std::ops::ControlFlow;

use sqlparser::ast::{visit_expressions_mut, Expr, Value as SqlValue};
use vstd::prelude::*;

use super::reader::{expr_of, parse_statements, query_of, query_text, statements_of};
use super::syntax::{LiteralModel, NodeModel};
use crate::calls::{goes_on, lemma_added, lemma_goes_on, lemma_nothing_added, since, Line};
use crate::storage::doubles::{magnitude, INFINITY_BITS, SIGN_BIT};
use crate::storage::exec::{row_view, rows_view, Datum, QueryResult, Table, DbValue};
use crate::text::{chars_of, decimal, decimal_int, decimal_string, decimal_string_i64, views};

verus! {

/// The largest number of rows that an `IN` subquery may bring to the coordinator.
pub const MAX_SUBQUERY_ROWS: usize = 100_000;

/// A literal to put in the place of a subquery: NULL, a number as it is written, a quoted string.
#[derive(Debug)]
pub enum Constant {
    Null,
    Number(String),
    Text(String),
}

impl View for Constant {
    type V = LiteralModel;

    open spec fn view(&self) -> LiteralModel {
        match self {
            Constant::Null => LiteralModel::Null,
            Constant::Number(n) => LiteralModel::Number(n@),
            Constant::Text(s) => LiteralModel::Text(s@),
        }
    }
}

pub open spec fn constants_view(v: Seq<Constant>) -> Seq<LiteralModel> {
    v.map_values(|c: Constant| c@)
}

// ---- literals ----------------------------------------------------------------------------------

/// Whether a bit pattern is a finite real.
pub open spec fn is_finite(bits: u64) -> bool {
    magnitude(bits) < INFINITY_BITS
}

pub open spec fn has_real_mark(s: Seq<char>) -> bool {
    exists|i: int| 0 <= i < s.len() && ((#[trigger] s[i]) == '.' || s[i] == 'e' || s[i] == 'E')
}

/// A real's decimal text as a literal that keeps its type: with a point or an exponent.
pub open spec fn real_literal(text: Seq<char>) -> Seq<char> {
    if has_real_mark(text) {
        text
    } else {
        text + ".0"@
    }
}

/// Renders a real's decimal text as a literal that keeps its type.
pub fn real_to_sql(text: String) -> (r: String)
    ensures
        r@ == real_literal(text@),
{
    let chars = chars_of(text.as_str());
    let mut i: usize = 0;
    while i < chars.len()
        invariant
            i <= chars@.len(),
            chars@ == text@,
            forall|k: int| 0 <= k < i ==> !((#[trigger] chars@[k]) == '.' || chars@[k] == 'e'
                || chars@[k] == 'E'),
        decreases chars@.len() - i,
    {
        if chars[i] == '.' || chars[i] == 'e' || chars[i] == 'E' {
            assert(text@[i as int] == chars@[i as int]);
            return text;
        }
        i = i + 1;
    }
    let mut out = text;
    out.append(".0");
    out
}

/// Whether `text` is what `render` writes for a bit pattern.
pub open spec fn writes<R: Fn(u64) -> String>(render: R, bits: u64, text: Seq<char>) -> bool {
    exists|s: String| s@ == text && #[trigger] call_ensures(render, (bits,), s)
}

/// Whether `l` is a value as a literal. A real that is not finite has no literal and becomes NULL;
/// a blob cannot be substituted.
pub open spec fn literal_for<R: Fn(u64) -> String>(
    v: Datum,
    render: R,
    l: Result<LiteralModel, Seq<char>>,
) -> bool {
    match v {
        Datum::Null => l == Ok::<LiteralModel, Seq<char>>(LiteralModel::Null),
        Datum::Integer(n) => l == Ok::<LiteralModel, Seq<char>>(
            LiteralModel::Number(decimal_int(n as int)),
        ),
        Datum::Real(bits) => if is_finite(bits) {
            exists|text: Seq<char>| #[trigger]
                writes(render, bits, text) && l == Ok::<LiteralModel, Seq<char>>(
                    LiteralModel::Number(real_literal(text)),
                )
        } else {
            l == Ok::<LiteralModel, Seq<char>>(LiteralModel::Null)
        },
        Datum::Text(s) => l == Ok::<LiteralModel, Seq<char>>(LiteralModel::Text(s)),
        Datum::Blob(_) => l == Err::<LiteralModel, Seq<char>>(
            "a scalar subquery returning a blob cannot be substituted"@,
        ),
    }
}

pub open spec fn constant_result(r: Result<Constant, String>) -> Result<LiteralModel, Seq<char>> {
    match r {
        Ok(c) => Ok(c@),
        Err(m) => Err(m@),
    }
}

/// A value as a literal. `render` writes the decimal text of a real.
pub fn literal_to_expr<R: Fn(u64) -> String>(v: &DbValue, render: &R) -> (r: Result<Constant, String>)
    requires
        forall|bits: u64| call_requires(*render, (bits,)),
    ensures
        literal_for(v@, *render, constant_result(r)),
{
    match v {
        DbValue::Null => Ok(Constant::Null),
        DbValue::Integer(n) => Ok(Constant::Number(decimal_string_i64(*n))),
        DbValue::Real(bits) => {
            let size: u64 = if *bits >= SIGN_BIT {
                *bits - SIGN_BIT
            } else {
                *bits
            };
            if size < INFINITY_BITS {
                let text = render(*bits);
                let ghost written = text@;
                assert(writes(*render, *bits, written));
                Ok(Constant::Number(real_to_sql(text)))
            } else {
                Ok(Constant::Null)
            }
        },
        DbValue::Text(s) => Ok(Constant::Text(s.clone())),
        DbValue::Blob(_) => Err("a scalar subquery returning a blob cannot be substituted".to_owned()),
    }
}

/// A SQL boolean: `1` or `0`.
pub open spec fn boolean(b: bool) -> LiteralModel {
    LiteralModel::Number(
        if b {
            "1"@
        } else {
            "0"@
        },
    )
}

fn bool_expr(b: bool) -> (r: Constant)
    ensures
        r@ == boolean(b),
{
    Constant::Number(
        if b {
            "1".to_owned()
        } else {
            "0".to_owned()
        },
    )
}

// ---- what a result becomes ---------------------------------------------------------------------

/// A row's first value, NULL where it has none.
pub open spec fn leading(row: Seq<Datum>) -> Datum {
    if row.len() > 0 {
        row[0]
    } else {
        Datum::Null
    }
}

/// The one value of a scalar subquery: one column, at most one row; no rows is NULL.
pub open spec fn scalar_value(t: Table) -> Result<Datum, Seq<char>> {
    if t.columns.len() != 1 {
        Err("a scalar subquery must return exactly one column"@)
    } else if t.rows.len() == 0 {
        Ok(Datum::Null)
    } else if t.rows.len() == 1 {
        Ok(leading(t.rows[0]))
    } else {
        Err("a scalar subquery must return at most one row, got "@ + decimal(t.rows.len()))
    }
}

/// Whether `l` is what takes the place of a scalar subquery with the result `t`.
pub open spec fn scalar_becomes<R: Fn(u64) -> String>(
    t: Table,
    render: R,
    l: Result<LiteralModel, Seq<char>>,
) -> bool {
    match scalar_value(t) {
        Err(m) => l == Err::<LiteralModel, Seq<char>>(m),
        Ok(v) => literal_for(v, render, l),
    }
}

/// What takes the place of a scalar subquery.
pub fn scalar_replacement<R: Fn(u64) -> String>(result: &QueryResult, render: &R) -> (r: Result<
    Constant,
    String,
>)
    requires
        forall|bits: u64| call_requires(*render, (bits,)),
    ensures
        scalar_becomes(result@, *render, constant_result(r)),
{
    assert(views(result.columns@).len() == result.columns@.len());
    assert(rows_view(result.rows@).len() == result.rows@.len());
    if result.columns.len() != 1 {
        return Err("a scalar subquery must return exactly one column".to_owned());
    }
    if result.rows.len() == 0 {
        return Ok(Constant::Null);
    }
    if result.rows.len() == 1 {
        assert(result@.rows[0] == row_view(result.rows@[0]@));
        if result.rows[0].len() == 0 {
            return Ok(Constant::Null);
        }
        assert(row_view(result.rows@[0]@)[0] == result.rows@[0]@[0]@);
        return literal_to_expr(&result.rows[0][0], render);
    }
    let mut out = "a scalar subquery must return at most one row, got ".to_owned();
    let count = decimal_string(result.rows.len() as u64);
    out.append(count.as_str());
    Err(out)
}

/// What takes the place of an `IN` subquery: a boolean for one without rows, else a list.
#[derive(Debug)]
pub enum Members {
    Boolean(bool),
    List(Vec<Constant>),
}

pub open spec fn too_many_refusal() -> Seq<char> {
    "an IN subquery returned more than 100000 values, too many to hold on the coordinator; narrow it with a WHERE filter"@
}

/// Whether the first `n` rows have the literals `list`.
pub open spec fn literals_for<R: Fn(u64) -> String>(
    rows: Seq<Seq<Datum>>,
    render: R,
    list: Seq<LiteralModel>,
) -> bool {
    list.len() == rows.len() && forall|i: int|
        0 <= i < rows.len() ==> literal_for(
            leading(rows[i]),
            render,
            Ok::<LiteralModel, Seq<char>>(#[trigger] list[i]),
        )
}

/// What takes the place of an `IN` subquery with the result `t`. An empty result is false, or true
/// where the test is negated. The first value that has no literal fails it.
pub open spec fn members_become<R: Fn(u64) -> String>(
    t: Table,
    negated: bool,
    render: R,
    r: Result<Members, String>,
) -> bool {
    if t.columns.len() != 1 {
        r matches Err(m) && m@ == "an IN subquery must return exactly one column"@
    } else if t.rows.len() > MAX_SUBQUERY_ROWS {
        r matches Err(m) && m@ == too_many_refusal()
    } else if t.rows.len() == 0 {
        r matches Ok(Members::Boolean(b)) && b == negated
    } else {
        match r {
            Ok(Members::List(list)) => literals_for(t.rows, render, constants_view(list@)),
            Ok(Members::Boolean(_)) => false,
            Err(m) => exists|i: int|
                0 <= i < t.rows.len() && literal_for(
                    leading(#[trigger] t.rows[i]),
                    render,
                    Err::<LiteralModel, Seq<char>>(m@),
                ),
        }
    }
}

/// What takes the place of an `IN` subquery.
pub fn members_replacement<R: Fn(u64) -> String>(
    result: &QueryResult,
    negated: bool,
    render: &R,
) -> (r: Result<Members, String>)
    requires
        forall|bits: u64| call_requires(*render, (bits,)),
    ensures
        members_become(result@, negated, *render, r),
{
    assert(views(result.columns@).len() == result.columns@.len());
    assert(rows_view(result.rows@).len() == result.rows@.len());
    if result.columns.len() != 1 {
        return Err("an IN subquery must return exactly one column".to_owned());
    }
    if result.rows.len() > MAX_SUBQUERY_ROWS {
        return Err("an IN subquery returned more than 100000 values, too many to hold on the coordinator; narrow it with a WHERE filter".to_owned());
    }
    if result.rows.len() == 0 {
        return Ok(Members::Boolean(negated));
    }
    let ghost rows = result@.rows;
    let mut list: Vec<Constant> = Vec::new();
    let mut i: usize = 0;
    while i < result.rows.len()
        invariant
            i <= result.rows@.len(),
            rows == rows_view(result.rows@),
            rows == result@.rows,
            rows.len() > 0,
            rows.len() <= MAX_SUBQUERY_ROWS,
            result@.columns.len() == 1,
            list@.len() == i,
            forall|bits: u64| call_requires(*render, (bits,)),
            forall|k: int|
                0 <= k < i ==> literal_for(
                    leading(rows[k]),
                    *render,
                    Ok::<LiteralModel, Seq<char>>(#[trigger] constants_view(list@)[k]),
                ),
        decreases result.rows@.len() - i,
    {
        let row = &result.rows[i];
        assert(rows[i as int] == row_view(row@));
        let null = DbValue::Null;
        let v: &DbValue = if row.len() > 0 {
            assert(row_view(row@)[0] == row@[0]@);
            &row[0]
        } else {
            &null
        };
        assert(v@ == leading(rows[i as int]));
        match literal_to_expr(v, render) {
            Err(m) => {
                return Err(m);
            },
            Ok(c) => {
                let ghost before = constants_view(list@);
                let ghost new = c@;
                list.push(c);
                assert(constants_view(list@) =~= before.push(new));
                assert forall|k: int| 0 <= k < i + 1 implies literal_for(
                    leading(rows[k]),
                    *render,
                    Ok::<LiteralModel, Seq<char>>(#[trigger] constants_view(list@)[k]),
                ) by {
                    if k < i {
                        assert(constants_view(list@)[k] == before[k]);
                    }
                }
            },
        }
        i = i + 1;
    }
    Ok(Members::List(list))
}

// ---- one expression ----------------------------------------------------------------------------

/// What an expression is to the replacement of subqueries: one of the three subqueries, a test
/// against a list, or anything else.
pub ghost enum TestModel {
    Scalar { query: sqlparser::ast::Query },
    In { left: sqlparser::ast::Expr, query: sqlparser::ast::Query, negated: bool },
    Exists { query: sqlparser::ast::Query, negated: bool },
    List { left: sqlparser::ast::Expr, list: Seq<sqlparser::ast::Expr>, negated: bool },
    Other,
}

pub open spec fn is_subquery(t: TestModel) -> bool {
    t is Scalar || t is In || t is Exists
}

/// What an `Expr` is to the replacement of subqueries.
pub uninterp spec fn test_of(e: sqlparser::ast::Expr) -> TestModel;

/// How many subqueries a walk of an `Expr` meets.
pub uninterp spec fn subqueries_within(e: sqlparser::ast::Expr) -> nat;

/// How many subqueries a walk of a `Statement` meets.
pub uninterp spec fn subqueries_in(s: sqlparser::ast::Statement) -> nat;

/// The subquery of a `Statement` that is evaluated first: the first one when every expression is
/// visited after those inside it.
pub uninterp spec fn first_subquery(s: sqlparser::ast::Statement) -> Option<sqlparser::ast::Expr>;

/// A `Statement` with an expression in the place of its first subquery.
pub uninterp spec fn with_first(
    s: sqlparser::ast::Statement,
    e: sqlparser::ast::Expr,
) -> sqlparser::ast::Statement;

/// The `Expr` of a literal.
pub uninterp spec fn literal_expr_of(l: LiteralModel) -> sqlparser::ast::Expr;

/// The `Expr` of a test against a list.
pub uninterp spec fn list_expr_of(
    left: sqlparser::ast::Expr,
    list: Seq<sqlparser::ast::Expr>,
    negated: bool,
) -> sqlparser::ast::Expr;

/// How a `Statement` is written.
pub uninterp spec fn statement_text(s: sqlparser::ast::Statement) -> Seq<char>;

enum TestLayer<'a> {
    Scalar(&'a sqlparser::ast::Query),
    In(&'a sqlparser::ast::Expr, &'a sqlparser::ast::Query, bool),
    Exists(&'a sqlparser::ast::Query, bool),
    Other,
}

/// The variants of `sqlparser::ast::Expr` that hold a query: a scalar subquery, `IN` with its left
/// side, and `EXISTS`, the last two each with their negation.
#[verifier::external_body]
fn test_layer<'a>(e: &'a sqlparser::ast::Expr) -> (r: TestLayer<'a>)
    ensures
        match r {
            TestLayer::Scalar(q) => test_of(*e) == (TestModel::Scalar { query: *q }),
            TestLayer::In(left, q, negated) => test_of(*e) == (TestModel::In {
                left: *left,
                query: *q,
                negated,
            }),
            TestLayer::Exists(q, negated) => test_of(*e) == (TestModel::Exists {
                query: *q,
                negated,
            }),
            TestLayer::Other => !is_subquery(test_of(*e)),
        },
{
    match e {
        Expr::Subquery(q) => TestLayer::Scalar(q),
        Expr::InSubquery { expr, subquery, negated } => TestLayer::In(expr, subquery, *negated),
        Expr::Exists { subquery, negated } => TestLayer::Exists(subquery, *negated),
        _ => TestLayer::Other,
    }
}

/// `Clone` of `sqlparser::ast::Expr`: the same expression.
#[verifier::external_body]
fn expr_copy(e: &sqlparser::ast::Expr) -> (r: sqlparser::ast::Expr)
    ensures
        r == *e,
{
    e.clone()
}

/// `sqlparser::ast::Expr::Value` of a literal, which holds no subquery.
#[verifier::external_body]
fn literal_expr(c: Constant) -> (r: sqlparser::ast::Expr)
    ensures
        r == literal_expr_of(c@),
        expr_of(r).node == NodeModel::Literal(c@),
        test_of(r) is Other,
        subqueries_within(r) == 0,
{
    let value = match c {
        Constant::Null => SqlValue::Null,
        Constant::Number(n) => SqlValue::Number(n, false),
        Constant::Text(s) => SqlValue::SingleQuotedString(s),
    };
    Expr::Value(value.with_empty_span())
}

/// `sqlparser::ast::Expr::InList`: the test of an expression against a list. It is no subquery, and
/// holds none but those of its left side and its list.
#[verifier::external_body]
fn list_expr(
    left: sqlparser::ast::Expr,
    list: Vec<sqlparser::ast::Expr>,
    negated: bool,
) -> (r: sqlparser::ast::Expr)
    ensures
        r == list_expr_of(left, list@, negated),
        test_of(r) == (TestModel::List { left, list: list@, negated }),
        subqueries_within(left) == 0 && (forall|i: int|
            0 <= i < list@.len() ==> subqueries_within(#[trigger] list@[i]) == 0)
            ==> subqueries_within(r) == 0,
{
    Expr::InList { expr: Box::new(left), list, negated }
}

/// Goes on with a walk until a subquery is met, and hands that out.
fn stop_at(e: &mut sqlparser::ast::Expr) -> (r: ControlFlow<sqlparser::ast::Expr, ()>)
    ensures
        *final(e) == *old(e),
        r == (if is_subquery(test_of(*old(e))) {
            ControlFlow::<sqlparser::ast::Expr, ()>::Break(*old(e))
        } else {
            ControlFlow::<sqlparser::ast::Expr, ()>::Continue(())
        }),
{
    match test_layer(e) {
        TestLayer::Other => ControlFlow::Continue(()),
        _ => ControlFlow::Break(expr_copy(e)),
    }
}

/// Goes on with a walk until a subquery is met, and puts an expression in its place.
fn put_at(e: &mut sqlparser::ast::Expr, new: &sqlparser::ast::Expr) -> (r: ControlFlow<(), ()>)
    ensures
        *final(e) == (if is_subquery(test_of(*old(e))) {
            *new
        } else {
            *old(e)
        }),
        r == (if is_subquery(test_of(*old(e))) {
            ControlFlow::<(), ()>::Break(())
        } else {
            ControlFlow::<(), ()>::Continue(())
        }),
{
    match test_layer(e) {
        TestLayer::Other => ControlFlow::Continue(()),
        _ => {
            *e = expr_copy(new);
            ControlFlow::Break(())
        },
    }
}

/// `sqlparser::ast::visit_expressions_mut` with [`stop_at`]: the first subquery, and `None` where
/// there is none. An expression is visited after those inside it, so that nothing inside the first
/// one is a subquery. Nothing is changed.
#[verifier::external_body]
fn find_first(s: &mut sqlparser::ast::Statement) -> (r: Option<sqlparser::ast::Expr>)
    ensures
        *final(s) == *old(s),
        r == first_subquery(*old(s)),
        (r is None) == (subqueries_in(*old(s)) == 0),
        r matches Some(e) ==> is_subquery(test_of(e)),
        r matches Some(e) ==> (test_of(e) matches TestModel::In { left, .. }
            ==> subqueries_within(left) == 0),
{
    match visit_expressions_mut(s, |e| stop_at(e)) {
        ControlFlow::Break(e) => Some(e),
        ControlFlow::Continue(()) => None,
    }
}

/// `sqlparser::ast::visit_expressions_mut` with [`put_at`]: an expression takes the place of the
/// first subquery. Where it holds none itself there is then one subquery less.
#[verifier::external_body]
fn replace_first(s: &mut sqlparser::ast::Statement, new: &sqlparser::ast::Expr)
    requires
        subqueries_in(*old(s)) > 0,
    ensures
        *final(s) == with_first(*old(s), *new),
        subqueries_within(*new) == 0 ==> subqueries_in(*final(s)) + 1 == subqueries_in(*old(s)),
{
    let _ = visit_expressions_mut(s, |e| put_at(e, new));
}

/// `Display` of `sqlparser::ast::Statement`.
#[verifier::external_body]
fn print_statement(s: &sqlparser::ast::Statement) -> (r: String)
    ensures
        r@ == statement_text(*s),
{
    s.to_string()
}

/// What takes the place of a subquery: a literal, or the literals of a list.
pub ghost enum PlaceModel {
    Literal(LiteralModel),
    List(Seq<LiteralModel>),
}

/// Whether this is what takes the place of a subquery with a result, or why nothing can.
pub open spec fn takes_place<R: Fn(u64) -> String>(
    sub: TestModel,
    result: Table,
    render: R,
    place: Result<PlaceModel, Seq<char>>,
) -> bool {
    match sub {
        TestModel::List { .. } | TestModel::Other => false,
        TestModel::Scalar { .. } => match place {
            Ok(PlaceModel::Literal(l)) => scalar_becomes(
                result,
                render,
                Ok::<LiteralModel, Seq<char>>(l),
            ),
            Ok(PlaceModel::List(_)) => false,
            Err(m) => scalar_becomes(result, render, Err::<LiteralModel, Seq<char>>(m)),
        },
        TestModel::In { negated, .. } => if result.columns.len() != 1 {
            place == Err::<PlaceModel, Seq<char>>(
                "an IN subquery must return exactly one column"@,
            )
        } else if result.rows.len() > MAX_SUBQUERY_ROWS {
            place == Err::<PlaceModel, Seq<char>>(too_many_refusal())
        } else if result.rows.len() == 0 {
            place == Ok::<PlaceModel, Seq<char>>(PlaceModel::Literal(boolean(negated)))
        } else {
            match place {
                Ok(PlaceModel::List(list)) => literals_for(result.rows, render, list),
                Ok(PlaceModel::Literal(_)) => false,
                Err(m) => exists|i: int|
                    0 <= i < result.rows.len() && literal_for(
                        leading(#[trigger] result.rows[i]),
                        render,
                        Err::<LiteralModel, Seq<char>>(m),
                    ),
            }
        },
        TestModel::Exists { negated, .. } => place == Ok::<PlaceModel, Seq<char>>(
            PlaceModel::Literal(boolean((result.rows.len() > 0) != negated)),
        ),
    }
}

/// The SQL of the query that a subquery holds.
pub open spec fn query_in(t: TestModel) -> Seq<char> {
    match t {
        TestModel::Scalar { query } => query_of(query).text,
        TestModel::In { query, .. } => query_of(query).text,
        TestModel::Exists { query, .. } => query_of(query).text,
        _ => Seq::empty(),
    }
}

pub open spec fn literal_exprs(list: Seq<LiteralModel>) -> Seq<sqlparser::ast::Expr> {
    list.map_values(|l: LiteralModel| literal_expr_of(l))
}

/// Whether an expression is what a subquery becomes: the literal, or the test of the same left side
/// against the list, negated as the subquery is.
pub open spec fn becomes(
    e: sqlparser::ast::Expr,
    new: sqlparser::ast::Expr,
    place: PlaceModel,
) -> bool {
    match place {
        PlaceModel::Literal(l) => new == literal_expr_of(l) && expr_of(new).node
            == NodeModel::Literal(l),
        PlaceModel::List(list) => {
            &&& test_of(e) matches TestModel::In { left, negated, .. }
            &&& new == list_expr_of(left, literal_exprs(list), negated)
            &&& test_of(new) == (TestModel::List { left, list: literal_exprs(list), negated })
            &&& forall|i: int|
                0 <= i < list.len() ==> expr_of(#[trigger] literal_exprs(list)[i]).node
                    == NodeModel::Literal(list[i])
        },
    }
}

/// What was asked: the SQL of subqueries, each with its answer.
pub type Asked = Seq<(String, Result<QueryResult, String>)>;

/// Whether replacing one expression comes to this. A subquery is asked for once, and becomes what
/// takes its place; where that fails, and where it is no subquery, the expression stays.
pub open spec fn one_substituted<R: Fn(u64) -> String>(
    e: sqlparser::ast::Expr,
    new: sqlparser::ast::Expr,
    asked: Asked,
    render: R,
    r: Result<(), Seq<char>>,
) -> bool {
    if !is_subquery(test_of(e)) {
        asked.len() == 0 && new == e && r == Ok::<(), Seq<char>>(())
    } else {
        asked.len() == 1 && asked[0].0@ == query_in(test_of(e)) && match asked[0].1 {
            Err(m) => r == Err::<(), Seq<char>>(m@) && new == e,
            Ok(result) => exists|place: Result<PlaceModel, Seq<char>>| #[trigger]
                takes_place(test_of(e), result@, render, place) && match place {
                    Err(m) => r == Err::<(), Seq<char>>(m) && new == e,
                    Ok(p) => r == Ok::<(), Seq<char>>(()) && becomes(e, new, p),
                },
        }
    }
}

/// Whether replacing the subqueries of a statement, one after the other, comes to this text, or to
/// the first failure: of an evaluation, or of a result that cannot take its subquery's place.
pub open spec fn rewritten<R: Fn(u64) -> String>(
    s: sqlparser::ast::Statement,
    asked: Asked,
    render: R,
    r: Result<Seq<char>, Seq<char>>,
) -> bool
    decreases asked.len(),
{
    match first_subquery(s) {
        None => asked.len() == 0 && r == Ok::<Seq<char>, Seq<char>>(statement_text(s)),
        Some(e) => asked.len() >= 1 && exists|
            new: sqlparser::ast::Expr,
            one: Result<(), Seq<char>>,
        | #[trigger]
            one_substituted(e, new, asked.take(1), render, one) && match one {
                Err(m) => asked.len() == 1 && r == Err::<Seq<char>, Seq<char>>(m),
                Ok(_) => rewritten(with_first(s, new), asked.skip(1), render, r),
            },
    }
}

pub open spec fn text_result(r: Result<String, String>) -> Result<Seq<char>, Seq<char>> {
    match r {
        Ok(s) => Ok(s@),
        Err(m) => Err(m@),
    }
}

fn constant_copy(c: &Constant) -> (r: Constant)
    ensures
        r@ == c@,
{
    match c {
        Constant::Null => Constant::Null,
        Constant::Number(n) => Constant::Number(n.clone()),
        Constant::Text(s) => Constant::Text(s.clone()),
    }
}

fn literal_list(list: &Vec<Constant>) -> (r: Vec<sqlparser::ast::Expr>)
    ensures
        r@ == literal_exprs(constants_view(list@)),
        forall|i: int|
            0 <= i < r@.len() ==> subqueries_within(#[trigger] r@[i]) == 0 && expr_of(r@[i]).node
                == NodeModel::Literal(list@[i]@),
{
    let mut out: Vec<sqlparser::ast::Expr> = Vec::new();
    let mut k: usize = 0;
    while k < list.len()
        invariant
            k <= list@.len(),
            out@.len() == k,
            forall|i: int|
                0 <= i < k ==> (#[trigger] out@[i]) == literal_expr_of(list@[i]@)
                    && subqueries_within(out@[i]) == 0 && expr_of(out@[i]).node
                    == NodeModel::Literal(list@[i]@),
        decreases list@.len() - k,
    {
        out.push(literal_expr(constant_copy(&list[k])));
        k = k + 1;
    }
    assert(out@ =~= literal_exprs(constants_view(list@)));
    out
}

pub open spec fn outcome_of(r: Result<(), String>) -> Result<(), Seq<char>> {
    match r {
        Ok(_) => Ok(()),
        Err(m) => Err(m@),
    }
}

/// Replaces one subquery by its result, in place. Any other expression is left alone.
fn substitute_one<F: Fn(String) -> Result<QueryResult, String>, R: Fn(u64) -> String>(
    e: &mut sqlparser::ast::Expr,
    eval: &mut Line<String, Result<QueryResult, String>, F>,
    render: &R,
) -> (r: Result<(), String>)
    requires
        forall|q: String| call_requires(old(eval).far(), (q,)),
        forall|bits: u64| call_requires(*render, (bits,)),
        test_of(*old(e)) matches TestModel::In { left, .. } ==> subqueries_within(left) == 0,
    ensures
        final(eval).far() == old(eval).far(),
        goes_on(old(eval).record(), final(eval).record()),
        one_substituted(
            *old(e),
            *final(e),
            since(old(eval).record(), final(eval).record()),
            *render,
            outcome_of(r),
        ),
        r is Ok && is_subquery(test_of(*old(e))) ==> subqueries_within(*final(e)) == 0,
{
    let ghost here = *e;
    let ghost first = eval.record();
    let sql: String = match test_layer(e) {
        TestLayer::Other => {
            proof {
                lemma_nothing_added(first);
            }
            return Ok(());
        },
        TestLayer::Scalar(q) => query_text(q),
        TestLayer::In(_, q, _) => query_text(q),
        TestLayer::Exists(q, _) => query_text(q),
    };
    let ghost handed = sql;
    let answer = eval.ask(sql);
    let ghost asked = seq![(handed, answer)];
    proof {
        assert(eval.record() =~= first + asked);
        lemma_added(first, asked);
    }
    let result = match answer {
        Ok(result) => result,
        Err(m) => {
            return Err(m);
        },
    };
    let new = match test_layer(e) {
        TestLayer::Other => {
            return Ok(());
        },
        TestLayer::Scalar(_) => match scalar_replacement(&result, render) {
            Ok(c) => {
                let ghost place = Ok::<PlaceModel, Seq<char>>(PlaceModel::Literal(c@));
                assert(takes_place(test_of(here), result@, *render, place));
                literal_expr(c)
            },
            Err(m) => {
                let ghost place = Err::<PlaceModel, Seq<char>>(m@);
                assert(takes_place(test_of(here), result@, *render, place));
                return Err(m);
            },
        },
        TestLayer::In(left, _, negated) => match members_replacement(&result, negated, render) {
            Ok(Members::Boolean(b)) => {
                let c = bool_expr(b);
                let ghost place = Ok::<PlaceModel, Seq<char>>(PlaceModel::Literal(c@));
                assert(takes_place(test_of(here), result@, *render, place));
                literal_expr(c)
            },
            Ok(Members::List(list)) => {
                let ghost model = constants_view(list@);
                let ghost place = Ok::<PlaceModel, Seq<char>>(PlaceModel::List(model));
                assert(takes_place(test_of(here), result@, *render, place));
                let literals = literal_list(&list);
                let new = list_expr(expr_copy(left), literals, negated);
                assert(becomes(here, new, PlaceModel::List(model)));
                new
            },
            Err(m) => {
                let ghost place = Err::<PlaceModel, Seq<char>>(m@);
                assert(takes_place(test_of(here), result@, *render, place));
                return Err(m);
            },
        },
        TestLayer::Exists(_, negated) => {
            assert(rows_view(result.rows@).len() == result.rows@.len());
            let found = result.rows.len() > 0;
            let c = bool_expr(found != negated);
            let ghost place = Ok::<PlaceModel, Seq<char>>(PlaceModel::Literal(c@));
            assert(takes_place(test_of(here), result@, *render, place));
            literal_expr(c)
        },
    };
    *e = new;
    Ok(())
}

/// Replaces the subqueries of a statement, one after the other. A subquery inside another is
/// replaced before it, so that the other is free of subqueries when it is evaluated.
#[verifier::loop_isolation(false)]
fn rewrite<F: Fn(String) -> Result<QueryResult, String>, R: Fn(u64) -> String>(
    statement: sqlparser::ast::Statement,
    eval: &mut Line<String, Result<QueryResult, String>, F>,
    render: &R,
) -> (r: Result<String, String>)
    requires
        forall|q: String| call_requires(old(eval).far(), (q,)),
        forall|bits: u64| call_requires(*render, (bits,)),
    ensures
        final(eval).far() == old(eval).far(),
        goes_on(old(eval).record(), final(eval).record()),
        rewritten(
            statement,
            since(old(eval).record(), final(eval).record()),
            *render,
            text_result(r),
        ),
        evaluates_each_once(
            statement,
            since(old(eval).record(), final(eval).record()),
            text_result(r),
        ),
{
    let ghost first = eval.record();
    let ghost far = eval.far();
    let ghost mut done: Asked = Seq::empty();
    let mut s = statement;
    assert(first + done =~= first);
    proof {
        assert forall|more: Asked, r: Result<Seq<char>, Seq<char>>| #[trigger]
            rewritten(s, more, *render, r) implies rewritten(statement, done + more, *render, r) by {
            assert(done + more =~= more);
        }
    }
    loop
        invariant
            eval.far() == far,
            eval.record() == first + done,
            done.len() + subqueries_in(s) == subqueries_in(statement),
            forall|more: Asked, r: Result<Seq<char>, Seq<char>>| #[trigger]
                rewritten(s, more, *render, r) ==> rewritten(statement, done + more, *render, r),
        decreases subqueries_in(s),
    {
        let ghost here = s;
        let mut e = match find_first(&mut s) {
            Some(e) => e,
            None => {
                let text = print_statement(&s);
                proof {
                    let none: Asked = Seq::empty();
                    assert(rewritten(here, none, *render, Ok(text@)));
                    assert(done + none =~= done);
                    lemma_added(first, done);
                }
                return Ok(text);
            },
        };
        let ghost found = e;
        let ghost before = eval.record();
        let outcome = substitute_one(&mut e, eval, render);
        let ghost asked = since(before, eval.record());
        let ghost one = outcome_of(outcome);
        proof {
            lemma_goes_on(before, eval.record());
            assert(eval.record() =~= first + (done + asked));
            assert(asked.take(1) =~= asked);
        }
        if let Err(m) = outcome {
            proof {
                assert(one_substituted(found, e, asked.take(1), *render, one));
                assert(rewritten(here, asked, *render, Err(m@)));
                lemma_added(first, done + asked);
            }
            return Err(m);
        }
        replace_first(&mut s, &e);
        proof {
            assert forall|more: Asked, r: Result<Seq<char>, Seq<char>>| #[trigger]
                rewritten(s, more, *render, r) implies rewritten(
                statement,
                (done + asked) + more,
                *render,
                r,
            ) by {
                let all = asked + more;
                assert(all.take(1) =~= asked);
                assert(all.skip(1) =~= more);
                assert(one_substituted(found, e, all.take(1), *render, one));
                assert(rewritten(here, all, *render, r));
                assert((done + asked) + more =~= done + all);
            }
            done = done + asked;
        }
    }
}

/// Whether each subquery of a statement was asked for once: every one where the text came out, and
/// none twice where it did not.
pub open spec fn evaluates_each_once(
    s: sqlparser::ast::Statement,
    asked: Asked,
    r: Result<Seq<char>, Seq<char>>,
) -> bool {
    &&& asked.len() <= subqueries_in(s)
    &&& r is Ok ==> asked.len() == subqueries_in(s)
}

/// Whether replacing the subqueries of a text's first statement comes to this.
pub open spec fn text_rewritten<R: Fn(u64) -> String>(
    sql: Seq<char>,
    asked: Asked,
    render: R,
    r: Result<Seq<char>, Seq<char>>,
) -> bool {
    match statements_of(sql) {
        Err(m) => asked.len() == 0 && r == Err::<Seq<char>, Seq<char>>(m),
        Ok(all) => if all.len() == 0 {
            asked.len() == 0 && r == Err::<Seq<char>, Seq<char>>("empty statement"@)
        } else {
            rewritten(all[0], asked, render, r) && evaluates_each_once(all[0], asked, r)
        },
    }
}

/// Evaluates every subquery of `sql`, each once, with `eval` and puts its result in its place: the
/// query that results holds no subquery, and can be planned again. `render` writes the decimal text
/// of a real.
pub fn substitute_subqueries<F: Fn(String) -> Result<QueryResult, String>, R: Fn(u64) -> String>(
    sql: &str,
    eval: &mut Line<String, Result<QueryResult, String>, F>,
    render: &R,
) -> (r: Result<String, String>)
    requires
        forall|q: String| call_requires(old(eval).far(), (q,)),
        forall|bits: u64| call_requires(*render, (bits,)),
    ensures
        final(eval).far() == old(eval).far(),
        goes_on(old(eval).record(), final(eval).record()),
        text_rewritten(
            sql@,
            since(old(eval).record(), final(eval).record()),
            *render,
            text_result(r),
        ),
{
    proof {
        lemma_nothing_added(eval.record());
    }
    let mut all = match parse_statements(sql) {
        Ok(all) => all,
        Err(m) => {
            return Err(m);
        },
    };
    if all.len() == 0 {
        return Err("empty statement".to_owned());
    }
    rewrite(all.remove(0), eval, render)
}

// ---- laws --------------------------------------------------------------------------------------

/// Whether a text is that of a statement without subqueries.
pub open spec fn is_flat_text(text: Seq<char>) -> bool {
    exists|s: sqlparser::ast::Statement|
        first_subquery(s) is None && text == #[trigger] statement_text(s)
}

/// What comes out holds no subquery, so it can be planned like any other query.
pub proof fn law_no_subquery_is_left<R: Fn(u64) -> String>(
    s: sqlparser::ast::Statement,
    asked: Asked,
    render: R,
    text: Seq<char>,
)
    requires
        rewritten(s, asked, render, Ok(text)),
    ensures
        is_flat_text(text),
    decreases asked.len(),
{
    if let Some(e) = first_subquery(s) {
        let r = Ok::<Seq<char>, Seq<char>>(text);
        let (new, one) = choose|new: sqlparser::ast::Expr, one: Result<(), Seq<char>>| #[trigger]
            one_substituted(e, new, asked.take(1), render, one) && match one {
                Err(m) => asked.len() == 1 && r == Err::<Seq<char>, Seq<char>>(m),
                Ok(_) => rewritten(with_first(s, new), asked.skip(1), render, r),
            };
        law_no_subquery_is_left(with_first(s, new), asked.skip(1), render, text);
    }
}

/// Where a list of values takes the place of a subquery, the test keeps its left side and its
/// negation.
pub proof fn law_list_keeps_left_side_and_negation<R: Fn(u64) -> String>(
    e: sqlparser::ast::Expr,
    new: sqlparser::ast::Expr,
    asked: Asked,
    render: R,
)
    requires
        one_substituted(e, new, asked, render, Ok(())),
        test_of(e) is In,
        asked[0].1 matches Ok(result) && result@.rows.len() > 0,
    ensures
        test_of(new) matches TestModel::List { left, negated, .. } && left == test_of(e)->In_left
            && negated == test_of(e)->In_negated,
{
}

/// The digit of a truth value.
pub open spec fn truth_digit(b: bool) -> Seq<char> {
    if b {
        seq!['1']
    } else {
        seq!['0']
    }
}

proof fn lemma_boolean(b: bool)
    ensures
        boolean(b) == LiteralModel::Number(truth_digit(b)),
{
    reveal_strlit("0");
    reveal_strlit("1");
    assert("0"@ =~= seq!['0']);
    assert("1"@ =~= seq!['1']);
}

/// `EXISTS` of a subquery without rows becomes the literal 0, and of one with a row the literal 1;
/// `NOT EXISTS` becomes the other of the two. It is asked for by the text of its query.
pub proof fn law_exists_tells_whether_there_are_rows<R: Fn(u64) -> String>(
    e: sqlparser::ast::Expr,
    query: sqlparser::ast::Query,
    negated: bool,
    new: sqlparser::ast::Expr,
    asked: Asked,
    render: R,
    r: Result<(), Seq<char>>,
    result: QueryResult,
)
    requires
        test_of(e) == (TestModel::Exists { query, negated }),
        one_substituted(e, new, asked, render, r),
        asked[0].1 == Ok::<QueryResult, String>(result),
    ensures
        asked[0].0@ == query_of(query).text,
        r is Ok,
        result@.rows.len() == 0 && !negated ==> expr_of(new).node == NodeModel::Literal(
            LiteralModel::Number(seq!['0']),
        ),
        result@.rows.len() > 0 && !negated ==> expr_of(new).node == NodeModel::Literal(
            LiteralModel::Number(seq!['1']),
        ),
        result@.rows.len() == 0 && negated ==> expr_of(new).node == NodeModel::Literal(
            LiteralModel::Number(seq!['1']),
        ),
        result@.rows.len() > 0 && negated ==> expr_of(new).node == NodeModel::Literal(
            LiteralModel::Number(seq!['0']),
        ),
{
    lemma_boolean(true);
    lemma_boolean(false);
}

/// `IN` of a subquery without rows becomes the literal 0 and `NOT IN` the literal 1. With rows it
/// becomes a test against a list with one literal for each row, in their order: the integers and
/// texts that the rows hold in front, and NULL for NULL. Two columns are refused.
pub proof fn law_in_tests_against_the_rows<R: Fn(u64) -> String>(
    e: sqlparser::ast::Expr,
    left: sqlparser::ast::Expr,
    query: sqlparser::ast::Query,
    negated: bool,
    new: sqlparser::ast::Expr,
    asked: Asked,
    render: R,
    r: Result<(), Seq<char>>,
    result: QueryResult,
    i: int,
)
    requires
        test_of(e) == (TestModel::In { left, query, negated }),
        one_substituted(e, new, asked, render, r),
        asked[0].1 == Ok::<QueryResult, String>(result),
    ensures
        asked[0].0@ == query_of(query).text,
        result@.columns.len() != 1 ==> r is Err && new == e,
        result@.columns.len() == 1 && result@.rows.len() == 0 ==> r is Ok && expr_of(new).node
            == NodeModel::Literal(LiteralModel::Number(truth_digit(negated))),
        r is Ok && result@.rows.len() > 0 ==> (test_of(new) matches TestModel::List {
            left: l,
            list,
            negated: n,
        } && l == left && n == negated && list.len() == result@.rows.len() && (0 <= i < list.len()
            && result@.rows[i].len() > 0 ==> match result@.rows[i][0] {
            Datum::Null => expr_of(list[i]).node == NodeModel::Literal(LiteralModel::Null),
            Datum::Integer(n) => expr_of(list[i]).node == NodeModel::Literal(
                LiteralModel::Number(decimal_int(n as int)),
            ),
            Datum::Text(s) => expr_of(list[i]).node == NodeModel::Literal(LiteralModel::Text(s)),
            _ => true,
        })),
{
    lemma_boolean(true);
    lemma_boolean(false);
    if r is Ok && result@.rows.len() > 0 {
        let place = choose|place: Result<PlaceModel, Seq<char>>| #[trigger]
            takes_place(test_of(e), result@, render, place) && match place {
                Err(m) => r == Err::<(), Seq<char>>(m) && new == e,
                Ok(p) => r == Ok::<(), Seq<char>>(()) && becomes(e, new, p),
            };
        let list = place->Ok_0->List_0;
        if 0 <= i < list.len() {
            assert(literal_for(
                leading(result@.rows[i]),
                render,
                Ok::<LiteralModel, Seq<char>>(list[i]),
            ));
            assert(expr_of(literal_exprs(list)[i]).node == NodeModel::Literal(list[i]));
        }
    }
}

/// A scalar subquery becomes the one value it gives: an integer its digits, a text that text, and
/// NULL where it gives NULL or no row. Several rows or columns, and a blob, are refused.
pub proof fn law_scalar_becomes_its_value<R: Fn(u64) -> String>(
    e: sqlparser::ast::Expr,
    query: sqlparser::ast::Query,
    new: sqlparser::ast::Expr,
    asked: Asked,
    render: R,
    r: Result<(), Seq<char>>,
    result: QueryResult,
    v: Datum,
)
    requires
        test_of(e) == (TestModel::Scalar { query }),
        one_substituted(e, new, asked, render, r),
        asked[0].1 == Ok::<QueryResult, String>(result),
    ensures
        asked[0].0@ == query_of(query).text,
        result@.columns.len() != 1 || result@.rows.len() > 1 ==> r is Err && new == e,
        result@.columns.len() == 1 && result@.rows.len() == 0 ==> r is Ok && expr_of(new).node
            == NodeModel::Literal(LiteralModel::Null),
        result@.columns.len() == 1 && result@.rows == seq![seq![v]] ==> match v {
            Datum::Null => r is Ok && expr_of(new).node == NodeModel::Literal(LiteralModel::Null),
            Datum::Integer(n) => r is Ok && expr_of(new).node == NodeModel::Literal(
                LiteralModel::Number(decimal_int(n as int)),
            ),
            Datum::Text(s) => r is Ok && expr_of(new).node == NodeModel::Literal(
                LiteralModel::Text(s),
            ),
            Datum::Blob(_) => r is Err && new == e,
            Datum::Real(_) => true,
        },
{
    if result@.rows == seq![seq![v]] {
        assert(result@.rows[0] == seq![v]);
        assert(leading(result@.rows[0]) == v);
    }
}

/// An evaluation that fails is what the replacement fails with, and what is no subquery is neither
/// asked for nor changed.
pub proof fn law_failed_evaluations_come_through<R: Fn(u64) -> String>(
    e: sqlparser::ast::Expr,
    new: sqlparser::ast::Expr,
    asked: Asked,
    render: R,
    r: Result<(), Seq<char>>,
)
    requires
        one_substituted(e, new, asked, render, r),
    ensures
        test_of(e) is List || test_of(e) is Other ==> asked.len() == 0 && new == e && r is Ok,
        test_of(e) is Scalar || test_of(e) is In || test_of(e) is Exists ==> asked.len() == 1 && (
        asked[0].1 matches Err(m) ==> r == Err::<(), Seq<char>>(m@) && new == e),
{
}

/// A real that is a finite number is written with a point or an exponent, so that it is read as a
/// real again; one that is not becomes NULL.
pub proof fn law_reals_stay_reals<R: Fn(u64) -> String>(
    bits: u64,
    render: R,
    l: Result<LiteralModel, Seq<char>>,
)
    requires
        literal_for(Datum::Real(bits), render, l),
    ensures
        bits % 0x8000_0000_0000_0000 >= 0x7ff0_0000_0000_0000 ==> l == Ok::<
            LiteralModel,
            Seq<char>,
        >(LiteralModel::Null),
        bits % 0x8000_0000_0000_0000 < 0x7ff0_0000_0000_0000 ==> (l matches Ok(
            LiteralModel::Number(s),
        ) && exists|i: int| 0 <= i < s.len() && ((#[trigger] s[i]) == '.' || s[i] == 'e' || s[i]
            == 'E')),
{
    if is_finite(bits) {
        let text = choose|text: Seq<char>| #[trigger]
            writes(render, bits, text) && l == Ok::<LiteralModel, Seq<char>>(
                LiteralModel::Number(real_literal(text)),
            );
        reveal_strlit(".0");
        let s = real_literal(text);
        if has_real_mark(text) {
            let i = choose|i: int|
                0 <= i < text.len() && ((#[trigger] text[i]) == '.' || text[i] == 'e' || text[i]
                    == 'E');
            assert(s[i] == text[i]);
        } else {
            assert(".0"@.len() == 2 && ".0"@[0] == '.');
            assert(s[text.len() as int] == '.');
        }
        assert(l->Ok_0->Number_0 == s);
    }
}

/// A text that does not parse is refused with what is wrong with it, and an empty one too, and
/// nothing is evaluated.
pub proof fn law_texts_without_statements<R: Fn(u64) -> String>(
    sql: Seq<char>,
    asked: Asked,
    render: R,
    r: Result<Seq<char>, Seq<char>>,
)
    requires
        text_rewritten(sql, asked, render, r),
    ensures
        statements_of(sql) matches Err(m) ==> r == Err::<Seq<char>, Seq<char>>(m) && asked.len() == 0,
        statements_of(sql) matches Ok(all) ==> (all.len() == 0 ==> r is Err && asked.len() == 0),
        statements_of(sql) matches Ok(all) ==> (all.len() > 0 ==> asked.len() <= subqueries_in(all[0])
            && (r is Ok ==> asked.len() == subqueries_in(all[0]))),
{
}

} // verus!
