use std::cell::RefCell;

use shardlite::calls::Line;
use shardlite::query::substitute::{
    literal_to_expr, members_replacement, scalar_replacement, substitute_subqueries, Constant,
    Members,
};
use shardlite::storage::exec::{DbValue, QueryResult};

fn table(rows: Vec<Vec<DbValue>>) -> QueryResult {
    QueryResult { columns: vec!["c".to_string()], rows }
}

fn render(bits: u64) -> String {
    format!("{}", f64::from_bits(bits))
}

fn substitute<F: Fn(String) -> Result<QueryResult, String>>(
    sql: &str,
    eval: &F,
) -> Result<String, String> {
    substitute_subqueries(sql, &mut Line::new(eval), &render)
}

#[test]
fn a_scalar_becomes_a_literal() {
    let eval = |q: String| {
        assert_eq!(q, "SELECT max(a) FROM t");
        Ok(table(vec![vec![DbValue::Integer(9)]]))
    };
    let sql = "SELECT a FROM t WHERE a = (SELECT max(a) FROM t)";
    assert_eq!(
        substitute(sql, &eval).unwrap(),
        "SELECT a FROM t WHERE a = 9"
    );
}

#[test]
fn an_in_list_is_written_out() {
    let eval = |_: String| {
        Ok(table(vec![
            vec![DbValue::Integer(-1)],
            vec![DbValue::Text("it's".to_string())],
            vec![DbValue::Null],
            vec![DbValue::Real(1.5f64.to_bits())],
            vec![DbValue::Real(2.0f64.to_bits())],
        ]))
    };
    let sql = "SELECT a FROM t WHERE a NOT IN (SELECT b FROM u)";
    assert_eq!(
        substitute(sql, &eval).unwrap(),
        "SELECT a FROM t WHERE a NOT IN (-1, 'it''s', NULL, 1.5, 2.0)"
    );
}

#[test]
fn an_empty_in_is_a_truth_value_and_exists_too() {
    let none = |_: String| Ok(table(vec![]));
    let some = |_: String| Ok(table(vec![vec![DbValue::Integer(1)]]));
    let sql = "SELECT a FROM t WHERE a IN (SELECT b FROM u)";
    assert_eq!(substitute(sql, &none).unwrap(), "SELECT a FROM t WHERE 0");
    let sql = "SELECT a FROM t WHERE a NOT IN (SELECT b FROM u)";
    assert_eq!(substitute(sql, &none).unwrap(), "SELECT a FROM t WHERE 1");
    let sql = "SELECT a FROM t WHERE EXISTS (SELECT b FROM u)";
    assert_eq!(substitute(sql, &some).unwrap(), "SELECT a FROM t WHERE 1");
    let sql = "SELECT a FROM t WHERE NOT EXISTS (SELECT b FROM u)";
    assert_eq!(substitute(sql, &some).unwrap(), "SELECT a FROM t WHERE 0");
}

#[test]
fn an_inner_subquery_is_replaced_before_the_outer_one_is_evaluated() {
    let asked = RefCell::new(Vec::new());
    let eval = |q: String| {
        asked.borrow_mut().push(q.clone());
        Ok(table(vec![vec![DbValue::Integer(asked.borrow().len() as i64)]]))
    };
    let sql = "SELECT a FROM t WHERE a = (SELECT b FROM u WHERE c = (SELECT d FROM v))";
    let out = substitute(sql, &eval).unwrap();
    assert_eq!(
        *asked.borrow(),
        vec!["SELECT d FROM v".to_string(), "SELECT b FROM u WHERE c = 1".to_string()]
    );
    assert_eq!(out, "SELECT a FROM t WHERE a = 2");
}

#[test]
fn failures_come_through() {
    let ok = |_: String| Ok(table(vec![vec![DbValue::Integer(1)], vec![DbValue::Integer(2)]]));
    let bad = |_: String| Err("no such column: x".to_string());
    let sql = "SELECT a FROM t WHERE a = (SELECT b FROM u)";
    assert_eq!(
        substitute(sql, &ok).unwrap_err(),
        "a scalar subquery must return at most one row, got 2"
    );
    assert_eq!(substitute(sql, &bad).unwrap_err(), "no such column: x");
    assert_eq!(substitute("", &ok).unwrap_err(), "empty statement");
    assert!(substitute("SELEC", &ok).unwrap_err().contains("Expected"));
    let wide = QueryResult { columns: vec!["a".to_string(), "b".to_string()], rows: vec![] };
    assert_eq!(
        scalar_replacement(&wide, &render).unwrap_err(),
        "a scalar subquery must return exactly one column"
    );
    assert_eq!(
        members_replacement(&wide, false, &render).unwrap_err(),
        "an IN subquery must return exactly one column"
    );
    let blob = DbValue::Blob(vec![1]);
    assert_eq!(
        literal_to_expr(&blob, &render).unwrap_err(),
        "a scalar subquery returning a blob cannot be substituted"
    );
}

#[test]
fn a_real_that_is_no_number_is_null() {
    let nan = DbValue::Real(f64::NAN.to_bits());
    assert!(matches!(literal_to_expr(&nan, &render).unwrap(), Constant::Null));
    match members_replacement(&table(vec![vec![]]), false, &render).unwrap() {
        Members::List(list) => assert!(matches!(list[0], Constant::Null)),
        other => panic!("{other:?}"),
    }
}

#[test]
fn every_subquery_is_evaluated_once_and_tests_keep_their_sides() {
    let asked = RefCell::new(Vec::new());
    let eval = |q: String| {
        asked.borrow_mut().push(q.clone());
        Ok(table(vec![vec![DbValue::Integer(4)], vec![DbValue::Integer(5)]]))
    };
    let sql = "SELECT a FROM t WHERE a + 1 NOT IN (SELECT b FROM u) AND c IN (SELECT d FROM v) \
               AND NOT EXISTS (SELECT e FROM w)";
    assert_eq!(
        substitute(sql, &eval).unwrap(),
        "SELECT a FROM t WHERE a + 1 NOT IN (4, 5) AND c IN (4, 5) AND 0"
    );
    assert_eq!(*asked.borrow(), vec!["SELECT b FROM u", "SELECT d FROM v", "SELECT e FROM w"]);
    asked.borrow_mut().clear();
    assert_eq!(substitute("SELECT a FROM t", &eval).unwrap(), "SELECT a FROM t");
    assert!(asked.borrow().is_empty());
}
