use shardlite::query::merge::{
    apply_set_op, dedup_rows, evaluate_set_tree, finalize_rows, merge_results, RealFold,
};
use shardlite::query::order::{compare_values, order_texts};
use shardlite::query::plan::{plan, Plan, SetKind, SetTree, SortKey};
use shardlite::storage::doubles::Order;
use shardlite::storage::exec::{DbValue, QueryResult};

fn number(v: &DbValue) -> f64 {
    match v {
        DbValue::Integer(n) => *n as f64,
        DbValue::Real(bits) => f64::from_bits(*bits),
        _ => 0.0,
    }
}

fn fold(f: &RealFold) -> u64 {
    let r: f64 = match f {
        RealFold::Sum(values) => values.iter().map(number).sum(),
        RealFold::Mean { sums, count } => sums.iter().map(number).sum::<f64>() / *count as f64,
        RealFold::Literal { digits, negative } => {
            let v: f64 = digits.parse().unwrap_or(0.0);
            if *negative {
                -v
            } else {
                v
            }
        }
    };
    r.to_bits()
}

fn whole(n: i64) -> DbValue {
    DbValue::Integer(n)
}

fn text(s: &str) -> DbValue {
    DbValue::Text(s.to_string())
}

fn double(f: f64) -> DbValue {
    DbValue::Real(f.to_bits())
}

fn table(columns: &[&str], rows: Vec<Vec<DbValue>>) -> QueryResult {
    QueryResult { columns: columns.iter().map(|c| c.to_string()).collect(), rows }
}

fn shown(rows: &[Vec<DbValue>]) -> Vec<Vec<String>> {
    let show = |v: &DbValue| match v {
        DbValue::Null => "null".to_string(),
        DbValue::Integer(n) => n.to_string(),
        DbValue::Real(bits) => format!("{:?}", f64::from_bits(*bits)),
        DbValue::Text(s) => s.clone(),
        DbValue::Blob(b) => format!("{b:?}"),
    };
    rows.iter().map(|r| r.iter().map(show).collect()).collect()
}

fn run(sql: &str, parts: Vec<QueryResult>) -> Vec<Vec<String>> {
    shown(&merge_results(&plan(sql).unwrap(), &parts, &fold).rows)
}

fn column(rows: &[i64]) -> QueryResult {
    table(&["a"], rows.iter().map(|n| vec![whole(*n)]).collect())
}

#[test]
fn rows_are_concatenated_and_limited() {
    let parts = || vec![column(&[1, 2]), table(&[], vec![]), column(&[3])];
    assert_eq!(run("SELECT a FROM t", parts()), vec![vec!["1"], vec!["2"], vec!["3"]]);
    assert_eq!(run("SELECT a FROM t LIMIT 2", parts()), vec![vec!["1"], vec!["2"]]);
    let merged = merge_results(&plan("SELECT a FROM t").unwrap(), &parts(), &fold);
    assert_eq!(merged.columns, vec!["a".to_string()]);
}

#[test]
fn ordered_rows_are_merged_stably() {
    let a = table(&["k", "n"], vec![vec![whole(1), text("a1")], vec![whole(3), text("a3")]]);
    let b = table(&["k", "n"], vec![vec![whole(1), text("b1")], vec![whole(2), text("b2")]]);
    assert_eq!(
        run("SELECT k, n FROM t ORDER BY k LIMIT 3", vec![a, b]),
        vec![vec!["1", "a1"], vec!["1", "b1"], vec!["2", "b2"]]
    );
}

#[test]
fn the_first_rows_of_each_shard_suffice() {
    let whole = || vec![column(&[1, 4, 6, 9]), column(&[2, 3, 5, 8])];
    let tops = || vec![column(&[1, 4]), column(&[2, 3])];
    let sql = "SELECT a FROM t ORDER BY a LIMIT 2";
    assert_eq!(run(sql, whole()), run(sql, tops()));
}

#[test]
fn partial_aggregates_add_up() {
    let part = |n: i64| column(&[n]);
    assert_eq!(run("SELECT count(*) FROM t", vec![part(3), part(4)]), vec![vec!["7"]]);
    assert_eq!(run("SELECT min(a) FROM t", vec![part(3), part(-4)]), vec![vec!["-4"]]);
    assert_eq!(run("SELECT max(a) FROM t", vec![part(3), part(-4)]), vec![vec!["3"]]);
    let null = table(&["a"], vec![vec![DbValue::Null]]);
    assert_eq!(run("SELECT sum(a) FROM t", vec![null, part(5)]), vec![vec!["5"]]);
    let null = table(&["a"], vec![vec![DbValue::Null]]);
    assert_eq!(run("SELECT sum(a) FROM t", vec![null]), vec![vec!["null"]]);
    let reals = vec![table(&["a"], vec![vec![double(1.5)]]), part(2)];
    assert_eq!(run("SELECT sum(a) FROM t", reals), vec![vec!["3.5"]]);
    let large = vec![part(i64::MAX - 1), part(1)];
    assert_eq!(run("SELECT sum(a) FROM t", large), vec![vec!["9223372036854775807"]]);
}

#[test]
fn averages_divide_once() {
    let part = |s: i64, n: i64| table(&["s", "n"], vec![vec![whole(s), whole(n)]]);
    assert_eq!(run("SELECT avg(a) FROM t", vec![part(10, 1), part(2, 3)]), vec![vec!["3.0"]]);
    let none = table(&["s", "n"], vec![vec![DbValue::Null, whole(0)]]);
    assert_eq!(run("SELECT avg(a) FROM t", vec![none]), vec![vec!["null"]]);
}

#[test]
fn groups_are_put_together_and_filtered() {
    let row = |g: &str, n: i64, s: i64| vec![text(g), whole(n), whole(s)];
    let a = table(&["g", "c", "s"], vec![row("x", 1, 5), row("y", 2, 20)]);
    let b = table(&["g", "c", "s"], vec![row("x", 3, 6), row("z", 1, 1)]);
    let sql = "SELECT g, count(*) FROM t GROUP BY g HAVING sum(v) > 10 ORDER BY g";
    assert_eq!(run(sql, vec![a, b]), vec![vec!["x", "4"], vec!["y", "2"]]);
}

#[test]
fn an_unknown_having_drops_the_group() {
    let a = table(&["g", "s"], vec![vec![text("x"), DbValue::Null], vec![text("y"), whole(1)]]);
    let sql = "SELECT g FROM t GROUP BY g HAVING NOT (sum(v) > 0)";
    assert!(run(sql, vec![a]).is_empty());
}

#[test]
fn duplicates_are_dropped_across_shards() {
    let sql = "SELECT DISTINCT a FROM t ORDER BY a";
    let parts = vec![column(&[2, 2, 1]), column(&[1, 3])];
    assert_eq!(run(sql, parts), vec![vec!["1"], vec!["2"], vec!["3"]]);
    let mut rows = vec![vec![whole(1)], vec![double(1.0)], vec![DbValue::Null], vec![DbValue::Null]];
    dedup_rows(&mut rows);
    assert_eq!(shown(&rows), vec![vec!["1"], vec!["null"]]);
}

#[test]
fn shards_may_drop_their_own_duplicates() {
    let sql = "SELECT DISTINCT a FROM t";
    let whole = vec![column(&[2, 2, 1]), column(&[1, 3, 3])];
    let sent = vec![column(&[2, 1]), column(&[1, 3])];
    assert_eq!(run(sql, whole), run(sql, sent));
}

#[test]
fn set_operators_count_copies() {
    let rows = |v: &[i64]| v.iter().map(|n| vec![whole(*n)]).collect::<Vec<_>>();
    let op = |k, all, l: &[i64], r: &[i64]| {
        apply_set_op(k, all, rows(l), rows(r))
            .iter()
            .map(|r| match r[0] {
                DbValue::Integer(n) => n,
                _ => panic!(),
            })
            .collect::<Vec<i64>>()
    };
    assert_eq!(op(SetKind::Union, true, &[1, 1], &[1]), vec![1, 1, 1]);
    assert_eq!(op(SetKind::Union, false, &[1, 1], &[2, 1]), vec![1, 2]);
    assert_eq!(op(SetKind::Intersect, true, &[1, 1, 1, 2], &[1, 1, 3]), vec![1, 1]);
    assert_eq!(op(SetKind::Intersect, false, &[1, 1, 2], &[1, 1]), vec![1]);
    assert_eq!(op(SetKind::Except, true, &[1, 1, 1, 2], &[1]), vec![1, 1, 2]);
    assert_eq!(op(SetKind::Except, false, &[1, 2, 2], &[1]), vec![2]);
    let tree = SetTree::Op {
        op: SetKind::Except,
        all: false,
        left: Box::new(SetTree::Leaf(0)),
        right: Box::new(SetTree::Leaf(1)),
    };
    let out = evaluate_set_tree(&tree, &vec![column(&[3, 1]), column(&[1])]);
    assert_eq!(shown(&out), vec![vec!["3"]]);
}

#[test]
fn sorting_skipping_and_limiting() {
    let mut rows = vec![vec![whole(3)], vec![DbValue::Null], vec![whole(1)], vec![text("a")]];
    let keys = vec![SortKey { column: 0, descending: false, nulls_first: true }];
    finalize_rows(&mut rows, &keys, 1, Some(2));
    assert_eq!(shown(&rows), vec![vec!["1"], vec!["3"]]);
    finalize_rows(&mut rows, &Vec::new(), 5, None);
    assert!(rows.is_empty());
}

#[test]
fn values_have_the_order_of_sqlite() {
    let ordered = [
        DbValue::Null,
        double(f64::NEG_INFINITY),
        whole(-1),
        double(-0.5),
        whole(0),
        double(0.5),
        whole(1),
        whole(i64::MAX),
        text(""),
        text("a"),
        text("é"),
        DbValue::Blob(vec![]),
        DbValue::Blob(vec![0]),
    ];
    for (i, a) in ordered.iter().enumerate() {
        for (j, b) in ordered.iter().enumerate() {
            let expected = match i.cmp(&j) {
                std::cmp::Ordering::Less => Order::Less,
                std::cmp::Ordering::Equal => Order::Equal,
                std::cmp::Ordering::Greater => Order::Greater,
            };
            assert_eq!(compare_values(a, b), expected, "{a:?} {b:?}");
        }
    }
    assert_eq!(compare_values(&whole(2), &double(2.0)), Order::Equal);
    assert_eq!(compare_values(&double(0.0), &double(-0.0)), Order::Equal);
    assert_eq!(order_texts("abc", "abd"), Order::Less);
}

#[test]
fn only_plans_with_parts_are_merged() {
    let parts = vec![column(&[1]), column(&[2])];
    let single = merge_results(&Plan::SingleShard, &parts, &fold);
    assert_eq!(shown(&single.rows), vec![vec!["1"]]);
}
