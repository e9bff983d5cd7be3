use shardlite::query::plan::{
    plan, plan_with, Combine, CompareOp, HavingExpr, HavingValue, OutputCol, Plan, SetKind, SetTree,
    ShardKeys,
};
use shardlite::storage::exec::DbValue;

fn keyed(pairs: &[(&str, &str)]) -> ShardKeys {
    let mut keys = ShardKeys::new();
    for (t, c) in pairs {
        keys.insert(t.to_string(), c.to_string());
    }
    keys
}

fn refused(sql: &str) -> String {
    match plan(sql) {
        Err(u) => u.to_text(),
        Ok(p) => panic!("{sql}: {p:?}"),
    }
}

#[test]
fn a_plain_select_is_concatenated() {
    assert!(matches!(plan("SELECT a FROM t").unwrap(), Plan::Concat { limit: None }));
    assert!(matches!(plan("SELECT a FROM t LIMIT 5").unwrap(), Plan::Concat { limit: Some(5) }));
}

#[test]
fn an_ordered_select_is_merged() {
    match plan("SELECT a, b FROM t ORDER BY b DESC, 1 LIMIT 3").unwrap() {
        Plan::Merge { keys, limit } => {
            assert_eq!(limit, Some(3));
            assert_eq!(keys.len(), 2);
            assert_eq!((keys[0].column, keys[0].descending), (1, true));
            assert_eq!((keys[1].column, keys[1].descending), (0, false));
        }
        other => panic!("{other:?}"),
    }
}

#[test]
fn one_associative_aggregate_is_combined() {
    for (sql, kind) in [
        ("SELECT count(*) FROM t", Combine::Sum),
        ("SELECT COUNT(a) FROM t WHERE b > 1", Combine::Sum),
        ("SELECT sum(a) FROM t", Combine::Sum),
        ("SELECT min(a) FROM t", Combine::Min),
        ("SELECT MAX(a) FROM t", Combine::Max),
    ] {
        match plan(sql).unwrap() {
            Plan::Aggregate { combine } => assert_eq!(combine, kind, "{sql}"),
            other => panic!("{sql}: {other:?}"),
        }
    }
}

#[test]
fn an_average_carries_its_sum_and_count() {
    match plan("SELECT avg(a) FROM t").unwrap() {
        Plan::Grouped(g) => {
            assert_eq!(g.shard_sql, "SELECT SUM(a), COUNT(a) FROM t");
            assert!(g.group_cols.is_empty());
            assert_eq!(g.outputs.len(), 1);
            assert!(matches!(g.outputs[0], OutputCol::Avg { sum_col: 0, count_col: 1 }));
        }
        other => panic!("{other:?}"),
    }
}

#[test]
fn a_group_is_reaggregated() {
    let sql = "SELECT g, count(*) AS n FROM t GROUP BY g HAVING sum(v) > 10 ORDER BY n DESC LIMIT 2";
    match plan(sql).unwrap() {
        Plan::Grouped(g) => {
            assert_eq!(g.shard_sql, "SELECT g, count(*), sum(v) FROM t GROUP BY g");
            assert_eq!(g.group_cols, vec![0]);
            assert_eq!(g.visible_count, 2);
            assert_eq!(g.outputs.len(), 3);
            assert!(matches!(g.outputs[0], OutputCol::Group(0)));
            assert!(matches!(g.outputs[1], OutputCol::Combine { kind: Combine::Sum, col: 1 }));
            assert!(matches!(g.outputs[2], OutputCol::Combine { kind: Combine::Sum, col: 2 }));
            assert_eq!(g.output_names, vec!["g".to_string(), "n".to_string()]);
            assert_eq!(g.limit, Some(2));
            assert_eq!((g.order_by[0].column, g.order_by[0].descending), (1, true));
            match g.having.as_ref().unwrap() {
                HavingExpr::Compare { left, op, right } => {
                    assert!(matches!(left, HavingValue::Column(2)));
                    assert_eq!(*op, CompareOp::Gt);
                    assert!(matches!(right, HavingValue::Literal(DbValue::Integer(10))));
                }
                other => panic!("{other:?}"),
            }
        }
        other => panic!("{other:?}"),
    }
}

#[test]
fn duplicates_and_offsets_are_handled_on_the_coordinator() {
    match plan("SELECT DISTINCT a FROM t ORDER BY a LIMIT 2 OFFSET 3").unwrap() {
        Plan::PostProcess(p) => {
            assert!(p.distinct);
            assert_eq!(p.shard_sql, "SELECT DISTINCT a FROM t ORDER BY a LIMIT 5");
            assert_eq!((p.offset, p.limit), (3, Some(2)));
        }
        other => panic!("{other:?}"),
    }
    match plan("SELECT a FROM t ORDER BY a LIMIT 2 OFFSET 3").unwrap() {
        Plan::PostProcess(p) => {
            assert!(!p.distinct);
            assert_eq!(p.shard_sql, "SELECT a FROM t ORDER BY a LIMIT 5");
        }
        other => panic!("{other:?}"),
    }
}

#[test]
fn a_set_operation_fans_out_its_branches() {
    match plan("SELECT a FROM t UNION ALL SELECT a FROM u EXCEPT SELECT a FROM v").unwrap() {
        Plan::SetOp(s) => {
            assert_eq!(s.branches.len(), 3);
            match s.tree {
                SetTree::Op { op, all, left, right } => {
                    assert_eq!((op, all), (SetKind::Except, false));
                    assert!(matches!(*right, SetTree::Leaf(2)));
                    match *left {
                        SetTree::Op { op, all, .. } => assert_eq!((op, all), (SetKind::Union, true)),
                        other => panic!("{other:?}"),
                    }
                }
                other => panic!("{other:?}"),
            }
        }
        other => panic!("{other:?}"),
    }
}

#[test]
fn subqueries_are_evaluated_first() {
    for sql in [
        "SELECT a FROM t WHERE a = (SELECT max(a) FROM t)",
        "SELECT a FROM t WHERE a IN (SELECT b FROM u)",
        "SELECT a FROM t WHERE EXISTS (SELECT 1 FROM u)",
    ] {
        assert!(matches!(plan(sql).unwrap(), Plan::Subqueries), "{sql}");
    }
}

#[test]
fn a_join_on_shard_keys_is_pushed_down_and_others_are_central() {
    let sql = "SELECT a.x FROM a JOIN b ON a.id = b.aid";
    let keys = keyed(&[("a", "id"), ("b", "aid")]);
    assert!(matches!(plan_with(sql, &keys).unwrap(), Plan::Concat { limit: None }));
    match plan(sql).unwrap() {
        Plan::Central(c) => {
            assert_eq!(c.sources.len(), 2);
            assert_eq!(c.sources[0].table, "a");
        }
        other => panic!("{other:?}"),
    }
    match plan("SELECT z.k FROM (SELECT k FROM t) z").unwrap() {
        Plan::Central(c) => {
            assert_eq!(c.sources[0].table, "z");
            assert_eq!(c.sources[0].sql, "SELECT k FROM t");
            assert_eq!(c.central_sql, "SELECT z.k FROM \"z\"");
        }
        other => panic!("{other:?}"),
    }
}

#[test]
fn derived_tables_are_named_wherever_they_stand() {
    let sql = "SELECT * FROM a, (SELECT k FROM t) AS y JOIN (SELECT k FROM u) AS \"q\"\"r\" \
               ON y.k = \"q\"\"r\".k WHERE a.x > 1 ORDER BY 1 LIMIT 2";
    match plan(sql).unwrap() {
        Plan::Central(c) => {
            let tables: Vec<&str> = c.sources.iter().map(|s| s.table.as_str()).collect();
            assert_eq!(tables, vec!["a", "y", "q\"r"]);
            assert_eq!(c.sources[2].sql, "SELECT k FROM u");
            assert_eq!(
                c.central_sql,
                "SELECT * FROM a, \"y\" JOIN \"q\"\"r\" ON y.k = \"q\"\"r\".k WHERE a.x > 1 \
                 ORDER BY 1 LIMIT 2"
            );
        }
        other => panic!("{other:?}"),
    }
}

#[test]
fn an_aggregate_needs_no_distinct() {
    match plan("SELECT DISTINCT count(DISTINCT a) FROM t").unwrap() {
        Plan::Central(c) => assert_eq!(c.central_sql, "SELECT count(DISTINCT a) FROM t"),
        other => panic!("{other:?}"),
    }
}

#[test]
fn a_distinct_aggregate_is_never_summed() {
    for sql in [
        "SELECT count(DISTINCT a) FROM t",
        "SELECT sum(DISTINCT a), count(*) FROM t",
        "SELECT g, count(DISTINCT a) FROM t GROUP BY g",
    ] {
        assert!(matches!(plan(sql).unwrap(), Plan::Central(_)), "{sql}");
    }
}

#[test]
fn what_cannot_be_answered_is_refused() {
    for sql in [
        "SELECT group_concat(a) FROM t",
        "SELECT a, count(*) FROM t",
        "WITH x AS (SELECT 1) SELECT * FROM x",
        "SELECT a FROM t; SELECT b FROM t",
        "SELEC a",
        "DELETE FROM t",
    ] {
        let why = refused(sql);
        assert!(why.contains("cannot be answered across shards"), "{sql}: {why}");
    }
}

#[test]
fn plans_describe_themselves() {
    let d = plan("SELECT a FROM t ORDER BY a").unwrap().describe();
    assert_eq!((d.strategy, d.heavy), ("fan-out · ordered merge", false));
    let d = plan("SELECT z.k FROM (SELECT k FROM t) z").unwrap().describe();
    assert_eq!((d.strategy, d.heavy), ("central execution", true));
}
