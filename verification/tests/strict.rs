use shardlite::query::plan::{plan, ShardKeys};
use shardlite::query::strict::{check, check_plan};
use shardlite::shard::classes::{TableClass, TableClasses};

fn keys() -> ShardKeys {
    let mut k = ShardKeys::new();
    k.insert("t".to_string(), "id".to_string());
    k
}

fn classes() -> TableClasses {
    let mut c = TableClasses::new();
    c.insert("t".to_string(), TableClass::Sharded);
    c
}

#[test]
fn limit_without_order_by_is_refused() {
    let err = check("SELECT id FROM t LIMIT 3", &keys(), &classes()).unwrap_err();
    assert!(err.contains("LIMIT without ORDER BY"), "{err}");
}

#[test]
fn limit_with_a_total_order_is_accepted() {
    assert!(check("SELECT id FROM t ORDER BY id LIMIT 3", &keys(), &classes()).is_ok());
    assert!(check("SELECT id FROM t ORDER BY grp, id LIMIT 3", &keys(), &classes()).is_ok());
}

#[test]
fn limit_with_a_tied_order_is_refused() {
    let err = check("SELECT id FROM t ORDER BY grp LIMIT 3", &keys(), &classes()).unwrap_err();
    assert!(err.contains("total order"), "{err}");
}

#[test]
fn an_unlimited_query_needs_no_order() {
    assert!(check("SELECT id FROM t", &keys(), &classes()).is_ok());
    assert!(check("SELECT id FROM t ORDER BY grp", &keys(), &classes()).is_ok());
}

#[test]
fn create_table_without_a_declared_class_is_refused() {
    let err = check("CREATE TABLE fresh (id INTEGER PRIMARY KEY)", &keys(), &classes()).unwrap_err();
    assert!(err.contains("no declared table class"), "{err}");
}

#[test]
fn create_table_with_a_declared_class_is_accepted() {
    assert!(check("CREATE TABLE t (id INTEGER PRIMARY KEY)", &keys(), &classes()).is_ok());
}

#[test]
fn central_execution_is_refused() {
    let plan = plan("SELECT z.k FROM (SELECT k FROM t) z").unwrap();
    assert!(check_plan(&plan).is_err());
}
