use shardlite::query::ddl::check_create_table;
use shardlite::shard::classes::{TableClass, TableClasses};

fn classes() -> TableClasses {
    TableClasses::new()
}

#[test]
fn a_shard_local_schema_passes() {
    for sql in [
        "CREATE TABLE t (id INTEGER PRIMARY KEY, name TEXT)",
        "CREATE TABLE t (id INTEGER PRIMARY KEY UNIQUE, name TEXT)",
        "CREATE TABLE t (id INTEGER PRIMARY KEY, amt INTEGER CHECK (amt >= 0))",
        "CREATE TABLE t (id INTEGER PRIMARY KEY, name TEXT NOT NULL DEFAULT 'x')",
    ] {
        assert!(check_create_table(sql, &classes()).is_ok(), "{sql}");
    }
}

#[test]
fn unique_off_the_shard_key_is_refused() {
    let err = check_create_table(
        "CREATE TABLE u (id INTEGER PRIMARY KEY, email TEXT UNIQUE)",
        &classes(),
    )
    .unwrap_err();
    assert!(err.contains("UNIQUE"), "{err}");
    assert!(err.contains("global"), "the remedy must be named: {err}");
}

#[test]
fn unique_including_the_shard_key_is_allowed() {
    assert!(check_create_table(
        "CREATE TABLE u (id INTEGER PRIMARY KEY, email TEXT, UNIQUE (id, email))",
        &classes(),
    )
    .is_ok());
}

#[test]
fn foreign_keys_are_refused_on_a_sharded_table() {
    for sql in [
        "CREATE TABLE ch (id INTEGER PRIMARY KEY, pid INTEGER REFERENCES par(id))",
        "CREATE TABLE ch (id INTEGER PRIMARY KEY, pid INTEGER, FOREIGN KEY (pid) REFERENCES par(id))",
    ] {
        assert!(check_create_table(sql, &classes()).is_err(), "{sql}");
    }
}

#[test]
fn a_global_table_keeps_full_sqlite_semantics() {
    let mut classes = classes();
    classes.insert("u".to_string(), TableClass::Global);
    assert!(check_create_table(
        "CREATE TABLE u (id INTEGER PRIMARY KEY, email TEXT UNIQUE)",
        &classes,
    )
    .is_ok());
    classes.insert("ch".to_string(), TableClass::Global);
    assert!(check_create_table(
        "CREATE TABLE ch (id INTEGER PRIMARY KEY, pid INTEGER REFERENCES par(id))",
        &classes,
    )
    .is_ok());
}

#[test]
fn a_composite_primary_key_has_no_shard_key_to_include() {
    let err = check_create_table(
        "CREATE TABLE cp (a INTEGER, b INTEGER, email TEXT UNIQUE, PRIMARY KEY (a, b))",
        &classes(),
    )
    .unwrap_err();
    assert!(err.contains("no shard key"), "{err}");
}

#[test]
fn non_create_statements_are_not_gated() {
    for sql in ["SELECT 1", "INSERT INTO t (id) VALUES (1)", "DROP TABLE t"] {
        assert!(check_create_table(sql, &classes()).is_ok(), "{sql}");
    }
}
