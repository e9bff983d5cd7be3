use shardlite::query::plan::ShardKeys;
use shardlite::query::route::{
    primary_key_of, route_statement, route_statement_with, shard_key_update, Route,
};

fn keys() -> ShardKeys {
    let mut k = ShardKeys::new();
    k.insert("users".to_string(), "id".to_string());
    k
}

/// The first byte of a key picks its shard.
fn first_byte(key: &Vec<u8>) -> u32 {
    key.first().map(|b| *b as u32).unwrap_or(99)
}

fn route(sql: &str) -> Route {
    route_statement_with(sql, &keys(), &first_byte)
}

#[test]
fn an_insert_goes_where_its_key_lives() {
    assert!(matches!(route("INSERT INTO users (id, name) VALUES (3, 'a')"), Route::One(3)));
    assert!(matches!(route("INSERT INTO users (name, id) VALUES ('a', 7)"), Route::One(7)));
    assert!(matches!(route("INSERT INTO users (id) VALUES ('A')"), Route::One(65)));
}

#[test]
fn a_lookup_goes_where_the_insert_went() {
    for v in ["3", "'A'", "255", "-1"] {
        let put = route(&format!("INSERT INTO users (id) VALUES ({v})"));
        let get = route(&format!("SELECT * FROM users WHERE id = {v}"));
        let change = route(&format!("UPDATE users SET name = 'x' WHERE id = {v}"));
        let gone = route(&format!("DELETE FROM users WHERE {v} = id"));
        match (put, get, change, gone) {
            (Route::One(a), Route::One(b), Route::One(c), Route::One(d)) => {
                assert!(a == b && b == c && c == d, "{v}")
            }
            other => panic!("{v}: {other:?}"),
        }
    }
}

#[test]
fn the_rows_of_an_insert_are_divided() {
    let sql = "INSERT INTO users (id, name) VALUES (1, 'a'), (2, 'b'), (1, 'c')";
    match route(sql) {
        Route::Split(parts) => {
            assert_eq!(parts.len(), 2);
            assert_eq!(parts[0].0, 1);
            assert!(parts[0].1.contains("(1, 'a'), (1, 'c')"), "{}", parts[0].1);
            assert_eq!(parts[1].0, 2);
            assert!(parts[1].1.contains("(2, 'b')"), "{}", parts[1].1);
        }
        other => panic!("{other:?}"),
    }
    assert!(matches!(route("INSERT INTO users (id) VALUES (5), (5)"), Route::One(5)));
}

#[test]
fn each_part_of_an_insert_keeps_all_but_the_rows() {
    let sql = "INSERT OR IGNORE INTO users (id, name) VALUES (2, 'b'), (1, 'a') \
               ON CONFLICT (id) DO NOTHING";
    match route(sql) {
        Route::Split(parts) => assert_eq!(
            parts,
            vec![
                (
                    1,
                    "INSERT OR IGNORE INTO users (id, name) VALUES (1, 'a') \
                     ON CONFLICT(id) DO NOTHING"
                        .to_string()
                ),
                (
                    2,
                    "INSERT OR IGNORE INTO users (id, name) VALUES (2, 'b') \
                     ON CONFLICT(id) DO NOTHING"
                        .to_string()
                ),
            ]
        ),
        other => panic!("{other:?}"),
    }
}

#[test]
fn further_conditions_do_not_move_a_lookup() {
    for sql in [
        "SELECT * FROM users WHERE id = 3 AND name = 'x'",
        "SELECT * FROM users WHERE name = 'x' AND (id = 3)",
        "UPDATE users SET name = 'y' WHERE age > 1 AND id = 3 AND name = 'x'",
        "DELETE FROM users WHERE (age = 1 OR age = 2) AND id = 3",
    ] {
        assert!(matches!(route(sql), Route::One(3)), "{sql}");
    }
    assert!(matches!(route("SELECT * FROM users WHERE id = 1 OR id = 2"), Route::Passthrough));
    assert!(matches!(route("UPDATE users SET name = 'y' WHERE id = 1 OR id = 2"), Route::All));
}

#[test]
fn a_write_that_pins_no_key_goes_everywhere() {
    assert!(matches!(route("UPDATE users SET name = 'x'"), Route::All));
    assert!(matches!(route("DELETE FROM users WHERE name = 'x'"), Route::All));
    assert!(matches!(route("DELETE FROM users WHERE id = 1 OR id = 2"), Route::All));
}

#[test]
fn what_cannot_be_routed_is_refused() {
    assert!(matches!(route("INSERT INTO users (name) VALUES ('a')"), Route::Refuse(_)));
    assert!(matches!(route("INSERT INTO users (id) VALUES (1 + 1)"), Route::Refuse(_)));
    assert!(matches!(route("UPDATE users SET id = 2 WHERE id = 1"), Route::Refuse(_)));
}

#[test]
fn the_rest_is_left_to_the_caller() {
    assert!(matches!(route("SELECT * FROM users"), Route::Passthrough));
    assert!(matches!(route("INSERT INTO other (id) VALUES (1)"), Route::Passthrough));
    assert!(matches!(route("not sql"), Route::Passthrough));
}

#[test]
fn a_hash_is_taken_modulo_the_shards() {
    let hash = |k: &Vec<u8>| k.iter().map(|b| *b as u64).sum::<u64>();
    let sql = "SELECT * FROM users WHERE id = 10";
    assert!(matches!(route_statement(sql, &keys(), 4, &hash), Route::One(2)));
}

#[test]
fn keys_of_tables() {
    assert_eq!(
        primary_key_of("CREATE TABLE Users (Id INTEGER PRIMARY KEY, n TEXT)"),
        Some(("Users".to_string(), "Id".to_string()))
    );
    assert_eq!(primary_key_of("CREATE TABLE t (a, b, PRIMARY KEY (a, b))"), None);
    assert_eq!(primary_key_of("SELECT 1"), None);
    assert_eq!(
        shard_key_update("UPDATE users SET id = 4", &keys()),
        Some("id".to_string())
    );
    assert_eq!(shard_key_update("UPDATE users SET name = 4", &keys()), None);
}
