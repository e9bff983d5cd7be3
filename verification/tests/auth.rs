use shardlite::error::Error;
use shardlite::net::auth::{
    derive_key, prove, required, required_by_verb, AuthConfig, Requirement as N, Requirement, Role,
};
use shardlite::net::protocol::Request;
use shardlite::storage::exec::DbStatement;

fn nonce(seed: u8) -> [u8; 32] {
    let mut n = [0u8; 32];
    for (i, b) in n.iter_mut().enumerate() {
        *b = seed.wrapping_mul(31).wrapping_add(i as u8);
    }
    n
}

#[test]
fn a_correct_proof_authenticates_with_its_role() {
    let auth = AuthConfig::new().user("app", "s3cret", Role::Write);
    let n = nonce(1);
    let proof = prove(&derive_key("s3cret"), &n);
    assert_eq!(auth.verify("app", &n, &proof), Some(Role::Write));
}

#[test]
fn a_wrong_secret_or_unknown_name_is_refused_identically() {
    let auth = AuthConfig::new().user("app", "s3cret", Role::Write);
    let n = nonce(1);
    let bad = prove(&derive_key("wrong"), &n);
    assert_eq!(auth.verify("app", &n, &bad), None);
    assert_eq!(auth.verify("nobody", &n, &bad), None);
}

#[test]
fn a_proof_is_bound_to_its_nonce() {
    let auth = AuthConfig::new().user("app", "s3cret", Role::Write);
    let n1 = nonce(1);
    let n2 = nonce(2);
    assert_ne!(n1, n2, "nonces must be fresh");
    let proof_for_n1 = prove(&derive_key("s3cret"), &n1);
    assert_eq!(auth.verify("app", &n2, &proof_for_n1), None);
}

#[test]
fn the_role_ladder_is_ordered_and_cluster_is_off_it() {
    assert!(Role::Read.permits(N::Read) && !Role::Read.permits(N::Write));
    assert!(Role::Write.permits(N::Read) && Role::Write.permits(N::Write));
    assert!(!Role::Write.permits(N::Admin));
    assert!(Role::Admin.permits(N::Read) && Role::Admin.permits(N::Admin));
    assert!(!Role::Admin.permits(N::Cluster));
    assert!(Role::Cluster.permits(N::Cluster));
    assert!(!Role::Cluster.permits(N::Read));
}

#[test]
fn a_key_is_the_hash_of_its_secret() {
    // BLAKE3 of the empty input.
    let expected = [
        0xaf, 0x13, 0x49, 0xb9, 0xf5, 0xf9, 0xa1, 0xa6, 0xa0, 0x40, 0x4d, 0xea, 0x36, 0xdc, 0xc9,
        0x49, 0x9b, 0xcb, 0x25, 0xc9, 0xad, 0xc1, 0x12, 0xb7, 0xcc, 0x9a, 0x93, 0xca, 0xe4, 0x1f,
        0x32, 0x62u8,
    ];
    assert_eq!(derive_key(""), expected);
    assert_ne!(derive_key("a"), derive_key("b"));
    assert_ne!(prove(&derive_key("a"), &nonce(1)), derive_key("a"));
    assert_ne!(prove(&derive_key("a"), &nonce(1)), nonce(1));
}

#[test]
fn users_are_saved_and_read_back() {
    let (mut auth, text) = AuthConfig::open("users", None).unwrap();
    assert_eq!(text.as_deref(), Some("shardlite-users-v1\n"));
    assert!(auth.is_empty());
    let text = auth.create("bob", derive_key("x"), Role::Admin).unwrap().unwrap();
    assert!(text.starts_with("shardlite-users-v1\nuser bob admin "));
    let text = auth.create("ann", derive_key("y"), Role::Read).unwrap().unwrap();
    let again = AuthConfig::open("users", Some(&text)).unwrap().0;
    let names: Vec<(String, Role)> = again.list();
    assert_eq!(names, vec![("ann".to_string(), Role::Read), ("bob".to_string(), Role::Admin)]);
    let n = nonce(7);
    assert_eq!(again.verify("ann", &n, &prove(&derive_key("y"), &n)), Some(Role::Read));
}

#[test]
fn users_without_a_file_are_not_saved() {
    let mut auth = AuthConfig::new();
    assert_eq!(auth.create("ann", derive_key("y"), Role::Read).unwrap(), None);
    assert!(!auth.is_empty());
    let (found, text) = auth.drop_user("ann");
    assert!(found && text.is_none());
    assert!(!auth.drop_user("ann").0);
}

#[test]
fn a_name_with_a_space_is_refused() {
    let mut auth = AuthConfig::new();
    for name in ["", "a b", "tab\there"] {
        match auth.create(name, derive_key("y"), Role::Read) {
            Err(Error::Protocol(m)) => {
                assert_eq!(m, "a user name must be non-empty and contain no whitespace")
            }
            other => panic!("{other:?}"),
        }
    }
}

#[test]
fn a_damaged_users_file_is_refused() {
    let refused = |text: &str| match AuthConfig::open("users", Some(text)) {
        Err(e) => e.to_text(),
        Ok(_) => panic!("accepted"),
    };
    assert!(refused("something else").contains("is not a shardlite users file"));
    assert!(refused("shardlite-users-v1\nuser a").contains("malformed"));
    assert!(refused("shardlite-users-v1\nuser a read zz").contains("bad key"));
    let key = "0".repeat(64);
    let line = format!("shardlite-users-v1\nuser a king {key}");
    assert_eq!(refused(&line), "unknown role 'king'; expected read, write, admin or cluster");
    let spaced = format!("shardlite-users-v1\n\nuser a read {key}\n");
    assert!(AuthConfig::open("users", Some(&spaced)).is_ok());
}

#[test]
fn roles_are_named() {
    for role in [Role::Read, Role::Write, Role::Admin, Role::Cluster] {
        assert_eq!(Role::parse(role.name()).unwrap(), role);
    }
    assert!(Role::parse("Read").is_err());
}

#[test]
fn what_a_statement_demands_follows_its_verb() {
    assert_eq!(required_by_verb("create table t (a)"), Requirement::Admin);
    assert_eq!(required_by_verb("  DELETE FROM t"), Requirement::Write);
    assert_eq!(required_by_verb("select 1"), Requirement::Read);
    let run = Request::Run { statement: DbStatement::new("REPLACE INTO t VALUES (1)") };
    assert_eq!(required(&run), Requirement::Write);
    assert_eq!(required(&Request::Direct(Box::new(run))), Requirement::Cluster);
    assert_eq!(required(&Request::ListUsers), Requirement::Admin);
    assert_eq!(required(&Request::Info), Requirement::Read);
    let auth = Request::Auth { name: "a".to_string(), proof: [0; 32] };
    assert_eq!(required(&auth), Requirement::Handshake);
    assert!(Role::Read.permits(Requirement::Handshake));
}
