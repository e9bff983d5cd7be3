use shardlite::calls::Line;
use shardlite::error::Error;
use shardlite::net::auth::{AuthConfig, Requirement, Role};
use shardlite::net::base64::base64_decode;
use shardlite::net::console::{
    agreement_json, catalog_json, cluster_json as console_cluster, config_json, explain_json,
    health_json, info_json as console_info, meta_json, planned_json, replication_json, shards_json, stats_json,
    topology_json, Agreement, CatalogFacts, CheckpointFacts, ConversionFacts, GatewayFacts,
    HttpStats, MemberFacts, PlacementFacts, ProposalFacts,
};
use shardlite::net::http_admin::{
    check_catalog, check_shardkey, is_simple_ident, member_command, plan_cordon, plan_drain,
    plan_member, plan_prefer, plan_shard_op, plan_shardkey, plan_step_down, shard_named,
    voters_command, CatalogCommand, MemberPlan, SelfPlan, ShardOp, Standing,
};
use shardlite::net::http_gateway::{
    authenticate, check, dispatch, error_to_http, http_credentials, Endpoint, HttpConfig, Method,
};
use shardlite::net::http_ops::{
    archival_json, archive_plan, create_user_request, execute_request, plan_query, print_lines, result_lines,
    run_request, snapshot_all, stream_line, tx_request, ArchiveBody, Archived, ArchivePlan, QueryBody,
    QueryPlan, SnapshotTry, StmtBody,
};
use shardlite::net::json::{
    cluster_json, consistency_from, fleet_stats_json, frames_json_for, info_json, json_params, response_json_body,
    response_status, statement_from, value_to_json, ClusterFacts, ElectionFacts, ReaderFacts,
    WalFacts, WalHeader, WriterFacts,
};
use shardlite::net::json_tcp::{
    answer_frame, build_request, frame_length, read_frame, relay_frames, serve_frame, stream_frame,
    text_frame, write_frame, JsonGate, JsonStep, JsonTcpConfig, StreamMsg,
};
use shardlite::net::protocol::{ReadConsistency, Request, Response, ShardOutcome};
use shardlite::net::server::NodeFacts;
use shardlite::query::plan::ShardKeys;
use shardlite::query::{Plan, Unsupported};
use shardlite::replication::ack::AckTracker;
use shardlite::s3::config::S3Summary;
use shardlite::s3::sink::S3SinkStatus;
use shardlite::shard::ShardId;
use shardlite::storage::exec::{DbValue, QueryResult};

fn json(text: &str) -> serde_json::Value {
    serde_json::from_str(text).unwrap()
}

fn show(bits: u64) -> serde_json::Value {
    serde_json::Value::from(f64::from_bits(bits))
}

fn challenge() -> Result<[u8; 32], Error> {
    Ok([5; 32])
}

// ---- values ------------------------------------------------------------------------------------

#[test]
fn values_become_json() {
    let blob = DbValue::Blob(vec![0, 255]);
    assert_eq!(value_to_json(&DbValue::Null, &show), json("null"));
    assert_eq!(value_to_json(&DbValue::Integer(-3), &show), json("-3"));
    assert_eq!(value_to_json(&DbValue::Real(1.5f64.to_bits()), &show), json("1.5"));
    assert_eq!(value_to_json(&DbValue::Text("é\"".to_string()), &show), json("\"é\\\"\""));
    assert_eq!(value_to_json(&blob, &show), json("[0,255]"));
}

#[test]
fn json_becomes_parameters() {
    let items = json("[null, true, -7, 9223372036854775807, 1.5, 18446744073709551615, \"x\"]");
    let params = json_params(items.as_array().unwrap()).unwrap();
    assert!(matches!(params[0], DbValue::Null));
    assert!(matches!(params[1], DbValue::Integer(1)));
    assert!(matches!(params[2], DbValue::Integer(-7)));
    assert!(matches!(params[3], DbValue::Integer(i64::MAX)));
    assert!(matches!(params[4], DbValue::Real(b) if b == 1.5f64.to_bits()));
    assert!(matches!(params[5], DbValue::Real(b) if b == 18446744073709551615f64.to_bits()));
    assert!(matches!(&params[6], DbValue::Text(s) if s == "x"));
    let bad = json("[1, {\"a\": [2]}]");
    assert_eq!(
        json_params(bad.as_array().unwrap()).unwrap_err(),
        "unsupported parameter type: {\"a\":[2]}"
    );
    let s = statement_from("SELECT ?1", &vec![json("4")]).unwrap();
    assert_eq!((s.sql.as_str(), s.params.len()), ("SELECT ?1", 1));
}

#[test]
fn freshness_is_read() {
    let ask = |t: &str| consistency_from(Some(&json(t)));
    assert_eq!(ask("\"stale\""), ReadConsistency::Stale);
    assert_eq!(ask("\"other\""), ReadConsistency::Linearizable);
    assert_eq!(ask("{\"at_least_lsn\": 12}"), ReadConsistency::AtLeastLsn(12));
    assert_eq!(ask("{\"at_least_lsn\": -1}"), ReadConsistency::Linearizable);
    assert_eq!(ask("[1]"), ReadConsistency::Linearizable);
    assert_eq!(consistency_from(None), ReadConsistency::Linearizable);
}

#[test]
fn responses_become_json() {
    let rows = Response::Rows {
        columns: vec!["a".to_string()],
        rows: vec![vec![DbValue::Integer(1)], vec![DbValue::Null]],
    };
    assert_eq!(response_json_body(rows, &show), json("{\"columns\":[\"a\"],\"rows\":[[1],[null]]}"));
    let all = Response::AllShards {
        outcomes: vec![(0, ShardOutcome::Applied), (1, ShardOutcome::Rejected("no".to_string()))],
    };
    assert_eq!(
        response_json_body(all, &show),
        json(
            "{\"shards\":[{\"shard\":0,\"ok\":true,\"error\":null},\
              {\"shard\":1,\"ok\":false,\"error\":\"no\"}]}"
        )
    );
    let users = Response::Users { users: vec![("a".to_string(), Role::Admin)] };
    assert_eq!(
        response_json_body(users, &show),
        json("{\"users\":[{\"name\":\"a\",\"role\":\"admin\"}]}")
    );
    let odd = Response::UpToDate { shard: 1 };
    assert_eq!(response_json_body(odd, &show), json("{\"error\":\"unexpected response: UpToDate\"}"));
    let stale = Response::TooStale { shard: 1, have: 2, need: 3 };
    assert_eq!(response_status(&stale), 409);
    assert_eq!(
        response_json_body(stale, &show),
        json("{\"error\":\"too stale\",\"shard\":1,\"have\":2,\"need\":3}")
    );
}

#[test]
fn responses_have_a_status() {
    let error = |m: &str, retryable| Response::Error { message: m.to_string(), retryable };
    assert_eq!(response_status(&error("busy", true)), 503);
    assert_eq!(response_status(&error("this node is not the leader", false)), 409);
    assert_eq!(response_status(&error("authentication failed", false)), 401);
    assert_eq!(response_status(&error("not permitted: x", false)), 403);
    assert_eq!(response_status(&error("x", false)), 400);
    assert_eq!(response_status(&Response::Rejected { message: String::new() }), 400);
    assert_eq!(response_status(&Response::Done), 200);
}

// ---- JSON over TCP -----------------------------------------------------------------------------

#[test]
fn frames_are_written_and_read() {
    let framed = write_frame(&json("{\"op\": \"info\"}")).unwrap();
    assert_eq!(framed[..4], [0, 0, 0, 13]);
    assert_eq!(&framed[4..], b"{\"op\":\"info\"}");
    assert_eq!(read_frame(&framed[4..].to_vec()).unwrap(), json("{\"op\":\"info\"}"));
    assert_eq!(text_frame("é").unwrap(), vec![0, 0, 0, 2, 195, 169]);
    assert!(read_frame(&b"{".to_vec()).is_err());
    assert_eq!(frame_length([0, 0, 1, 0]).unwrap(), 256);
    assert_eq!(
        frame_length([255, 0, 0, 0]).unwrap_err(),
        "request frame announces an over-limit size"
    );
    let long = serde_json::Value::from("x".repeat(16 * 1024 * 1024));
    assert_eq!(write_frame(&long).unwrap_err(), "response frame exceeds the size limit");
}

#[test]
fn operations_become_requests() {
    let build = |t: &str| {
        let f = json(t);
        let op = f.get("op").and_then(|v| v.as_str()).unwrap_or("").to_string();
        build_request(&op, &f)
    };
    match build("{\"op\":\"execute\",\"shard\":2,\"sql\":\"DELETE FROM t\",\"params\":[1]}").unwrap() {
        (Request::Execute { shard: 2, statements }, Requirement::Write) => {
            assert_eq!(statements[0].params.len(), 1)
        }
        other => panic!("{other:?}"),
    }
    match build("{\"op\":\"tx\",\"statements\":[{\"sql\":\"A\"},{\"sql\":\"B\",\"params\":[2]}]}").unwrap() {
        (Request::Transaction { shard: 0, statements }, Requirement::Write) => {
            assert_eq!(statements.len(), 2);
            assert_eq!(statements[1].sql, "B");
        }
        other => panic!("{other:?}"),
    }
    assert!(matches!(
        build("{\"op\":\"run\",\"sql\":\"CREATE TABLE t (a)\"}").unwrap(),
        (Request::Run { .. }, Requirement::Admin)
    ));
    match build("{\"op\":\"route\",\"key\":\"é\"}").unwrap() {
        (Request::Route { key }, Requirement::Read) => assert_eq!(key, "é".as_bytes()),
        other => panic!("{other:?}"),
    }
    match build("{\"op\":\"create_user\",\"name\":\"a\",\"secret\":\"s\",\"role\":\"read\"}").unwrap() {
        (Request::CreateUser { name, key, role: Role::Read }, Requirement::Admin) => {
            assert_eq!((name.as_str(), key), ("a", shardlite::net::auth::derive_key("s")))
        }
        other => panic!("{other:?}"),
    }
    assert!(build("{\"op\":\"create_user\",\"role\":\"king\"}").unwrap_err().contains("king"));
    assert_eq!(build("{\"op\":\"nope\"}").unwrap_err(), "unknown op: nope");
    assert!(build("{\"op\":\"execute\",\"params\":[[]]}").is_err());
    assert!(matches!(
        build("{\"op\":\"drop_user\",\"name\":\"a\"}").unwrap(),
        (Request::DropUser { .. }, Requirement::Admin)
    ));
    let wide = json("{\"shard\": 4294967298}");
    assert_eq!(shardlite::net::json_tcp::shard_in(&wide), 2);
}

#[test]
fn a_secured_socket_wants_a_proof_first() {
    let users = AuthConfig::new().user("ann", "pw", Role::Read);
    let mut gate = JsonGate::new(Some(&users));
    assert_eq!(gate, JsonGate::Unauthed);
    let mut send = |gate: &mut JsonGate, t: &str| {
        serve_frame(gate, &json(t), Some(&users), &None, &challenge)
    };
    match send(&mut gate, "{\"op\":\"info\"}") {
        JsonStep::Answer(v) => {
            assert_eq!(v, json("{\"error\":\"authentication required\",\"status\":401}"))
        }
        other => panic!("{other:?}"),
    }
    match send(&mut gate, "{\"op\":\"auth\",\"name\":\"ann\",\"secret\":\"no\"}") {
        JsonStep::Close(v) => {
            assert_eq!(v, json("{\"error\":\"authentication failed\",\"status\":401}"))
        }
        other => panic!("{other:?}"),
    }
    match send(&mut gate, "{\"op\":\"auth\",\"name\":\"ann\",\"secret\":\"pw\"}") {
        JsonStep::Answer(v) => assert_eq!(v, json("{\"result\":{\"ok\":true}}")),
        other => panic!("{other:?}"),
    }
    assert_eq!(gate, JsonGate::Authed(Role::Read));
    match send(&mut gate, "{\"op\":\"query\",\"shard\":1,\"sql\":\"SELECT 1\"}") {
        JsonStep::Stream { shard: 1, statement } => assert_eq!(statement.sql, "SELECT 1"),
        other => panic!("{other:?}"),
    }
    match send(&mut gate, "{\"op\":\"frames\",\"shard\":1}") {
        JsonStep::Answer(v) => assert_eq!(v, json("{\"error\":\"not permitted\",\"status\":403}")),
        other => panic!("{other:?}"),
    }
    assert!(matches!(send(&mut gate, "{\"op\":\"schema\",\"shard\":3}"), JsonStep::Schema(3)));
    assert!(matches!(send(&mut gate, "{\"op\":\"query_all\",\"sql\":\"x\"}"), JsonStep::Handle(_)));
    assert!(matches!(send(&mut gate, "{\"op\":\"list_users\"}"), JsonStep::Answer(_)));
}

#[test]
fn plain_sockets_do_not_carry_secrets_by_accident() {
    let users = AuthConfig::new().user("ann", "pw", Role::Read);
    let cfg = JsonTcpConfig::default();
    assert_eq!(cfg.addr, "127.0.0.1:4620");
    assert!(cfg.check(None).is_ok());
    assert!(cfg.check(Some(&users)).unwrap_err().to_text().starts_with("the JSON-TCP server has"));
    let accepted = JsonTcpConfig { insecure: true, ..JsonTcpConfig::default() };
    assert!(accepted.check(Some(&users)).is_ok());
    let http = HttpConfig::default();
    assert_eq!((http.addr.as_str(), http.workers), ("127.0.0.1:4680", 4));
    assert!(http.check(Some(&users)).unwrap_err().to_text().contains("--http-insecure"));
    assert_eq!(HttpConfig { workers: 0, ..HttpConfig::default() }.threads(), 1);
}

#[test]
fn answers_are_framed() {
    let r = Response::Changed { rows_affected: 1, last_insert_rowid: -2 };
    assert_eq!(
        answer_frame(r, &show),
        json("{\"result\":{\"rows_affected\":1,\"last_insert_rowid\":-2}}")
    );
    let r = Response::Rejected { message: "no".to_string() };
    assert_eq!(answer_frame(r, &show), json("{\"error\":\"no\",\"status\":400}"));
    let rows = Response::Rows {
        columns: vec!["a".to_string()],
        rows: vec![vec![DbValue::Integer(1)]],
    };
    assert_eq!(
        relay_frames(rows, &show),
        vec![json("{\"columns\":[\"a\"]}"), json("{\"row\":[1]}"), json("{\"end\":true}")]
    );
    assert_eq!(
        relay_frames(Response::Done, &show),
        vec![json("{\"error\":\"error\",\"status\":200}")]
    );
    let row = StreamMsg::Row(vec![DbValue::Real(0.5f64.to_bits())]);
    assert_eq!(stream_frame(&row, &show), (json("{\"row\":[0.5]}"), false));
    let failed = StreamMsg::Failed("x".to_string());
    assert_eq!(stream_frame(&failed, &show), (json("{\"error\":\"x\",\"status\":400}"), true));
    assert_eq!(stream_line(&failed, &show), (Some(json("{\"error\":\"x\"}")), true));
    assert_eq!(stream_line(&StreamMsg::Done, &show), (None, true));
}

// ---- HTTP --------------------------------------------------------------------------------------

#[test]
fn requests_find_their_endpoint() {
    let at = |m, u: &str| dispatch(m, u);
    assert!(matches!(at(Method::Get, "/v1/info?x=1"), Endpoint::Info));
    assert!(matches!(at(Method::Post, "/v1/info"), Endpoint::Unknown));
    assert!(matches!(at(Method::Post, "/v1/query"), Endpoint::Query));
    assert!(matches!(at(Method::Get, "/v1/schema/agreement"), Endpoint::Agreement));
    match at(Method::Get, "/v1/schema/12") {
        Endpoint::Schema { shard } => assert_eq!(shard, "12"),
        other => panic!("{other:?}"),
    }
    match at(Method::Post, "/v1/shards//v1/shards/3/vacuum") {
        Endpoint::ShardOp { suffix } => assert_eq!(suffix, "3/vacuum"),
        other => panic!("{other:?}"),
    }
    match at(Method::Post, "/v1/shards//v1/shards/") {
        Endpoint::ShardOp { suffix } => assert_eq!(suffix, ""),
        other => panic!("{other:?}"),
    }
    match at(Method::Delete, "/v1/users//v1/users/x") {
        Endpoint::DropUser { name } => assert_eq!(name, "x"),
        other => panic!("{other:?}"),
    }
    match at(Method::Delete, "/v1/users/bob") {
        Endpoint::DropUser { name } => assert_eq!(name, "bob"),
        other => panic!("{other:?}"),
    }
    match at(Method::Delete, "/v1/cluster/members/4") {
        Endpoint::Member { suffix, remove: true } => assert_eq!(suffix, "4"),
        other => panic!("{other:?}"),
    }
    assert!(matches!(at(Method::Other, "/v1/info"), Endpoint::Unknown));
    assert_eq!(Endpoint::Run.need(), None);
    assert_eq!(Endpoint::Tx.need(), Some(Requirement::Write));
    assert_eq!(Endpoint::Drain.need(), Some(Requirement::Admin));
    assert_eq!(Endpoint::Stats.need(), Some(Requirement::Read));
}

#[test]
fn base64_is_decoded() {
    assert_eq!(base64_decode("aGVsbG8=").unwrap(), b"hello");
    assert_eq!(base64_decode(" aGVsbG8 ").unwrap(), b"hello");
    assert_eq!(base64_decode("+/8=").unwrap(), vec![251, 255]);
    assert_eq!(base64_decode("").unwrap(), Vec::<u8>::new());
    assert_eq!(base64_decode("a-b"), None);
}

#[test]
fn credentials_come_in_two_schemes() {
    let pair = Some(("ann".to_string(), "s3:cret".to_string()));
    assert_eq!(http_credentials("Basic YW5uOnMzOmNyZXQ="), pair);
    assert_eq!(http_credentials("Bearer YW5uOnMzOmNyZXQ="), pair);
    assert_eq!(http_credentials("Digest YW5uOnMzOmNyZXQ="), None);
    assert_eq!(http_credentials("Basic YW5u"), None);
    assert_eq!(http_credentials("Basic //8="), None);
    assert_eq!(
        http_credentials("Basic w6k6eA=="),
        Some(("é".to_string(), "x".to_string()))
    );
}

#[test]
fn callers_are_verified() {
    let users = AuthConfig::new().user("ann", "s3:cret", Role::Write);
    let ask = |h: Option<&str>| authenticate(Some(&users), h, &challenge);
    assert_eq!(ask(Some("Basic YW5uOnMzOmNyZXQ=")).unwrap(), Some(Role::Write));
    let none = ask(None).unwrap_err();
    assert!(none.challenge && none.error.status == 401);
    let wrong = ask(Some("Basic w6k6eA==")).unwrap_err();
    assert_eq!(wrong.error.message, "authentication failed");
    assert_eq!(authenticate(None, None, &challenge).unwrap(), None);
    let broken = || Err(Error::Protocol("x".to_string()));
    let e = authenticate(Some(&users), Some("Basic YW5uOnMzOmNyZXQ="), &broken).unwrap_err();
    assert_eq!((e.error.status, e.challenge), (500, false));
    assert!(check(false, None, Requirement::Admin).is_ok());
    assert_eq!(check(true, None, Requirement::Read).unwrap_err().status, 401);
    assert_eq!(check(true, Some(Role::Read), Requirement::Write).unwrap_err().status, 403);
    assert!(check(true, Some(Role::Write), Requirement::Read).is_ok());
    assert_eq!(error_to_http(&Error::WriterBusy).status, 503);
    assert_eq!(error_to_http(&Error::NotLeader { leader: "2".to_string() }).status, 409);
    assert_eq!(error_to_http(&Error::Unsupported("x".to_string())).status, 400);
    assert_eq!(error_to_http(&Error::Manifest("x".to_string())).status, 500);
}

#[test]
fn bodies_become_requests() {
    let body = |params: Vec<serde_json::Value>| QueryBody {
        shard: 3,
        sql: "SELECT ?1".to_string(),
        params,
        consistency: Some(json("\"stale\"")),
    };
    assert!(matches!(
        plan_query(&body(vec![]), true).unwrap(),
        QueryPlan::Stream { shard: 3, .. }
    ));
    match plan_query(&body(vec![]), false).unwrap() {
        QueryPlan::Remote(Request::Query { shard: 3, consistency, .. }) => {
            assert_eq!(consistency, ReadConsistency::Stale)
        }
        other => panic!("{other:?}"),
    }
    assert_eq!(execute_request(&body(vec![json("{}")])).unwrap_err().status, 400);
    let statements = vec![StmtBody { sql: "A".to_string(), params: vec![json("1")] }];
    assert!(matches!(
        tx_request(9, &statements).unwrap(),
        Request::Transaction { shard: 9, .. }
    ));
    assert!(matches!(run_request("DELETE FROM t"), (Request::Run { .. }, Requirement::Write)));
    assert_eq!(create_user_request("a", "b", "king").unwrap_err().status, 400);
}

#[test]
fn lines_are_printed() {
    let rows = Response::Rows {
        columns: vec!["a".to_string()],
        rows: vec![vec![DbValue::Integer(1)], vec![DbValue::Null]],
    };
    let bytes = print_lines(&result_lines(rows, &show));
    assert_eq!(bytes, b"{\"columns\":[\"a\"]}\n[1]\n[null]\n");
    let bytes = print_lines(&result_lines(Response::Done, &show));
    assert_eq!(bytes, b"{\"ok\":true}\n");
}

#[test]
fn archival_is_configured() {
    let text = |s: &str| Some(s.to_string());
    let body = |bucket: Option<String>| ArchiveBody {
        enabled: None,
        bucket,
        endpoint: None,
        region: text("eu-1"),
        access_key: text("a"),
        secret_key: text("s"),
        prefix: None,
    };
    match archive_plan(body(text("b")), true).unwrap() {
        ArchivePlan::Attach { config, prefix } => {
            assert_eq!(config.endpoint, "https://s3.eu-1.amazonaws.com");
            assert_eq!(prefix, "shardlite");
        }
        other => panic!("{other:?}"),
    }
    assert_eq!(archive_plan(body(text("b")), false).unwrap_err().status, 409);
    assert_eq!(archive_plan(body(None), true).unwrap_err().message, "bucket is required");
    let off = ArchiveBody { enabled: Some(false), ..body(None) };
    assert!(matches!(archive_plan(off, false).unwrap(), ArchivePlan::Detach));
    let no_key = ArchiveBody { secret_key: None, ..body(text("b")) };
    assert_eq!(archive_plan(no_key, true).unwrap_err().message, "secret_key is required");
}

#[test]
fn one_failed_snapshot_does_not_stop_the_others() {
    let mut take = Line::new(|s: u32| match s {
        0 => SnapshotTry::Skipped,
        1 => SnapshotTry::Unreadable("gone".to_string()),
        n => SnapshotTry::Taken { epoch: 1, lsn: 2, bytes: vec![n as u8] },
    });
    let mut put = Line::new(|a: Archived| {
        if a.shard == 2 {
            Err(Error::Protocol("full".to_string()))
        } else {
            Ok(())
        }
    });
    assert_eq!(
        snapshot_all(4, &mut take, &mut put),
        json(
            "{\"ok\":false,\"snapshotted\":1,\
              \"errors\":[\"shard 1: reading snapshot: gone\",\"shard 2: full\"]}"
        )
    );
}

#[test]
fn the_cluster_is_administered() {
    let leader = Some(Standing { id: 1, is_leader: true, leader: Some(1) });
    let other = Some(Standing { id: 2, is_leader: false, leader: Some(1) });
    assert!(check_catalog(leader, true).is_ok());
    assert_eq!(check_catalog(None, true).unwrap_err().message, "this is not a cluster member");
    assert_eq!(
        check_catalog(other, true).unwrap_err().message,
        "catalog mutations must be sent to the leader; this node sees leader Some(1)"
    );
    assert_eq!(check_catalog(leader, false).unwrap_err().status, 409);
    assert_eq!(plan_member("4", true).unwrap(), MemberPlan::Remove(4));
    assert_eq!(plan_member("4/cordon", false).unwrap(), MemberPlan::Cordon(4));
    assert_eq!(plan_member("4/drain/x", false).unwrap(), MemberPlan::Drain(4));
    assert_eq!(plan_member("4/drain", true).unwrap_err().status, 404);
    assert_eq!(plan_member("x", false).unwrap_err().status, 400);
    assert!(matches!(
        member_command(MemberPlan::Cordon(4), None),
        CatalogCommand::Cordon { node: 4, cordoned: true }
    ));
    assert!(matches!(voters_command(vec![1], true), CatalogCommand::FinalizeVoterChange));
    assert!(matches!(plan_cordon(other, false, true).unwrap(), SelfPlan::Direct(2)));
    assert!(matches!(
        plan_drain(other, true).unwrap(),
        SelfPlan::Catalog(CatalogCommand::Drain { node: 2 })
    ));
    assert!(plan_drain(None, false).unwrap_err().message.ends_with("nothing to drain"));
    assert_eq!(
        plan_drain(None, true).unwrap_err().message,
        "catalog has no cluster runtime"
    );
    assert!(plan_step_down(None).is_err() && plan_prefer(leader).unwrap() == 1);
    assert_eq!(plan_shard_op("3/vacuum").unwrap(), (3, ShardOp::Vacuum));
    assert_eq!(plan_shard_op("3/recover-from-s3").unwrap(), (3, ShardOp::Recover));
    assert_eq!(plan_shard_op("3").unwrap_err().status, 404);
    assert_eq!(shard_named("x").unwrap_err().message, "shard must be a number");
    assert!(is_simple_ident("a_1") && !is_simple_ident("1a") && !is_simple_ident("a b"));
    assert_eq!(plan_shardkey("t", "c").unwrap(), "SELECT count(*) FROM \"t\"");
    assert!(plan_shardkey("t\"", "c").is_err());
    let counted = |n| QueryResult { columns: vec![], rows: vec![vec![DbValue::Integer(n)]] };
    assert!(check_shardkey(Some(&counted(0))).is_ok() && check_shardkey(None).is_ok());
    assert_eq!(check_shardkey(Some(&counted(2))).unwrap_err().status, 409);
}

// ---- the console -------------------------------------------------------------------------------

fn elections() -> ElectionFacts {
    ElectionFacts {
        elections_started: 1,
        became_leader: 2,
        stepped_down: 3,
        heartbeats_sent: 4,
        peer_unreachable: 5,
        votes_granted: 6,
        votes_refused: 7,
        handover_failed: 0,
        placement_changes: 9,
        last_change_ms: 10,
    }
}

fn cluster(leader: Option<u64>, live: Vec<u64>) -> ClusterFacts {
    ClusterFacts {
        id: 1,
        term: 2,
        role: "Leader".to_string(),
        leader,
        is_leader: leader == Some(1),
        is_cordoned: false,
        led_shards: vec![0],
        placement_term: 2,
        assignments: vec![(0, 1), (1, 2)],
        peers: vec![(2, "b:1".to_string()), (3, "c:1".to_string())],
        live,
        cordoned: vec![3],
        stats: elections(),
    }
}

fn gateway(cluster: Option<ClusterFacts>) -> GatewayFacts {
    GatewayFacts {
        node: NodeFacts { shard_count: 2, epoch: Some(4), wal_retries: 0, contended_opens: 0 },
        cluster,
        forwarding: true,
        catalog: false,
        capture: true,
        archiving: false,
        secured: true,
        workers: 4,
        insecure: false,
    }
}

fn text<'a>(v: &'a serde_json::Value, path: &str) -> &'a str {
    v.pointer(path).and_then(|x| x.as_str()).unwrap_or("?")
}

#[test]
fn health_follows_the_leader_and_the_quorum() {
    let status = |c| text(&health_json(&gateway(Some(c)), 5), "/status").to_string();
    assert_eq!(status(cluster(Some(1), vec![2])), "healthy");
    assert_eq!(status(cluster(Some(1), vec![])), "degraded");
    assert_eq!(status(cluster(Some(2), vec![])), "healthy");
    assert_eq!(status(cluster(None, vec![])), "unavailable");
    let alone = health_json(&gateway(None), 5);
    assert_eq!(text(&alone, "/status"), "healthy");
    assert_eq!(text(&alone, "/checks/consensus/reason"), "standalone");
}

#[test]
fn the_cluster_is_shown() {
    let v = console_cluster(&gateway(Some(cluster(Some(1), vec![2]))));
    assert_eq!(text(&v, "/role"), "leader");
    assert_eq!(text(&v, "/members/1/status"), "up");
    assert_eq!(text(&v, "/members/2/status"), "suspected");
    assert_eq!(v.pointer("/members/2/cordoned"), Some(&json("true")));
    assert_eq!(v.pointer("/placement/assignments/1"), Some(&json("2")));
    assert_eq!(v.pointer("/voters"), Some(&json("3")));
    let t = topology_json(&gateway(None), 9);
    assert_eq!(t, json(
        "{\"clustered\":false,\"shard_count\":2,\"api_version\":1,\"observed_at_ms\":9,\
          \"observer\":null}"
    ));
    let short = cluster_json(2, &Some(cluster(Some(1), vec![])));
    assert!(short.pointer("/members").is_none());
    assert_eq!(short.pointer("/stats/handover_failed"), Some(&json("0")));
    assert_eq!(cluster_json(2, &None), json("{\"clustered\":false,\"shard_count\":2}"));
}

#[test]
fn shards_are_shown_with_their_part() {
    let g = gateway(Some(cluster(Some(1), vec![])));
    let v = shards_json(&g, &None, &vec![11, 12], 5);
    assert_eq!(text(&v, "/shards/0/local_role"), "primary");
    assert_eq!(v.pointer("/shards/0/lsn"), Some(&json("11")));
    assert_eq!(text(&v, "/shards/1/local_role"), "unassigned");
    assert_eq!(v.pointer("/shards/1/owner"), Some(&json("2")));
    let mut acks = AckTracker::new(3, 1);
    acks.record(2, ShardId(0), 7);
    let r = replication_json(&g, &Some(acks), &None, &vec![11, 12], 5);
    assert_eq!(
        r.pointer("/shards"),
        Some(&json(
            "[{\"id\":0,\"role\":\"primary\",\"primary_lsn\":11,\"quorum_lsn\":7,\"lag\":4}]"
        ))
    );
    assert_eq!(r.pointer("/replicated"), Some(&json("true")));
}

#[test]
fn the_rest_of_the_console() {
    let g = gateway(None);
    assert_eq!(console_info(&g).pointer("/forwarding"), Some(&json("true")));
    assert_eq!(
        meta_json(&g).pointer("/capabilities/dynamic_scaling"),
        Some(&json("false"))
    );
    let c = config_json(&gateway(Some(cluster(None, vec![]))));
    assert_eq!(c.pointer("/settings/2/value"), Some(&json("[\"2=b:1\",\"3=c:1\"]")));
    assert_eq!(c.pointer("/settings/4/mutable"), Some(&json("true")));
    let d = Agreement::Disagreed { lowest: 1, highest: 3, behind: 0, ahead: 5 };
    assert_eq!(
        agreement_json(d),
        json("{\"status\":\"disagreed\",\"lowest\":1,\"highest\":3,\"behind\":0,\"ahead\":5}")
    );
    let planned = planned_json(&Ok(Plan::Merge { keys: vec![], limit: None }));
    assert_eq!(planned.pointer("/heavy"), Some(&json("false")));
    let refused = planned_json(&Err(Unsupported { what: "it", why: "so" }));
    assert_eq!(
        text(&refused, "/note"),
        "it cannot be answered across shards: so. Target a single shard instead, or restructure \
         the query."
    );
    let e = explain_json("SELECT a FROM t", &ShardKeys::new());
    assert_eq!(text(&e, "/strategy"), "fan-out · concat");
    let e = explain_json("SELECT group_concat(a) FROM t", &ShardKeys::new());
    assert_eq!(e.pointer("/supported"), Some(&json("false")));
    let facts = NodeFacts { shard_count: 2, epoch: None, wal_retries: 0, contended_opens: 0 };
    assert_eq!(info_json(&facts), json("{\"shard_count\":2,\"epoch\":null}"));
    let header = WalHeader {
        page_size: 4096,
        salt: vec![0, 171],
        frames: 3,
        transactions: 2,
        uncommitted_frames: 1,
        leftover_frames: 0,
    };
    let wal = frames_json_for(&WalFacts { file_bytes: 9, header: Some(header) });
    assert_eq!(text(&wal, "/salt"), "00ab");
    assert_eq!(
        frames_json_for(&WalFacts { file_bytes: 0, header: None }),
        json("{\"wal\":false,\"file_bytes\":0}")
    );
}

#[test]
fn counters_are_shown() {
    let w = WriterFacts {
        batches: 2,
        requests: 3,
        max_batch: 2,
        mean_batch: 1,
        open_now: 4,
        shard_opens: 5,
        shard_evictions: 6,
        threads: 7,
    };
    let r = ReaderFacts { queries: 8, rejected_busy: 9, timed_out: 10, threads: 11 };
    let h = HttpStats { requests: 12, errors: 13, auth_failures: 14, authz_refused: 15 };
    let c = CheckpointFacts { passive: 16, truncated: 17, stalls: 18, failures: 19, wal_bytes: 20 };
    let v = ConversionFacts { retries: 21, contended_opens: 22, failed_opens: 23, max_wait_ms: 24 };
    let all = stats_json(&w, json("1.5"), &r, &h, &c, &v, &Some(cluster(Some(1), vec![])));
    assert_eq!(all.pointer("/writer/mean_batch"), Some(&json("1.5")));
    assert_eq!(all.pointer("/reader/timed_out"), Some(&json("10")));
    assert_eq!(all.pointer("/http/authz_refused"), Some(&json("15")));
    assert_eq!(all.pointer("/checkpoint/wal_bytes"), Some(&json("20")));
    assert_eq!(all.pointer("/wal_conversion/max_wait_ms"), Some(&json("24")));
    assert_eq!(all.pointer("/cluster/stepped_down"), Some(&json("3")));
    let fleet = fleet_stats_json(&w, &r);
    assert_eq!(fleet.pointer("/writer/requests"), Some(&json("3")));
    assert_eq!(fleet.pointer("/reader/queries"), Some(&json("8")));
}

#[test]
fn the_archive_is_shown() {
    let summary = S3Summary {
        bucket: "b".to_string(),
        endpoint: "e".to_string(),
        region: "r".to_string(),
        prefix: "p".to_string(),
    };
    let status = S3SinkStatus {
        healthy: false,
        last_error: Some("down".to_string()),
        shards: vec![],
    };
    let v = archival_json(true, &Some(summary), &Some(status));
    assert_eq!(
        v,
        json(
            "{\"supported\":true,\"capture_ready\":true,\"configured\":true,\
              \"summary\":{\"bucket\":\"b\",\"endpoint\":\"e\",\"region\":\"r\",\"prefix\":\"p\"},\
              \"health\":false,\"last_error\":\"down\",\"shards\":[]}"
        )
    );
    assert_eq!(archival_json(false, &None, &None).pointer("/shards"), Some(&json("null")));
}

#[test]
fn the_catalog_is_shown() {
    let off = catalog_json(&None, json("1"), json("null"), 2);
    assert_eq!(off.pointer("/enabled"), Some(&json("false")));
    let facts = CatalogFacts {
        cluster_id: "c".to_string(),
        version: 3,
        routing_epoch: 1,
        active_shards: 2,
        members: vec![MemberFacts {
            node: 1,
            incarnation: 2,
            address: "a:1".to_string(),
            role: "Voter".to_string(),
            state: "Active".to_string(),
            placement_eligible: true,
        }],
        placements: vec![PlacementFacts { shard: 0, generation: 1, primary: 1, replicas: vec![2] }],
        operations: vec![],
        prepared: Some(ProposalFacts { term: 1, expected_version: 3, version: 4 }),
    };
    let v = catalog_json(&Some(facts), json("{\"kind\":\"modulo\"}"), json("null"), 2);
    assert_eq!(text(&v, "/members/0/state"), "active");
    assert_eq!(v.pointer("/placements/0/replicas"), Some(&json("[2]")));
    assert_eq!(text(&v, "/routing/kind"), "modulo");
    assert_eq!(v.pointer("/prepared/version"), Some(&json("4")));
}
