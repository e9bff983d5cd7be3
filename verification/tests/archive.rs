use std::cell::RefCell;

use shardlite::calls::Line;
use shardlite::error::Error;
use shardlite::replication::stream::StreamTxn;
use shardlite::s3::clock::amz_timestamp;
use shardlite::s3::config::{S3Config, S3Error, S3Summary};
use shardlite::s3::failover::{
    apply_overlay, build_overlay, choose_snapshot, latest_snapshot, parse_epoch_lsn, read_over,
    recover_bytes, snapshot_prefix, wal_prefix,
};
use shardlite::s3::files::{
    overlay_name, snapshot_token, snapshot_uri, FileCall, FileCode, Registry,
};
use shardlite::s3::pager::{fill_page, S3Pager};
use shardlite::s3::request::{content_length, range_header, Listing};
use shardlite::s3::runtime::S3Runtime;
use shardlite::s3::sign::{
    canonical_path, credential_scope, header_to_send, host_of, request_to_sign, sign_v4, text_to_sign,
    uri_encode, Headers,
};
use shardlite::s3::sink::{put_with_retry, Image, S3Sink, Try, Upload};
use shardlite::s3::xml::{between, between_all, xml_unescape};
use shardlite::shard::ShardId;
use shardlite::vfs::{CommittedTxn, Frame};

fn config() -> S3Config {
    S3Config {
        endpoint: "http://127.0.0.1:9000/".to_string(),
        bucket: "my-bucket".to_string(),
        region: "eu-west-1".to_string(),
        access_key: "alice".to_string(),
        secret_key: "open sesame".to_string(),
    }
}

#[test]
fn moments_are_stamped() {
    let stamp = |s: u64| amz_timestamp(s);
    assert_eq!(stamp(0), ("19700101T000000Z".to_string(), "19700101".to_string()));
    assert_eq!(stamp(1_709_251_199).0, "20240229T235959Z");
    assert_eq!(stamp(951_868_800).1, "20000301");
    assert_eq!(stamp(951_868_799).1, "20000229");
    assert_eq!(stamp(946_598_400).1, "19991231");
    assert_eq!(stamp(4_107_542_400).1, "21000301");
    assert_eq!(stamp(4_107_542_399).1, "21000228");
    assert_eq!(stamp(253_402_300_799).0, "99991231T235959Z");
}

#[test]
fn a_request_is_signed() {
    let r = config().sign("PUT", "a b/c", "", b"hello", 1_709_251_199);
    assert_eq!(r.url, "http://127.0.0.1:9000/my-bucket/a%20b/c");
    assert_eq!(
        r.payload_hash,
        "2cf24dba5fb0a30e26e83b2ac5b9e29e1b161e5c1fa7425e73043362938b9824"
    );
    assert_eq!(r.amzdate, "20240229T235959Z");
    assert_eq!(
        r.authorization,
        "AWS4-HMAC-SHA256 Credential=alice/20240229/eu-west-1/s3/aws4_request, \
         SignedHeaders=host;x-amz-content-sha256;x-amz-date, \
         Signature=d26b275ba0f557ff2135ffc92b2a955f69e001260f581d9abf4a2fbb726c8e24"
    );
    let listing = config().sign("GET", "", "list-type=2", b"", 0);
    assert_eq!(listing.url, "http://127.0.0.1:9000/my-bucket?list-type=2");
}

#[test]
fn signed_headers_are_sorted_and_trimmed() {
    let mut headers = Headers::new();
    headers.insert("x-amz-date".to_string(), " 20150830T123600Z ".to_string());
    headers.insert("host".to_string(), "other".to_string());
    headers.insert("host".to_string(), "example.com".to_string());
    let empty = "e3b0c44298fc1c149afbf4c8996fb92427ae41e4649b934ca495991b7852b855";
    let signed = sign_v4(
        "bob",
        "hunter two",
        "us-east-1",
        "service",
        "GET",
        "/",
        "",
        &headers,
        empty,
        "20150830T123600Z",
        "20150830",
    );
    assert_eq!(
        signed,
        "AWS4-HMAC-SHA256 Credential=bob/20150830/us-east-1/service/aws4_request, \
         SignedHeaders=host;x-amz-date, \
         Signature=b4f4ded6a92147c5cf789c7a85d547a8abe834049563469246ab9dd6ccdd365a"
    );
}

#[test]
fn what_is_signed_is_spelled_out() {
    let mut headers = Headers::new();
    headers.insert("x-amz-date".to_string(), " now ".to_string());
    headers.insert("host".to_string(), "h".to_string());
    assert_eq!(
        request_to_sign("GET", "/b", "q=1", &headers, "hash"),
        "GET\n/b\nq=1\nhost:h\nx-amz-date:now\n\nhost;x-amz-date\nhash"
    );
    let scope = credential_scope("20240229", "eu-1", "s3");
    assert_eq!(scope, "20240229/eu-1/s3/aws4_request");
    assert_eq!(
        text_to_sign("now", &scope, &vec![0, 171]),
        "AWS4-HMAC-SHA256\nnow\n20240229/eu-1/s3/aws4_request\n00ab"
    );
    assert_eq!(
        header_to_send("alice", &scope, &headers, &vec![18]),
        "AWS4-HMAC-SHA256 Credential=alice/20240229/eu-1/s3/aws4_request, \
         SignedHeaders=host;x-amz-date, Signature=12"
    );
}

#[test]
fn parts_of_a_url() {
    assert_eq!(uri_encode("a/b c~é", true), "a/b%20c~%C3%A9");
    assert_eq!(uri_encode("a/b", false), "a%2Fb");
    assert_eq!(canonical_path("b", ""), "/b");
    assert_eq!(canonical_path("b", "k/v"), "/b/k/v");
    assert_eq!(host_of("https://s3.example.com/x"), "s3.example.com");
    assert_eq!(host_of("localhost:9000"), "localhost:9000");
    assert_eq!(host_of("http://a://b"), "a");
    assert_eq!(range_header(100, 50), "bytes=100-149");
    assert_eq!(content_length(Some("12")).unwrap(), 12);
    assert!(content_length(Some("x")).is_err() && content_length(None).is_err());
}

#[test]
fn a_listing_follows_its_pages() {
    let mut l = Listing::new("p/");
    assert_eq!(l.query(), "list-type=2&prefix=p%2F");
    let page = "<R><Key>a&amp;lt;</Key><x/><Key>b</Key>\
                <NextContinuationToken>t=1</NextContinuationToken></R>";
    assert!(l.page(page.as_bytes()));
    assert_eq!(l.query(), "continuation-token=t%3D1&list-type=2&prefix=p%2F");
    assert!(!l.page(b"<R><Key>c</Key></R>"));
    assert_eq!(l.keys, vec!["a<".to_string(), "b".to_string(), "c".to_string()]);
    assert_eq!(Listing::new("").query(), "list-type=2");
    assert!(l.take_page("<Key>d</Key><NextContinuationToken>u</NextContinuationToken>"));
    assert_eq!(l.token.as_deref(), Some("u"));
    let mut odd = Listing::new("");
    odd.page(b"<Key>\xff</Key>");
    assert_eq!(odd.keys, vec!["\u{fffd}".to_string()]);
}

#[test]
fn texts_are_cut_out_of_xml() {
    assert_eq!(between("a<k>b</k>c<k>d</k>", "<k>", "</k>"), Some("b".to_string()));
    assert_eq!(between("a<k>b", "<k>", "</k>"), None);
    assert_eq!(between_all("<k>a</k><k></k><k>b", "<k>", "</k>"), vec!["a", ""]);
    assert_eq!(xml_unescape("&lt;&gt;&quot;&apos;&amp;"), "<>\"'&");
}

#[test]
fn errors_say_what_happened() {
    let e = S3Error::Status { code: 404, body: "gone".to_string() };
    assert_eq!(e.to_text(), "S3 returned 404: gone");
    assert_eq!(S3Error::Transport("dns".to_string()).to_text(), "S3 transport error: dns");
}

// ---- the sink ----------------------------------------------------------------------------------

fn txn(lsn: u64, page_no: u32, byte: u8, pages: u32) -> StreamTxn {
    StreamTxn {
        lsn,
        txn: CommittedTxn {
            db_size_pages: pages,
            page_size: 4,
            generation: 1,
            frames: vec![Frame { page_no, data: vec![byte; 4] }],
        },
    }
}

#[test]
fn a_batch_becomes_an_object() {
    let mut sink = S3Sink::new("arc");
    let encode = |t: &Vec<StreamTxn>| Ok(vec![t.len() as u8]);
    let done = sink.accept(ShardId(2), 3, &vec![txn(5, 1, 0, 1), txn(6, 1, 0, 1)], &encode);
    let upload = done.upload.unwrap();
    assert_eq!(
        upload.key,
        "arc/shard_2/wal/00000000000000000003_00000000000000000005"
    );
    assert_eq!(upload.bytes, vec![2]);
    assert!(done.result.is_ok());
    let empty = sink.accept(ShardId(2), 3, &Vec::new(), &encode);
    assert!(empty.upload.is_none() && empty.result.is_ok());
    let status = sink.status();
    assert!(status.healthy);
    assert_eq!(status.shards.len(), 1);
    assert_eq!(status.shards[0].last_archived_lsn, 6);
}

#[test]
fn a_sink_that_gave_up_says_so() {
    let mut sink = S3Sink::new("arc");
    sink.upload_failed(&S3Error::Transport("down".to_string()));
    let encode = |_: &Vec<StreamTxn>| Ok(vec![]);
    let done = sink.accept(ShardId(0), 1, &vec![txn(1, 1, 0, 1)], &encode);
    assert_eq!(
        done.result.unwrap_err().to_text(),
        "s3 sink unhealthy: S3 transport error: down"
    );
    assert!(!sink.status().healthy);
    let broken = |_: &Vec<StreamTxn>| Err(Error::Protocol("encoding".to_string()));
    let failed = sink.accept(ShardId(0), 1, &vec![txn(2, 1, 0, 1)], &broken);
    assert_eq!(failed.result.unwrap_err().to_text(), "encoding");
    assert!(failed.upload.is_none());
    assert_eq!(sink.status().shards[0].last_archived_lsn, 1);
}

#[test]
fn a_snapshot_is_uploaded_and_noted() {
    let mut sink = S3Sink::new("arc");
    let db = vec![1];
    let uploads = RefCell::new(0);
    let put = |i: Image<'_>| {
        assert_eq!(i.key, "arc/shard_1/snapshot/00000000000000000002_00000000000000000009");
        assert_eq!(i.bytes, &vec![1]);
        *uploads.borrow_mut() += 1;
        Ok(())
    };
    sink.put_snapshot(ShardId(1), 2, 9, &db, 77, &mut Line::new(put)).unwrap();
    assert_eq!(*uploads.borrow(), 1);
    let fails = |_: Image<'_>| Err(S3Error::Transport("x".to_string()));
    let e = sink.put_snapshot(ShardId(1), 2, 10, &db, 78, &mut Line::new(fails)).unwrap_err();
    assert_eq!(e.to_text(), "s3: S3 transport error: x");
    let a = sink.status().shards[0];
    assert_eq!((a.last_snapshot_epoch, a.last_snapshot_lsn, a.last_snapshot_ms), (2, 9, 77));
    let mut rt = S3Runtime::new();
    assert!(!rt.configured());
    rt.attach(
        sink,
        S3Summary {
            bucket: "b".to_string(),
            endpoint: "e".to_string(),
            region: "r".to_string(),
            prefix: "arc".to_string(),
        },
    );
    assert!(rt.configured());
    let (summary, status) = rt.status().unwrap();
    assert_eq!((summary.prefix.as_str(), status.shards.len()), ("arc", 1));
    rt.detach();
    assert!(rt.sink().is_none());
}

#[test]
fn an_upload_is_tried_three_times() {
    let upload = Upload { key: "k".to_string(), bytes: vec![7] };
    let steps = RefCell::new(Vec::new());
    let tries = RefCell::new(0);
    let step = |t: Try<'_>| match t {
        Try::Put(u) => {
            *tries.borrow_mut() += 1;
            steps.borrow_mut().push(format!("put {} {:?}", u.key, u.bytes));
            if *tries.borrow() == 5 {
                Ok(())
            } else {
                Err(S3Error::Transport(format!("{}", tries.borrow())))
            }
        }
        Try::Pause(ms) => {
            steps.borrow_mut().push(format!("pause {ms}"));
            Ok(())
        }
    };
    let mut line = Line::new(step);
    assert_eq!(
        put_with_retry(&upload, &mut line).unwrap_err().to_text(),
        "S3 transport error: 3"
    );
    assert_eq!(
        *steps.borrow(),
        vec!["put k [7]", "pause 50", "put k [7]", "pause 100", "put k [7]"]
    );
    steps.borrow_mut().clear();
    assert!(put_with_retry(&upload, &mut line).is_ok());
    assert_eq!(*steps.borrow(), vec!["put k [7]", "pause 50", "put k [7]"]);
}

// ---- recovery ----------------------------------------------------------------------------------

fn wal_key(epoch: u64, lsn: u64) -> String {
    S3Sink::new("arc").wal_key(ShardId(1), epoch, lsn)
}

#[test]
fn the_newest_snapshot_is_chosen() {
    let sink = S3Sink::new("arc");
    let keys: Vec<String> = [(1, 100), (2, 5), (1, 99)]
        .iter()
        .map(|(e, l)| sink.snapshot_key(ShardId(1), *e, *l))
        .collect();
    let (key, epoch, lsn) = choose_snapshot(&keys, ShardId(1)).unwrap();
    assert_eq!((epoch, lsn), (2, 5));
    assert_eq!(key, keys[1]);
    assert_eq!(latest_snapshot(&Vec::new()), None);
    assert_eq!(
        choose_snapshot(&Vec::new(), ShardId(1)).unwrap_err().to_text(),
        "no S3 snapshot archived for shard 1"
    );
    assert_eq!(
        choose_snapshot(&vec!["x/y".to_string()], ShardId(1)).unwrap_err().to_text(),
        "unparseable snapshot key: x/y"
    );
    assert_eq!(snapshot_prefix("arc", ShardId(1)), "arc/shard_1/snapshot/");
    assert_eq!(wal_prefix("arc", ShardId(1)), "arc/shard_1/wal/");
    assert_eq!(parse_epoch_lsn("a/b/7_8"), Some((7, 8)));
    assert_eq!(parse_epoch_lsn("7-8"), None);
    assert_eq!(parse_epoch_lsn(&wal_key(u64::MAX, 0)), Some((u64::MAX, 0)));
}

#[test]
fn a_change_log_is_replayed_over_a_snapshot() {
    let keys = vec![wal_key(1, 5), wal_key(1, 3), wal_key(0, 1), "junk".to_string()];
    let log = |k: String| match parse_epoch_lsn(&k) {
        Some((1, 3)) => Ok(vec![txn(3, 1, 3, 2), txn(4, 2, 4, 2)]),
        Some((1, 5)) => Ok(vec![txn(5, 2, 5, 3), txn(6, 3, 6, 3)]),
        other => panic!("{other:?}"),
    };
    let overlay = build_overlay(&keys, ShardId(1), 1, 3, &mut Line::new(log)).unwrap().unwrap();
    assert_eq!((overlay.page_size, overlay.db_size), (4, 12));
    assert!(overlay.is_sound());
    let mut db = vec![1, 1, 1, 1, 2, 2, 2, 2];
    assert_eq!(read_over(&db[2..6].to_vec(), &overlay, 2, 4), vec![1, 1, 5, 5]);
    assert_eq!(read_over(&db[6..].to_vec(), &overlay, 6, 9), vec![5, 5, 6, 6, 6, 6]);
    assert!(read_over(&vec![], &overlay, 12, 4).is_empty());
    apply_overlay(&mut db, &overlay);
    assert_eq!(db, vec![1, 1, 1, 1, 5, 5, 5, 5, 6, 6, 6, 6]);
    assert!(build_overlay(&keys, ShardId(1), 1, 6, &mut Line::new(log)).unwrap().is_none());
}

#[test]
fn an_overlay_may_shrink_a_database() {
    let keys = vec![wal_key(1, 1)];
    let log = |_: String| Ok(vec![txn(1, 1, 9, 1)]);
    let overlay = build_overlay(&keys, ShardId(1), 1, 0, &mut Line::new(log)).unwrap().unwrap();
    let mut db = vec![0; 20];
    apply_overlay(&mut db, &overlay);
    assert_eq!(db, vec![9; 4]);
}

#[test]
fn an_archive_with_a_hole_is_refused() {
    let log = |_: String| Ok(vec![txn(5, 1, 0, 1)]);
    let e = build_overlay(&vec![wal_key(1, 5)], ShardId(1), 1, 3, &mut Line::new(log)).unwrap_err();
    assert_eq!(e.to_text(), "shard 1 change-log has a gap: expected lsn 4, found 5");
    let e = build_overlay(&vec![wal_key(2, 1)], ShardId(1), 1, 3, &mut Line::new(log)).unwrap_err();
    assert_eq!(
        e.to_text(),
        "shard 1 change-log continues past the snapshot's epoch 1; the archive spans a WAL reset \
         and needs a fresh snapshot"
    );
    let broken = |_: String| Err(Error::Protocol("s3: x".to_string()));
    let e = build_overlay(&vec![wal_key(1, 4)], ShardId(1), 1, 3, &mut Line::new(broken)).unwrap_err();
    assert_eq!(e.to_text(), "s3: x");
}

// ---- the pager ---------------------------------------------------------------------------------

#[test]
fn reads_come_out_of_cached_chunks() {
    let object: Vec<u8> = (0..100).collect();
    let fetched = RefCell::new(Vec::new());
    let fetch = |(start, len): (u64, u64)| {
        fetched.borrow_mut().push((start, len));
        Ok(object[start as usize..(start + len) as usize].to_vec())
    };
    let mut fetch = Line::new(fetch);
    let mut p = S3Pager::with_limits(100, 16, 32);
    assert_eq!(p.size(), 100);
    assert_eq!(p.read_at(10, 20, &mut fetch).unwrap(), object[10..30]);
    assert_eq!(*fetched.borrow(), vec![(0, 16), (16, 16)]);
    assert_eq!(p.read_at(0, 32, &mut fetch).unwrap(), object[0..32]);
    assert_eq!(fetched.borrow().len(), 2);
    assert_eq!(p.read_at(90, 50, &mut fetch).unwrap(), object[90..100]);
    assert_eq!(fetched.borrow()[2..], [(80, 16), (96, 4)]);
    assert_eq!(p.read_at(0, 1, &mut fetch).unwrap(), object[0..1]);
    assert_eq!(fetched.borrow().len(), 5, "the chunk that was not used for longest went");
    assert!(p.read_at(100, 4, &mut fetch).unwrap().is_empty());
    assert!(p.read_at(3, 0, &mut fetch).unwrap().is_empty());
    let fails = |_: (u64, u64)| Err(S3Error::Transport("x".to_string()));
    assert!(p.read_at(40, 4, &mut Line::new(fails)).is_err());
    assert_eq!(S3Pager::open(5).size(), 5);
}

#[test]
fn a_short_read_is_filled_with_zeros() {
    assert_eq!(fill_page(vec![1, 2], 4), (vec![1, 2, 0, 0], false));
    assert_eq!(fill_page(vec![1, 2], 2), (vec![1, 2], true));
}

fn recover<L, G, F>(
    shard: u32,
    list: &L,
    get: &G,
    log: &F,
) -> Result<Option<(Vec<u8>, u64, u64, usize)>, Error>
where
    L: Fn(String) -> Result<Vec<String>, S3Error>,
    G: Fn(String) -> Result<Vec<u8>, S3Error>,
    F: Fn(String) -> Result<Vec<StreamTxn>, Error>,
{
    recover_bytes(
        "arc",
        ShardId(shard),
        &mut Line::new(list),
        &mut Line::new(get),
        &mut Line::new(log),
    )
}

#[test]
fn a_shard_is_recovered_from_its_archive() {
    let snapshot = S3Sink::new("arc").snapshot_key(ShardId(1), 1, 3);
    let list = |p: String| match p.as_str() {
        "arc/shard_1/snapshot/" => Ok(vec![snapshot.clone()]),
        "arc/shard_1/wal/" => Ok(vec![wal_key(1, 3)]),
        "arc/shard_2/snapshot/" => Ok(vec![]),
        _ => Err(S3Error::Transport("no".to_string())),
    };
    let get = |k: String| {
        assert_eq!(k, snapshot);
        Ok(vec![1, 1, 1, 1])
    };
    let log = |_: String| Ok(vec![txn(3, 1, 3, 2), txn(4, 2, 4, 2)]);
    let done = recover(1, &list, &get, &log).unwrap();
    assert_eq!(done, Some((vec![1, 1, 1, 1, 4, 4, 4, 4], 1, 3, 1)));
    let quiet = |_: String| Ok(vec![]);
    let done = recover(1, &list, &get, &quiet).unwrap();
    assert_eq!(done, Some((vec![1, 1, 1, 1], 1, 3, 0)));
    let unnumbered = |_: String| Ok(vec![txn(4, 0, 4, 2)]);
    assert_eq!(recover(1, &list, &get, &unnumbered).unwrap(), None);
    let e = recover(2, &list, &get, &log).unwrap_err();
    assert_eq!(e.to_text(), "no S3 snapshot archived for shard 2");
    let e = recover(3, &list, &get, &log).unwrap_err();
    assert_eq!(e.to_text(), "s3: S3 transport error: no");
}

// ---- files of SQLite ---------------------------------------------------------------------------

#[test]
fn files_are_served_by_name() {
    let mut r = Registry::new();
    let name = snapshot_token(7);
    assert_eq!(name, "shardlite-s3-7");
    assert_eq!(snapshot_uri(&name), "file:shardlite-s3-7?immutable=1&mode=ro");
    r.insert(name.clone(), 1);
    r.insert(overlay_name(7), 2);
    r.insert(overlay_name(8), 3);
    assert!(r.serves(&name) && !r.serves("other"));
    assert_eq!(r.open_snapshot(Some(&name)), Some(1));
    assert_eq!(r.open_snapshot(Some(&name)), None);
    assert_eq!(r.open_snapshot(None), None);
    assert_eq!(r.open_overlay(true, Some("failover-7.db")), Some(2));
    assert_eq!(r.open_overlay(true, Some("failover-7.db")), Some(2));
    assert_eq!(r.open_overlay(false, Some("failover-7.db")), None);
    assert_eq!(r.open_overlay(true, Some("failover-7.db-wal")), None);
    r.insert(overlay_name(7), 9);
    assert_eq!(r.find("failover-7.db"), Some(9));
}

#[test]
fn a_file_in_a_bucket_does_not_change() {
    assert_eq!(FileCall::Write.answer(), FileCode::ReadOnly);
    assert_eq!(FileCall::Truncate.answer(), FileCode::ReadOnly);
    assert_eq!(FileCall::Sync.answer(), FileCode::Fine);
    assert_eq!(FileCall::Control.answer(), FileCode::Unknown);
    assert_eq!(FileCall::ShareMap.answer(), FileCode::Failed);
}
