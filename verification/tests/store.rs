use std::path::PathBuf;

use axum::http::{HeaderMap, HeaderValue};
use bytes::Bytes;
use relaycache::blobs::{
    blob_path, blob_path_on_disk, cleanup_plan, is_temp_name, make_temp_path, Found, KnownBlobs, Leftover,
};
use relaycache::digest::{sha256_hex, BodyDigest};
use relaycache::fields::MAX_NAMES;
use relaycache::header_json::{headers_to_json, json_to_headers};
use relaycache::store::{
    entry_from_row, eviction_cutoff, eviction_ops, health_body, index_entry, safe_response_headers, writer_step, DbOp,
    EntryRow, Statement, StoreStats, WriterEvent, WriterState,
};

const HELLO: &str = "b94d27b9934d3e08a52e52d7da7dabfac484efe37a5380ee9088f7ace2efcde9";

#[test]
fn safe_headers_strips_auth() {
    let mut src = HeaderMap::new();
    src.insert("authorization", HeaderValue::from_static("Bearer secret"));
    src.insert("content-type", HeaderValue::from_static("application/json"));
    src.insert("set-cookie", HeaderValue::from_static("session=abc"));
    src.insert("www-authenticate", HeaderValue::from_static("Bearer realm=test"));
    let safe = safe_response_headers(&src);
    assert!(safe.get("authorization").is_none(), "authorization must be stripped");
    assert!(safe.get("set-cookie").is_none(), "set-cookie must be stripped");
    assert!(safe.get("www-authenticate").is_none(), "www-authenticate must be stripped");
    assert!(safe.get("content-type").is_some(), "content-type must be kept");
}

#[test]
fn headers_roundtrip() {
    let mut src = HeaderMap::new();
    src.insert("content-type", HeaderValue::from_static("application/json"));
    src.insert("etag", HeaderValue::from_static(r#""v1""#));
    let json = headers_to_json(&src);
    let recovered = json_to_headers(&json).unwrap();
    assert_eq!(recovered.get("content-type").map(|v| v.to_str().unwrap()), Some("application/json"));
    assert_eq!(recovered.get("etag").map(|v| v.to_str().unwrap()), Some(r#""v1""#));
}

#[test]
fn headers_roundtrip_multi_value() {
    let mut src = HeaderMap::new();
    src.append("x-custom", HeaderValue::from_static("a"));
    src.append("x-custom", HeaderValue::from_static("b"));
    let json = headers_to_json(&src);
    let recovered = json_to_headers(&json).unwrap();
    let values: Vec<&str> = recovered.get_all("x-custom").iter().map(|v| v.to_str().unwrap()).collect();
    assert_eq!(values, ["a", "b"]);
}

#[test]
fn sha256_hex_deterministic() {
    let data = Bytes::from("hello world");
    let a = sha256_hex(&data);
    let b = sha256_hex(&data);
    assert_eq!(a, b);
    assert_eq!(a.len(), 64);
}

#[test]
fn blob_path_layout() {
    let root = PathBuf::from("/cache/blobs/sha256");
    let sha = "ab3f7c9d".repeat(8); // 64 chars
    let path = PathBuf::from(blob_path(root.to_str().unwrap(), &sha));
    assert!(path.to_string_lossy().contains("/ab/"));
    assert!(path.file_name().unwrap() == sha.as_str());
}

#[test]
fn every_unsafe_header_is_stripped() {
    let mut src = HeaderMap::new();
    for name in [
        "authorization",
        "proxy-authorization",
        "www-authenticate",
        "proxy-authenticate",
        "set-cookie",
        "connection",
        "keep-alive",
        "te",
        "trailers",
        "transfer-encoding",
        "upgrade",
        "age",
    ] {
        src.insert(axum::http::HeaderName::from_static(name), HeaderValue::from_static("x"));
    }
    src.append("link", HeaderValue::from_static("a"));
    src.append("link", HeaderValue::from_static("b"));
    src.insert("vary", HeaderValue::from_static("accept"));
    let safe = safe_response_headers(&src);
    assert_eq!(safe.keys_len(), 2);
    assert_eq!(safe.get_all("link").iter().collect::<Vec<_>>(), ["a", "b"]);
    assert_eq!(safe.get("vary").unwrap(), "accept");
}

#[test]
fn json_text_of_headers() {
    let mut src = HeaderMap::new();
    src.append("a", HeaderValue::from_static("x\"y\\"));
    src.append("a", HeaderValue::from_bytes(b"\xff").unwrap());
    src.append("a", HeaderValue::from_static("\tz"));
    assert_eq!(headers_to_json(&src), r#"[["a","x\"y\\"],["a","\tz"]]"#);
    assert_eq!(headers_to_json(&HeaderMap::new()), "[]");
}

#[test]
fn json_text_that_is_no_list_of_headers() {
    assert!(json_to_headers("").unwrap().is_empty());
    assert!(json_to_headers("{}").unwrap().is_empty());
    assert!(json_to_headers(r#"[["a"]]"#).unwrap().is_empty());
    let some = json_to_headers(r#"[["a b","x"],["X-Ok","1"],["y","bad\nvalue"],["","z"],["x-ok","é"]]"#).unwrap();
    assert_eq!(some.keys_len(), 1);
    let values: Vec<&[u8]> = some.get_all("x-ok").iter().map(|v| v.as_bytes()).collect();
    assert_eq!(values, [&b"1"[..], "\u{e9}".as_bytes()]);
}

#[test]
fn json_text_with_many_names() {
    let mut names: Vec<(String, String)> = Vec::new();
    for i in 0..MAX_NAMES {
        names.push((format!("n{i}"), "v".to_owned()));
    }
    names.push(("n0".to_owned(), "w".to_owned()));
    let full = json_to_headers(&serde_json::to_string(&names).unwrap()).unwrap();
    assert_eq!(full.keys_len(), MAX_NAMES);
    assert_eq!(full.get_all("n0").iter().collect::<Vec<_>>(), ["v", "w"]);
    names.push(("one-more".to_owned(), "v".to_owned()));
    if let Some(more) = json_to_headers(&serde_json::to_string(&names).unwrap()) {
        assert_eq!(more.keys_len(), MAX_NAMES + 1);
    }
    for i in MAX_NAMES..40_000 {
        names.push((format!("n{i}"), "v".to_owned()));
    }
    assert!(json_to_headers(&serde_json::to_string(&names).unwrap()).is_none());
}

fn response() -> HeaderMap {
    let mut h = HeaderMap::new();
    h.insert("etag", HeaderValue::from_static("\"v1\""));
    h.insert("last-modified", HeaderValue::from_static("Mon, 01 Jan 2024 00:00:00 GMT"));
    h.insert("content-type", HeaderValue::from_static("text/plain"));
    h.insert("set-cookie", HeaderValue::from_static("s=1"));
    h
}

#[test]
fn entries_survive_a_restart() {
    let (entry, op) = index_entry("GET:/a", HELLO, 11, &response(), 1234);
    assert_eq!(entry.etag.as_ref().unwrap(), "\"v1\"");
    assert_eq!(entry.blob_sha256, HELLO);
    assert_eq!(entry.blob_size, 11);
    assert!(entry.headers.get("set-cookie").is_none());
    let DbOp::Upsert { key, blob_sha256, blob_size, etag, last_modified, headers_json, now } = op else {
        panic!("an entry is written");
    };
    assert_eq!(now, 1234);
    assert!(!headers_json.contains("s=1"));
    let row = EntryRow { key, blob_sha256, blob_size, etag, last_modified, headers_json };
    let (key, loaded) = entry_from_row(row).unwrap();
    assert_eq!(key, "GET:/a");
    assert_eq!(loaded.etag, entry.etag);
    assert_eq!(loaded.last_modified, entry.last_modified);
    assert_eq!(loaded.headers, entry.headers);
    assert_eq!(loaded.blob_sha256, entry.blob_sha256);
    assert_eq!(loaded.blob_size, entry.blob_size);
    let copy = loaded.clone();
    assert_eq!(copy.headers, entry.headers);
    assert_eq!(copy.etag, entry.etag);
}

#[test]
fn all_values_survive_a_restart() {
    let mut resp = response();
    resp.append("link", HeaderValue::from_static("a"));
    resp.append("link", HeaderValue::from_static("b"));
    let (entry, op) = index_entry("k", HELLO, 1, &resp, 0);
    let DbOp::Upsert { key, blob_sha256, blob_size, etag, last_modified, headers_json, .. } = op else {
        panic!("an entry is written");
    };
    let row = EntryRow { key, blob_sha256, blob_size, etag, last_modified, headers_json };
    let (_, loaded) = entry_from_row(row).unwrap();
    assert_eq!(loaded.headers, entry.headers);
    assert_eq!(loaded.headers.get_all("link").iter().collect::<Vec<_>>(), ["a", "b"]);
}

#[test]
fn validators_that_are_no_text_are_kept_in_memory_only() {
    let mut resp = response();
    resp.insert("etag", HeaderValue::from_bytes(b"\"\xe9\"").unwrap());
    let (entry, op) = index_entry("k", HELLO, 1, &resp, 0);
    assert_eq!(entry.etag.unwrap().as_bytes(), b"\"\xe9\"");
    assert!(matches!(op, DbOp::Upsert { etag: None, last_modified: Some(_), .. }));
    let row = EntryRow {
        key: "k".to_owned(),
        blob_sha256: HELLO.to_owned(),
        blob_size: 1,
        etag: Some("bad\nvalue".to_owned()),
        last_modified: None,
        headers_json: "nonsense".to_owned(),
    };
    let (_, loaded) = entry_from_row(row).unwrap();
    assert!(loaded.etag.is_none());
    assert!(loaded.last_modified.is_none());
    assert!(loaded.headers.is_empty());
}

#[test]
fn digests_do_not_depend_on_the_pieces() {
    let (address, size) = BodyDigest::new().update(b"hello").update(b"").update(b" world").finish();
    assert_eq!(address, HELLO);
    assert_eq!(size, 11);
    assert_eq!(sha256_hex(b"hello world"), HELLO);
    let empty = BodyDigest::new();
    assert_eq!(empty.size(), 0);
    assert_eq!(empty.finish().0, "e3b0c44298fc1c149afbf4c8996fb92427ae41e4649b934ca495991b7852b855");
}

#[test]
fn blob_and_temp_paths() {
    assert_eq!(blob_path("/r", HELLO), format!("/r/b9/{HELLO}"));
    assert_eq!(blob_path("", "abcd"), "ab/abcd");
    assert_eq!(blob_path("/r/", "\u{e9}x"), "/r/\u{e9}/\u{e9}x");
    assert_eq!(blob_path_on_disk("/r", None), None);
    assert_eq!(blob_path_on_disk("/r", Some("abcd")).as_deref(), Some("/r/ab/abcd"));
    assert_eq!(make_temp_path("/r", 0), "/r/.tmp-0");
    assert_eq!(make_temp_path("/r", u64::MAX), "/r/.tmp-18446744073709551615");
    assert!(is_temp_name(".tmp-12"));
    assert!(!is_temp_name("ab"));
    assert!(!is_temp_name(".tmp"));
}

#[test]
fn leftovers_are_found() {
    let mut known = KnownBlobs::new();
    known.insert("ab1".to_owned());
    let names = |list: &[&str]| Some(list.iter().map(|s| s.to_string()).collect::<Vec<String>>());
    let listing = vec![
        Found { name: "ab".to_owned(), files: names(&["ab1", "ab2"]) },
        Found { name: ".tmp-3".to_owned(), files: None },
        Found { name: "readme".to_owned(), files: None },
        Found { name: "cd".to_owned(), files: names(&["cd1"]) },
    ];
    let plan = cleanup_plan(&listing, &known);
    assert_eq!(
        plan,
        vec![
            Leftover::Orphan { item: 0, file: 1 },
            Leftover::Temp { item: 1 },
            Leftover::Orphan { item: 3, file: 0 },
        ]
    );
    assert!(!known.is_orphan("ab1"));
    assert!(known.is_orphan("ab2"));
    let cleaned = vec![
        Found { name: "ab".to_owned(), files: names(&["ab1"]) },
        Found { name: "readme".to_owned(), files: None },
        Found { name: "cd".to_owned(), files: names(&[]) },
    ];
    assert!(cleanup_plan(&cleaned, &known).is_empty());
}

fn key_of(s: &Statement) -> &str {
    match s {
        Statement::DeleteEntry { key } => key,
        _ => panic!("a deletion"),
    }
}

#[test]
fn writer_carries_operations_out() {
    let (_, op) = index_entry("k", HELLO, 11, &response(), 5);
    let (state, out) = writer_step(WriterState::Running, WriterEvent::Op(op));
    assert_eq!(state, WriterState::Running);
    assert_eq!(out.len(), 2);
    assert!(matches!(&out[0], Statement::InsertBlob { sha256, size: 11 } if sha256 == HELLO));
    assert!(matches!(&out[1], Statement::UpsertEntry { key, blob_sha256, now: 5, .. } if key == "k" && blob_sha256 == HELLO));
    let (_, out) = writer_step(WriterState::Running, WriterEvent::Op(DbOp::TouchAccess { key: "k".to_owned(), now: 6 }));
    assert!(matches!(&out[..], [Statement::TouchEntry { key, now: 6 }] if key == "k"));
    let (_, out) = writer_step(WriterState::Running, WriterEvent::Op(DbOp::GetStats));
    assert!(matches!(&out[..], [Statement::CountBlobs]));
    let (state, out) = writer_step(WriterState::Running, WriterEvent::NoMore);
    assert_eq!(state, WriterState::Stopped);
    assert!(out.is_empty());
}

#[test]
fn writer_drains_deletions_and_checkpoints() {
    let (state, out) = writer_step(WriterState::Running, WriterEvent::Op(DbOp::Shutdown));
    assert_eq!(state, WriterState::Draining);
    assert!(out.is_empty());
    let (state, out) = writer_step(state, WriterEvent::Op(DbOp::TouchAccess { key: "k".to_owned(), now: 6 }));
    assert_eq!(state, WriterState::Draining);
    assert!(out.is_empty());
    let (state, out) = writer_step(state, WriterEvent::Op(DbOp::DeleteEntry { key: "k".to_owned() }));
    assert_eq!(state, WriterState::Draining);
    assert_eq!(key_of(&out[0]), "k");
    let (state, out) = writer_step(state, WriterEvent::NoMore);
    assert_eq!(state, WriterState::Stopped);
    assert!(matches!(&out[..], [Statement::Checkpoint]));
    let (state, out) = writer_step(state, WriterEvent::Op(DbOp::DeleteEntry { key: "k".to_owned() }));
    assert_eq!(state, WriterState::Stopped);
    assert!(out.is_empty());
}

#[test]
fn eviction_deletes_entries_then_sweeps() {
    let ops = eviction_ops(&vec!["a".to_owned(), "b".to_owned()], "/r".to_owned());
    let mut out: Vec<Statement> = Vec::new();
    for op in ops {
        let (_, mut s) = writer_step(WriterState::Running, WriterEvent::Op(op));
        out.append(&mut s);
    }
    assert_eq!(out.len(), 3);
    assert_eq!(key_of(&out[0]), "a");
    assert_eq!(key_of(&out[1]), "b");
    assert!(matches!(&out[2], Statement::SweepBlobs { blob_root } if blob_root == "/r"));
}

#[test]
fn eviction_cutoffs() {
    assert_eq!(eviction_cutoff(1_000_000, 86_400), 913_600);
    assert_eq!(eviction_cutoff(10, 0), 10);
    assert_eq!(eviction_cutoff(10, u64::MAX), i64::MIN);
    assert_eq!(eviction_cutoff(i64::MIN, 1), i64::MIN);
}

#[test]
fn health_text() {
    let stats = StoreStats { entries: 3, blobs: 2, blob_bytes: 18446744073709551615 };
    assert_eq!(health_body(stats), r#"{"entries":3,"blobs":2,"blob_bytes":18446744073709551615}"#);
}

#[test]
fn different_bodies_lie_apart() {
    let (a, b) = (sha256_hex(b"a"), sha256_hex(b"b"));
    assert_ne!(a, b);
    assert_ne!(blob_path("/r", &a), blob_path("/r", &b));
    assert!(!is_temp_name(&a[..2]));
    assert_ne!(make_temp_path("/r", 1), make_temp_path("/r", 11));
    assert!(is_temp_name(&make_temp_path("", 11)));
}

#[test]
fn use_keeps_entries_alive() {
    let (now, ttl) = (1_000, 100);
    assert!(!(now < eviction_cutoff(now, ttl)));
    assert!(899 < eviction_cutoff(now, ttl));
    assert!(899 < eviction_cutoff(now + 50, ttl));
    assert!(!(900 < eviction_cutoff(now, ttl)));
}
