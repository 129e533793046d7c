use std::collections::HashMap;

use kv_gateway::outcome::{ReadOutcome, StoreAck};
use kv_gateway::respond::{
    body_message, plan_write, reply_to_delete, reply_to_read, reply_to_write, Body, HttpReply,
    WritePlan,
};
use kv_gateway::route::{route, Dispatch, Method};

/// A stand-in for the remote store: a plain map, never failing.
struct FakeStore {
    entries: HashMap<Vec<u8>, Vec<u8>>,
}

impl FakeStore {
    fn new() -> FakeStore {
        FakeStore { entries: HashMap::new() }
    }

    fn read(&self, key: &[u8]) -> ReadOutcome {
        match self.entries.get(key) {
            Some(v) => ReadOutcome::Found(v.clone()),
            None => ReadOutcome::Absent,
        }
    }

    fn write(&mut self, key: Vec<u8>, value: Vec<u8>) -> StoreAck {
        self.entries.insert(key, value);
        StoreAck::Acked
    }

    fn erase(&mut self, key: &[u8]) -> StoreAck {
        self.entries.remove(key);
        StoreAck::Acked
    }
}

/// Drives one request through routing, validation, the fake store and the
/// response translation, as the service does.
fn handle(store: &mut FakeStore, method: Method, path: &str, body: &str) -> HttpReply {
    let path_bytes: Vec<u8> = path.as_bytes().to_vec();
    match route(method, &path_bytes) {
        Dispatch::Read(key) => {
            let outcome = store.read(&key);
            reply_to_read(key, outcome)
        },
        Dispatch::Write => {
            let body_bytes: Vec<u8> = body.as_bytes().to_vec();
            match plan_write(&body_bytes) {
                WritePlan::Reject(reply) => reply,
                WritePlan::Store(w) => {
                    let ack = store.write(w.key, w.value);
                    reply_to_write(ack)
                },
            }
        },
        Dispatch::Erase(key) => {
            let ack = store.erase(&key);
            reply_to_delete(ack)
        },
        Dispatch::NoRoute => HttpReply { status: 404, body: Body::DeleteMiss },
    }
}

#[test]
fn routing_matches_the_three_routes() {
    let paths: Vec<u8> = b"/abc".to_vec();
    assert!(matches!(route(Method::Get, &paths), Dispatch::Read(k) if k == b"abc".to_vec()));
    assert!(matches!(route(Method::Delete, &paths), Dispatch::Erase(k) if k == b"abc".to_vec()));
    let root: Vec<u8> = b"/".to_vec();
    assert!(matches!(route(Method::Put, &root), Dispatch::Write));
}

#[test]
fn routing_rejects_everything_else() {
    let root: Vec<u8> = b"/".to_vec();
    let nested: Vec<u8> = b"/a/b".to_vec();
    let keyed: Vec<u8> = b"/abc".to_vec();
    let empty: Vec<u8> = Vec::new();
    assert!(matches!(route(Method::Get, &root), Dispatch::NoRoute));
    assert!(matches!(route(Method::Delete, &root), Dispatch::NoRoute));
    assert!(matches!(route(Method::Get, &nested), Dispatch::NoRoute));
    assert!(matches!(route(Method::Put, &keyed), Dispatch::NoRoute));
    assert!(matches!(route(Method::Other, &keyed), Dispatch::NoRoute));
    assert!(matches!(route(Method::Get, &empty), Dispatch::NoRoute));
}

#[test]
fn read_outcomes_map_to_statuses() {
    let key: Vec<u8> = b"k".to_vec();
    let hit = reply_to_read(key.clone(), ReadOutcome::Found(b"v".to_vec()));
    assert_eq!(hit.status, 200);
    assert!(matches!(hit.body, Body::Value(v) if v == b"v".to_vec()));
    let miss = reply_to_read(key.clone(), ReadOutcome::Absent);
    assert_eq!(miss.status, 404);
    assert!(matches!(&miss.body, Body::ReadMiss(k) if *k == b"k".to_vec()));
    let down = reply_to_read(key, ReadOutcome::Failed);
    assert_eq!(down.status, 404);
    assert!(matches!(&down.body, Body::ReadMiss(k) if *k == b"k".to_vec()));
}

#[test]
fn write_outcomes_map_to_statuses() {
    let ok = reply_to_write(StoreAck::Acked);
    assert_eq!(ok.status, 200);
    assert_eq!(body_message(&ok.body), Some("Value was successfully set"));
    let down = reply_to_write(StoreAck::Failed);
    assert_eq!(down.status, 500);
    assert_eq!(body_message(&down.body), Some("Internal server error"));
}

#[test]
fn delete_outcomes_map_to_statuses() {
    let ok = reply_to_delete(StoreAck::Acked);
    assert_eq!(ok.status, 200);
    assert_eq!(body_message(&ok.body), Some("Value was successfully deleted"));
    let down = reply_to_delete(StoreAck::Failed);
    assert_eq!(down.status, 404);
}

#[test]
fn bad_request_message_text() {
    assert_eq!(body_message(&Body::BadPayload), Some("Bad request"));
    assert_eq!(body_message(&Body::Value(b"v".to_vec())), None);
    assert_eq!(body_message(&Body::ReadMiss(b"k".to_vec())), None);
}

#[test]
fn write_then_read_round_trip() {
    let mut store = FakeStore::new();
    let put = handle(&mut store, Method::Put, "/", r#"{"key":"k1","value":"hello"}"#);
    assert_eq!(put.status, 200);
    let got = handle(&mut store, Method::Get, "/k1", "");
    assert_eq!(got.status, 200);
    assert!(matches!(got.body, Body::Value(v) if v == b"hello".to_vec()));
}

#[test]
fn reading_a_key_never_written_is_404() {
    let mut store = FakeStore::new();
    let got = handle(&mut store, Method::Get, "/never", "");
    assert_eq!(got.status, 404);
}

#[test]
fn deleting_then_reading_is_404() {
    let mut store = FakeStore::new();
    handle(&mut store, Method::Put, "/", r#"{"key":"k2","value":"v"}"#);
    let del = handle(&mut store, Method::Delete, "/k2", "");
    assert_eq!(del.status, 200);
    let got = handle(&mut store, Method::Get, "/k2", "");
    assert_eq!(got.status, 404);
}

#[test]
fn rejected_write_leaves_the_store_alone() {
    let mut store = FakeStore::new();
    let put = handle(&mut store, Method::Put, "/", r#"{"key":"a"}"#);
    assert_eq!(put.status, 400);
    assert_eq!(body_message(&put.body), Some("Bad request"));
    let got = handle(&mut store, Method::Get, "/a", "");
    assert_eq!(got.status, 404);
}

#[test]
fn full_session_scenario() {
    let mut store = FakeStore::new();
    let put = handle(
        &mut store,
        Method::Put,
        "/",
        r#"{"key":"session-1","value":"abc","options":{"ttl":60}}"#,
    );
    assert_eq!(put.status, 200);
    assert_eq!(body_message(&put.body), Some("Value was successfully set"));
    let got = handle(&mut store, Method::Get, "/session-1", "");
    assert_eq!(got.status, 200);
    assert!(matches!(got.body, Body::Value(v) if v == b"abc".to_vec()));
    let del = handle(&mut store, Method::Delete, "/session-1", "");
    assert_eq!(del.status, 200);
    assert_eq!(body_message(&del.body), Some("Value was successfully deleted"));
    let after = handle(&mut store, Method::Get, "/session-1", "");
    assert_eq!(after.status, 404);
}

#[test]
fn overwriting_a_key_replaces_the_value() {
    let mut store = FakeStore::new();
    handle(&mut store, Method::Put, "/", r#"{"key":"k","value":"first"}"#);
    handle(&mut store, Method::Put, "/", r#"{"key":"k","value":"second"}"#);
    let got = handle(&mut store, Method::Get, "/k", "");
    assert!(matches!(got.body, Body::Value(v) if v == b"second".to_vec()));
}
