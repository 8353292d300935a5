use kv_core::proto::{Value, Kvpair, CommandRequest, CommandResponse};
use kv_core::dispatch::{Service, Reply};

fn single(reply: Reply) -> CommandResponse {
    match reply {
        Reply::Single(resp) => resp,
        Reply::Stream(_) => panic!("expected a single response"),
    }
}

fn hset(table: &str, key: &str, value: Value) -> CommandRequest {
    CommandRequest::HSet {
        table: table.to_string(),
        pair: Kvpair { key: key.to_string(), value, expires: None },
    }
}

fn hget(table: &str, key: &str) -> CommandRequest {
    CommandRequest::HGet { table: table.to_string(), key: key.to_string() }
}

#[test]
fn hset_then_hget_returns_the_value() {
    let mut svc = Service::new();
    let resp = single(svc.execute(hset("table1", "hello", Value::Str("world".to_string()))));
    assert_eq!(resp.status, 200);
    assert_eq!(resp.values, vec![Value::Absent]);
    let resp = single(svc.execute(hget("table1", "hello")));
    assert_eq!(resp.status, 200);
    assert_eq!(resp.values, vec![Value::Str("world".to_string())]);
}

#[test]
fn hget_missing_key_is_not_found() {
    let mut svc = Service::new();
    let resp = single(svc.execute(hget("table1", "missing")));
    assert_eq!(resp.status, 404);
    assert_eq!(resp.message, "Not found for table table1, key missing");
    assert!(resp.values.is_empty());
}

#[test]
fn hdel_then_hget_misses() {
    let mut svc = Service::new();
    svc.execute(hset("t", "k", Value::Int(5)));
    let resp = single(svc.execute(CommandRequest::HDel {
        table: "t".to_string(),
        key: "k".to_string(),
    }));
    assert_eq!(resp.status, 200);
    assert_eq!(resp.values, vec![Value::Int(5)]);
    let resp = single(svc.execute(hget("t", "k")));
    assert_eq!(resp.status, 404);
}

#[test]
fn overwrite_returns_previous_value() {
    let mut svc = Service::new();
    svc.execute(hset("t", "k", Value::Int(1)));
    let resp = single(svc.execute(hset("t", "k", Value::Int(2))));
    assert_eq!(resp.values, vec![Value::Int(1)]);
    let resp = single(svc.execute(hget("t", "k")));
    assert_eq!(resp.values, vec![Value::Int(2)]);
}

#[test]
fn multi_key_commands_answer_in_request_order() {
    let mut svc = Service::new();
    let resp = single(svc.execute(CommandRequest::HMSet {
        table: "t".to_string(),
        pairs: vec![
            Kvpair { key: "a".to_string(), value: Value::Int(1), expires: None },
            Kvpair { key: "b".to_string(), value: Value::Int(2), expires: None },
            Kvpair { key: "a".to_string(), value: Value::Int(3), expires: None },
        ],
    }));
    assert_eq!(resp.status, 200);
    assert_eq!(resp.values, vec![Value::Absent, Value::Absent, Value::Int(1)]);
    let resp = single(svc.execute(CommandRequest::HMGet {
        table: "t".to_string(),
        keys: vec!["a".to_string(), "c".to_string(), "b".to_string()],
    }));
    assert_eq!(resp.values, vec![Value::Int(3), Value::Absent, Value::Int(2)]);
    let resp = single(svc.execute(CommandRequest::HMExist {
        table: "t".to_string(),
        keys: vec!["a".to_string(), "c".to_string()],
    }));
    assert_eq!(resp.values, vec![Value::Bool(true), Value::Bool(false)]);
    let resp = single(svc.execute(CommandRequest::HMDel {
        table: "t".to_string(),
        keys: vec!["a".to_string(), "a".to_string(), "b".to_string()],
    }));
    assert_eq!(resp.values, vec![Value::Int(3), Value::Absent, Value::Int(2)]);
}

#[test]
fn hgetall_snapshots_the_table() {
    let mut svc = Service::new();
    svc.execute(hset("t", "a", Value::Int(1)));
    svc.execute(hset("t", "b", Value::Int(2)));
    let resp = single(svc.execute(CommandRequest::HGetAll { table: "t".to_string() }));
    assert_eq!(resp.status, 200);
    assert_eq!(resp.pairs.len(), 2);
    assert_eq!(resp.pairs[0].key, "a");
    assert_eq!(resp.pairs[1].key, "b");
    assert_eq!(resp.pairs[0].value, Value::Int(1));
}

#[test]
fn hexist_reports_presence() {
    let mut svc = Service::new();
    svc.execute(hset("t", "k", Value::Bool(false)));
    let resp = single(svc.execute(CommandRequest::HExist {
        table: "t".to_string(),
        key: "k".to_string(),
    }));
    assert_eq!(resp.values, vec![Value::Bool(true)]);
}

#[test]
fn responses_follow_request_order() {
    let mut svc = Service::new();
    let replies = svc.execute_all(vec![
        hset("t", "k", Value::Str("v".to_string())),
        hget("t", "k"),
        hget("t", "nope"),
    ]);
    assert_eq!(replies.len(), 3);
    let mut replies = replies.into_iter();
    assert_eq!(single(replies.next().unwrap()).status, 200);
    let second = single(replies.next().unwrap());
    assert_eq!(second.values, vec![Value::Str("v".to_string())]);
    assert_eq!(single(replies.next().unwrap()).status, 404);
}
