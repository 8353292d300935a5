use kv_core::proto::{Value, CommandRequest};
use kv_core::dispatch::{Service, Reply};
use tokio::sync::mpsc::Receiver;
use kv_core::proto::CommandResponse;

fn subscribe(svc: &mut Service, topic: &str) -> Receiver<CommandResponse> {
    match svc.execute(CommandRequest::Subscribe { topic: topic.to_string() }) {
        Reply::Stream(rx) => rx,
        Reply::Single(_) => panic!("expected a stream"),
    }
}

fn first_id(rx: &mut Receiver<CommandResponse>) -> i64 {
    let hello = rx.try_recv().expect("the subscription id should be queued");
    assert_eq!(hello.status, 200);
    match hello.values[0] {
        Value::Int(id) => id,
        _ => panic!("expected an integer id"),
    }
}

#[test]
fn subscribe_yields_a_positive_id_and_receives_publishes() {
    let mut svc = Service::new();
    let mut rx = subscribe(&mut svc, "lobby");
    let id = first_id(&mut rx);
    assert!(id >= 1);
    let resp = match svc.execute(CommandRequest::Publish {
        topic: "lobby".to_string(),
        values: vec![Value::Str("hi".to_string())],
    }) {
        Reply::Single(resp) => resp,
        Reply::Stream(_) => panic!("expected a single response"),
    };
    assert_eq!(resp.status, 200);
    let delivered = rx.try_recv().expect("the publish should be delivered");
    assert_eq!(delivered.status, 200);
    assert_eq!(delivered.values, vec![Value::Str("hi".to_string())]);
}

#[test]
fn subscription_ids_are_distinct() {
    let mut svc = Service::new();
    let mut rx1 = subscribe(&mut svc, "a");
    let mut rx2 = subscribe(&mut svc, "a");
    let mut rx3 = subscribe(&mut svc, "b");
    let id1 = first_id(&mut rx1);
    let id2 = first_id(&mut rx2);
    let id3 = first_id(&mut rx3);
    assert!(id1 >= 1 && id2 >= 1 && id3 >= 1);
    assert_ne!(id1, id2);
    assert_ne!(id1, id3);
    assert_ne!(id2, id3);
}

#[test]
fn unsubscribe_unknown_id_is_not_found() {
    let mut svc = Service::new();
    let resp = match svc.execute(CommandRequest::Unsubscribe {
        topic: "lobby".to_string(),
        id: 9527,
    }) {
        Reply::Single(resp) => resp,
        Reply::Stream(_) => panic!("expected a single response"),
    };
    assert_eq!(resp.status, 404);
    assert_eq!(resp.message, "Not found: subscription 9527");
}

#[test]
fn unsubscribe_known_id_succeeds_once() {
    let mut svc = Service::new();
    let mut rx = subscribe(&mut svc, "lobby");
    let id = first_id(&mut rx) as u32;
    let unsub = CommandRequest::Unsubscribe { topic: "lobby".to_string(), id };
    let resp = match svc.execute(unsub) {
        Reply::Single(resp) => resp,
        Reply::Stream(_) => panic!("expected a single response"),
    };
    assert_eq!(resp.status, 200);
    let again = CommandRequest::Unsubscribe { topic: "lobby".to_string(), id };
    let resp = match svc.execute(again) {
        Reply::Single(resp) => resp,
        Reply::Stream(_) => panic!("expected a single response"),
    };
    assert_eq!(resp.status, 404);
}

#[test]
fn dropped_subscriber_is_pruned_on_next_publish() {
    let mut svc = Service::new();
    let mut rx = subscribe(&mut svc, "lobby");
    let id = first_id(&mut rx) as u32;
    drop(rx);
    let resp = match svc.execute(CommandRequest::Publish {
        topic: "lobby".to_string(),
        values: vec![Value::Str("anyone there?".to_string())],
    }) {
        Reply::Single(resp) => resp,
        Reply::Stream(_) => panic!("expected a single response"),
    };
    assert_eq!(resp.status, 200);
    let resp = match svc.execute(CommandRequest::Unsubscribe {
        topic: "lobby".to_string(),
        id,
    }) {
        Reply::Single(resp) => resp,
        Reply::Stream(_) => panic!("expected a single response"),
    };
    assert_eq!(resp.status, 404);
}

#[test]
fn publish_without_subscribers_succeeds() {
    let mut svc = Service::new();
    let resp = match svc.execute(CommandRequest::Publish {
        topic: "empty".to_string(),
        values: vec![Value::Int(1)],
    }) {
        Reply::Single(resp) => resp,
        Reply::Stream(_) => panic!("expected a single response"),
    };
    assert_eq!(resp.status, 200);
    assert!(resp.values.is_empty());
}

#[test]
fn stale_topic_listing_is_pruned_on_publish() {
    let mut svc = Service::new();
    let mut rx = subscribe(&mut svc, "a");
    let id = first_id(&mut rx) as u32;
    // unsubscribing under the wrong topic still drops the registry entry,
    // but leaves the id listed under its real topic
    let resp = match svc.execute(CommandRequest::Unsubscribe { topic: "b".to_string(), id }) {
        Reply::Single(resp) => resp,
        Reply::Stream(_) => panic!("expected a single response"),
    };
    assert_eq!(resp.status, 200);
    // the next publish on the real topic prunes the stale listing
    let resp = match svc.execute(CommandRequest::Publish {
        topic: "a".to_string(),
        values: vec![Value::Int(1)],
    }) {
        Reply::Single(resp) => resp,
        Reply::Stream(_) => panic!("expected a single response"),
    };
    assert_eq!(resp.status, 200);
    let resp = match svc.execute(CommandRequest::Unsubscribe { topic: "a".to_string(), id }) {
        Reply::Single(resp) => resp,
        Reply::Stream(_) => panic!("expected a single response"),
    };
    assert_eq!(resp.status, 404);
}
