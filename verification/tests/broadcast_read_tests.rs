//! Broadcast-then-read behaviour of the dispatcher.

use maelstrom_rust_node::dispatch::process_message;
use maelstrom_rust_node::message::{Body, BroadcastMessage, Message};
use maelstrom_rust_node::state::State;
use maelstrom_rust_node::storage::Storage;

const NOW: u64 = 1_700_000_000_000;

type Cache = Vec<((String, u64), Option<String>)>;

fn make_broadcast_msg(msg_id: u64, message: u64) -> Message {
    Message {
        src: "client".to_string(),
        dest: "node1".to_string(),
        body: Body::Broadcast { msg_id, message: BroadcastMessage::Single(message) },
    }
}

fn make_read_msg(msg_id: u64) -> Message {
    Message {
        src: "client".to_string(),
        dest: "node1".to_string(),
        body: Body::Read { msg_id, key: None },
    }
}

fn run_test_message(msg: Message, _state: &mut State, storage: &mut Storage, cache: &mut Cache) -> String {
    let out = process_message(storage, cache, msg, NOW);
    out.reply.expect("expected a reply")
}

fn assert_response<F: Fn(&serde_json::Value)>(output: &str, tag: &str, check: F) {
    let v: serde_json::Value = serde_json::from_str(output).expect("reply is JSON");
    let body = &v["body"];
    assert_eq!(body["type"], tag);
    check(body);
}

fn messages_as_u64(body: &serde_json::Value) -> Vec<u64> {
    body["messages"]
        .as_array()
        .expect("messages is a list")
        .iter()
        .map(|x| x.as_u64().expect("message is a number"))
        .collect()
}

#[test]
fn test_broadcast_and_read() {
    let mut state = State::new();
    let mut storage = Storage::new();
    let mut cache: Cache = Vec::new();

    state.current_workload = Some("broadcast".to_string());
    state.node_id = Some("node1".to_string());

    let broadcast_msg = make_broadcast_msg(1, 123);
    let output = run_test_message(broadcast_msg, &mut state, &mut storage, &mut cache);
    assert_response(&output, "broadcast_ok", |_| {});

    let read_msg = make_read_msg(2);
    let output = run_test_message(read_msg, &mut state, &mut storage, &mut cache);
    assert_response(&output, "read_ok", |body| {
        assert_eq!(messages_as_u64(body), vec![123]);
    });
}

#[test]
fn test_read_empty() {
    let mut state = State::new();
    let mut storage = Storage::new();
    let mut cache: Cache = Vec::new();

    state.current_workload = Some("broadcast".to_string());
    state.node_id = Some("node1".to_string());

    let read_msg = make_read_msg(1);
    let output = run_test_message(read_msg, &mut state, &mut storage, &mut cache);
    assert_response(&output, "read_ok", |body| {
        assert_eq!(messages_as_u64(body), Vec::<u64>::new());
    });
}

#[test]
fn test_multiple_broadcasts() {
    let mut state = State::new();
    let mut storage = Storage::new();
    let mut cache: Cache = Vec::new();

    state.current_workload = Some("broadcast".to_string());
    state.node_id = Some("node1".to_string());

    let broadcast_msg1 = make_broadcast_msg(1, 123);
    let _ = run_test_message(broadcast_msg1, &mut state, &mut storage, &mut cache);

    let broadcast_msg2 = make_broadcast_msg(2, 456);
    let _ = run_test_message(broadcast_msg2, &mut state, &mut storage, &mut cache);

    let read_msg = make_read_msg(3);
    let output = run_test_message(read_msg, &mut state, &mut storage, &mut cache);
    assert_response(&output, "read_ok", |body| {
        assert_eq!(messages_as_u64(body), vec![123, 456]);
    });
}
