//! End-to-end scenarios through the dispatcher, and edge cases of the
//! registry, the worker and the JSON emitter.

use maelstrom_rust_node::commands::{command_to_line, BroadcastCommand};
use maelstrom_rust_node::dispatch::process_message;
use maelstrom_rust_node::message::{Body, BroadcastMessage, Message};
use maelstrom_rust_node::neighbors::NodeStatus;
use maelstrom_rust_node::snowflake::{node_bits, Snowflake};
use maelstrom_rust_node::storage::Storage;
use maelstrom_rust_node::worker::BroadcastWorker;

const NOW: u64 = 1_700_000_000_000;

type Cache = Vec<((String, u64), Option<String>)>;

fn msg(src: &str, dest: &str, body: Body) -> Message {
    Message { src: src.to_string(), dest: dest.to_string(), body }
}

fn init_msg(node: &str, workload: Option<&str>) -> Message {
    msg(
        "c",
        node,
        Body::Init {
            msg_id: 1,
            node_id: node.to_string(),
            node_ids: vec![node.to_string()],
            workload: workload.map(|w| w.to_string()),
        },
    )
}

fn parse(line: &str) -> serde_json::Value {
    serde_json::from_str(line).expect("line is JSON")
}

#[test]
fn init_then_echo_replies_in_order() {
    let mut storage = Storage::new();
    let mut cache: Cache = Vec::new();

    let out = process_message(&mut storage, &mut cache, init_msg("n1", None), NOW);
    let reply = parse(&out.reply.unwrap());
    assert_eq!(reply["src"], "n1");
    assert_eq!(reply["dest"], "c");
    assert_eq!(reply["body"]["type"], "init_ok");
    assert_eq!(reply["body"]["in_reply_to"], 1);

    let echo = msg("c", "n1", Body::Echo { msg_id: 2, echo: "hi".to_string() });
    let out = process_message(&mut storage, &mut cache, echo, NOW);
    let reply = parse(&out.reply.unwrap());
    assert_eq!(reply["body"]["type"], "echo_ok");
    assert_eq!(reply["body"]["in_reply_to"], 2);
    assert_eq!(reply["body"]["echo"], "hi");
}

#[test]
fn broadcast_then_read_returns_value() {
    let mut storage = Storage::new();
    let mut cache: Cache = Vec::new();
    process_message(&mut storage, &mut cache, init_msg("n1", None), NOW);

    let b = msg("c", "n1", Body::Broadcast { msg_id: 3, message: BroadcastMessage::Single(42) });
    let out = process_message(&mut storage, &mut cache, b, NOW);
    assert_eq!(parse(&out.reply.unwrap())["body"]["type"], "broadcast_ok");

    let r = msg("c", "n1", Body::Read { msg_id: 4, key: None });
    let out = process_message(&mut storage, &mut cache, r, NOW);
    let reply = parse(&out.reply.unwrap());
    assert_eq!(reply["body"]["type"], "read_ok");
    assert_eq!(reply["body"]["messages"].as_array().unwrap().len(), 1);
    assert_eq!(reply["body"]["messages"][0], 42);
}

#[test]
fn topology_marks_peers_online_and_gossip_reaches_them() {
    let mut storage = Storage::new();
    let mut cache: Cache = Vec::new();
    process_message(&mut storage, &mut cache, init_msg("node1", None), NOW);

    let topo = msg(
        "c",
        "node1",
        Body::Topology {
            msg_id: 2,
            topology: vec![
                ("node1".to_string(), vec!["node2".to_string(), "node3".to_string()]),
            ],
        },
    );
    let out = process_message(&mut storage, &mut cache, topo, NOW);
    assert_eq!(parse(&out.reply.unwrap())["body"]["type"], "topology_ok");

    let mut online = storage.online_nodes();
    online.sort();
    assert_eq!(online, vec!["node2".to_string(), "node3".to_string()]);

    let b = msg("c", "node1", Body::Broadcast { msg_id: 5, message: BroadcastMessage::Single(7) });
    process_message(&mut storage, &mut cache, b, NOW);

    let node_id = storage.get_node_id();
    let cmds = storage.gossip_to(&storage.online_nodes());
    let mut dests: Vec<String> = Vec::new();
    for cmd in cmds.iter() {
        let line = command_to_line(&node_id, cmd);
        let v = parse(&line);
        assert_eq!(v["src"], "node1");
        assert_eq!(v["body"]["type"], "broadcast");
        assert_eq!(v["body"]["message"], 7);
        dests.push(v["dest"].as_str().unwrap().to_string());
    }
    dests.sort();
    dests.dedup();
    assert_eq!(dests, vec!["node2".to_string(), "node3".to_string()]);
}

#[test]
fn identical_generate_requests_replay_the_same_reply() {
    let mut storage = Storage::new();
    let mut cache: Cache = Vec::new();
    process_message(&mut storage, &mut cache, init_msg("n1", None), NOW);

    let g1 = msg("c", "n1", Body::Generate { msg_id: 9 });
    let g2 = msg("c", "n1", Body::Generate { msg_id: 9 });
    let r1 = process_message(&mut storage, &mut cache, g1, NOW).reply.unwrap();
    let r2 = process_message(&mut storage, &mut cache, g2, NOW + 5).reply.unwrap();
    assert_eq!(r1, r2);
}

#[test]
fn generate_ids_are_distinct_and_ordered() {
    let mut storage = Storage::new();
    let mut cache: Cache = Vec::new();
    process_message(&mut storage, &mut cache, init_msg("n1", None), NOW);

    let mut ids: Vec<String> = Vec::new();
    for i in 0..10_000u64 {
        let g = msg("c", "n1", Body::Generate { msg_id: 10 + i });
        let reply = process_message(&mut storage, &mut cache, g, NOW).reply.unwrap();
        let v = parse(&reply);
        ids.push(v["body"]["id"].as_str().unwrap().to_string());
    }
    let mut sorted = ids.clone();
    sorted.sort();
    assert_eq!(ids, sorted, "string order must equal issue order");
    sorted.dedup();
    assert_eq!(sorted.len(), 10_000, "ids must be distinct");
}

fn expect_read(cmd: &BroadcastCommand) -> u64 {
    match cmd {
        BroadcastCommand::Read { dest, msg_id } => {
            assert_eq!(dest, "seq-kv");
            *msg_id
        },
        _ => panic!("expected a read command"),
    }
}

fn expect_cas(cmd: &BroadcastCommand, from: u64, to: u64) -> u64 {
    match cmd {
        BroadcastCommand::Cas { dest, msg_id, from: f, to: t, create_if_not_exists } => {
            assert_eq!(dest, "seq-kv");
            assert_eq!(*f, from);
            assert_eq!(*t, to);
            assert!(*create_if_not_exists);
            *msg_id
        },
        _ => panic!("expected a cas command"),
    }
}

#[test]
fn counter_add_reads_then_cas_ok_then_retry_with_fresh_from() {
    let mut storage = Storage::new();
    let mut cache: Cache = Vec::new();
    process_message(&mut storage, &mut cache, init_msg("n1", Some("g-counter")), NOW);

    // the add is answered at once and asks seq-kv for the current value
    let add = msg("c", "n1", Body::Add { msg_id: 2, delta: 5 });
    let out = process_message(&mut storage, &mut cache, add, NOW);
    assert_eq!(parse(&out.reply.unwrap())["body"]["type"], "add_ok");
    assert_eq!(out.commands.len(), 1);
    let read_id = expect_read(&out.commands[0]);

    // seq-kv answers the read; the cas moves from that value to value + delta
    let ro = msg("seq-kv", "n1", Body::ReadOk { in_reply_to: read_id, value: 0 });
    let out = process_message(&mut storage, &mut cache, ro, NOW);
    assert!(out.reply.is_none());
    assert_eq!(out.commands.len(), 1);
    let cas_id = expect_cas(&out.commands[0], 0, 5);

    let ok = msg("seq-kv", "n1", Body::CasOk { in_reply_to: cas_id });
    let out = process_message(&mut storage, &mut cache, ok, NOW);
    assert!(out.reply.is_none());

    let read = msg("c", "n1", Body::Read { msg_id: 3, key: None });
    let out = process_message(&mut storage, &mut cache, read, NOW);
    let reply = parse(&out.reply.unwrap());
    assert_eq!(reply["body"]["type"], "read_ok");
    assert_eq!(reply["body"]["messages"], 5);

    let add2 = msg("c", "n1", Body::Add { msg_id: 4, delta: 3 });
    let out = process_message(&mut storage, &mut cache, add2, NOW);
    let read2_id = expect_read(&out.commands[0]);
    let ro2 = msg("seq-kv", "n1", Body::ReadOk { in_reply_to: read2_id, value: 5 });
    let out = process_message(&mut storage, &mut cache, ro2, NOW);
    let cas2_id = expect_cas(&out.commands[0], 5, 8);

    let err = msg(
        "seq-kv",
        "n1",
        Body::Error { in_reply_to: cas2_id, code: 22, text: "precondition failed".to_string() },
    );
    let out = process_message(&mut storage, &mut cache, err, NOW);
    assert!(out.reply.is_none());
    assert_eq!(out.commands.len(), 1);
    match &out.commands[0] {
        BroadcastCommand::Cas { from, to, .. } => {
            assert_eq!(*from, 8, "the reissued cas must carry the refreshed from");
            assert_eq!(*to, 8);
        },
        _ => panic!("expected a reissued cas command"),
    }
}

#[test]
fn read_ok_without_waiter_changes_nothing() {
    let mut storage = Storage::new();
    let mut cache: Cache = Vec::new();
    process_message(&mut storage, &mut cache, init_msg("n1", Some("g-counter")), NOW);

    let stray = msg("seq-kv", "n1", Body::ReadOk { in_reply_to: 999, value: 7 });
    let out = process_message(&mut storage, &mut cache, stray, NOW);
    assert!(out.reply.is_none());
    assert!(out.commands.is_empty());

    let read = msg("c", "n1", Body::Read { msg_id: 3, key: None });
    let out = process_message(&mut storage, &mut cache, read, NOW);
    assert_eq!(parse(&out.reply.unwrap())["body"]["messages"], 0);
}

#[test]
fn add_gossips_counter_map_to_online_peers() {
    let mut storage = Storage::new();
    let mut cache: Cache = Vec::new();
    process_message(&mut storage, &mut cache, init_msg("node1", Some("g-counter")), NOW);
    let topo = msg(
        "c",
        "node1",
        Body::Topology { msg_id: 2, topology: vec![("node1".to_string(), vec!["node2".to_string()])] },
    );
    process_message(&mut storage, &mut cache, topo, NOW);

    let add = msg("c", "node1", Body::Add { msg_id: 3, delta: 4 });
    let out = process_message(&mut storage, &mut cache, add, NOW);
    // one gossip envelope per online peer, then the read against seq-kv
    assert_eq!(out.commands.len(), 2);
    let node_id = storage.get_node_id();
    let line = command_to_line(&node_id, &out.commands[0]);
    let v = parse(&line);
    assert_eq!(v["dest"], "node2");
    assert_eq!(v["body"]["type"], "broadcast");
    assert_eq!(v["body"]["message"]["node1"], 4);
    expect_read(&out.commands[1]);
}

#[test]
fn duplicate_broadcast_keeps_one_copy() {
    let mut storage = Storage::new();
    let mut cache: Cache = Vec::new();
    process_message(&mut storage, &mut cache, init_msg("n1", None), NOW);

    let b1 = msg("c", "n1", Body::Broadcast { msg_id: 2, message: BroadcastMessage::Single(9) });
    let b2 = msg("d", "n1", Body::Broadcast { msg_id: 7, message: BroadcastMessage::Single(9) });
    process_message(&mut storage, &mut cache, b1, NOW);
    process_message(&mut storage, &mut cache, b2, NOW);

    let r = msg("c", "n1", Body::Read { msg_id: 3, key: None });
    let out = process_message(&mut storage, &mut cache, r, NOW);
    let reply = parse(&out.reply.unwrap());
    assert_eq!(reply["body"]["messages"].as_array().unwrap().len(), 1);
}

#[test]
fn echo_escapes_special_characters() {
    let mut storage = Storage::new();
    let mut cache: Cache = Vec::new();
    process_message(&mut storage, &mut cache, init_msg("n1", None), NOW);

    let text = "a\"b\\c\nd\te\u{1}f";
    let echo = msg("c", "n1", Body::Echo { msg_id: 2, echo: text.to_string() });
    let out = process_message(&mut storage, &mut cache, echo, NOW);
    let reply = parse(&out.reply.unwrap());
    assert_eq!(reply["body"]["echo"].as_str().unwrap(), text);
}

#[test]
fn sweep_moves_stale_peers_offline() {
    let mut storage = Storage::new();
    let mut cache: Cache = Vec::new();
    process_message(&mut storage, &mut cache, init_msg("node1", None), NOW);
    let topo = msg(
        "c",
        "node1",
        Body::Topology { msg_id: 2, topology: vec![("node1".to_string(), vec!["node2".to_string()])] },
    );
    process_message(&mut storage, &mut cache, topo, NOW);
    assert_eq!(storage.online_nodes(), vec!["node2".to_string()]);

    storage.update_node_states(NOW + 30_001);
    assert!(storage.online_nodes().is_empty());
    assert_eq!(storage.offline_nodes(), vec!["node2".to_string()]);

    storage.update_node_states(NOW + 30_001);
    assert_eq!(storage.offline_nodes(), vec!["node2".to_string()]);
}

#[test]
fn offline_peer_rejoins_through_topology() {
    let mut storage = Storage::new();
    let update = vec!["node2".to_string()];
    storage.update_neighbors(&update, NOW);
    storage.update_node_states(NOW + 40_000);
    assert_eq!(storage.offline_nodes(), vec!["node2".to_string()]);

    storage.update_neighbors(&update, NOW + 41_000);
    assert!(matches!(storage.node_status[0].1, NodeStatus::Rejoining(_, _)));

    storage.update_neighbors(&update, NOW + 42_000);
    assert!(matches!(storage.node_status[0].1, NodeStatus::Online(_)));
}

#[test]
fn ack_after_offline_reseeds_pending() {
    let mut storage = Storage::new();
    storage.set_id("node1");
    storage.update_neighbors(&vec!["node2".to_string()], NOW);
    let src = "c".to_string();
    storage.update_values(&src, 11, NOW);
    storage.update_values(&src, 22, NOW);
    let keys: Vec<u64> = storage.values.iter().map(|e| e.0).collect();
    assert_eq!(keys.len(), 2);

    // the peer goes offline, then acknowledges the first key
    storage.update_node_states(NOW + 40_000);
    assert_eq!(storage.offline_nodes(), vec!["node2".to_string()]);
    storage.remove_from_peer_pending(&"node2".to_string(), keys[0], NOW + 41_000);

    // back online, and its pending set holds every store key again
    assert_eq!(storage.online_nodes(), vec!["node2".to_string()]);
    let pending = &storage.peer_pending[0];
    assert_eq!(pending.0, "node2");
    for k in keys.iter() {
        assert!(pending.1.contains(k), "catch-up must reseed key {}", k);
    }
}

#[test]
fn worker_tick_sends_missing_and_ack_stops_resend() {
    let mut worker = BroadcastWorker::new();
    let mut snowflake = Snowflake::with_node_id(7);
    let neighbors = vec!["node2".to_string()];
    let store = vec![5u64, 6u64];

    let cmds = worker.tick(&neighbors, &store, &mut snowflake, NOW);
    assert_eq!(cmds.len(), 2);
    let mut sent: Vec<(u64, u64)> = Vec::new();
    for cmd in cmds.iter() {
        match cmd {
            BroadcastCommand::Broadcast { dest, msg_id, message } => {
                assert_eq!(dest, "node2");
                match message {
                    BroadcastMessage::Single(v) => sent.push((*msg_id, *v)),
                    _ => panic!("expected a single value"),
                }
            },
            _ => panic!("expected broadcast commands"),
        }
    }
    let mut vals: Vec<u64> = sent.iter().map(|p| p.1).collect();
    vals.sort();
    assert_eq!(vals, vec![5, 6]);

    // acknowledge the value 5; the next tick resends only 6
    let ack_id = sent.iter().find(|p| p.1 == 5).unwrap().0;
    worker.ack(&"node2".to_string(), ack_id);
    let cmds = worker.tick(&neighbors, &store, &mut snowflake, NOW + 250);
    let mut vals: Vec<u64> = cmds
        .iter()
        .map(|cmd| match cmd {
            BroadcastCommand::Broadcast { message: BroadcastMessage::Single(v), .. } => *v,
            _ => panic!("expected broadcast commands"),
        })
        .collect();
    vals.sort();
    vals.dedup();
    assert_eq!(vals, vec![6]);
}

#[test]
fn snowflake_ids_increase_and_fit_the_node_bits() {
    let mut s = Snowflake::new();
    assert!(s.node_id <= 0x3FF);
    let a = s.next_id(NOW);
    let b = s.next_id(NOW);
    let c = s.next_id(NOW + 1);
    assert!(a < b && b < c);
}

#[test]
fn counter_gossip_merges_by_maximum() {
    let mut storage = Storage::new();
    let mut cache: Cache = Vec::new();
    process_message(&mut storage, &mut cache, init_msg("n1", Some("g-counter")), NOW);

    let gossip = msg(
        "n2",
        "n1",
        Body::Broadcast {
            msg_id: 2,
            message: BroadcastMessage::Hashmap(vec![
                ("n2".to_string(), 10),
                ("n3".to_string(), 4),
            ]),
        },
    );
    process_message(&mut storage, &mut cache, gossip, NOW);

    let stale = msg(
        "n3",
        "n1",
        Body::Broadcast {
            msg_id: 3,
            message: BroadcastMessage::Hashmap(vec![
                ("n2".to_string(), 7),
                ("n3".to_string(), 9),
            ]),
        },
    );
    process_message(&mut storage, &mut cache, stale, NOW);

    let read = msg("c", "n1", Body::Read { msg_id: 4, key: None });
    let out = process_message(&mut storage, &mut cache, read, NOW);
    let reply = parse(&out.reply.unwrap());
    assert_eq!(reply["body"]["messages"], 19, "merge keeps the per-node maxima 10 and 9");
}

#[test]
fn repeated_topology_name_registers_one_peer() {
    let mut storage = Storage::new();
    let mut cache: Cache = Vec::new();
    process_message(&mut storage, &mut cache, init_msg("node1", None), NOW);

    let update = vec!["node2".to_string(), "node2".to_string()];
    storage.update_neighbors(&update, NOW);
    assert_eq!(storage.node_status.len(), 1);
    assert_eq!(storage.online_nodes(), vec!["node2".to_string()]);
}

#[test]
fn add_saturates_at_the_integer_limit() {
    let mut storage = Storage::new();
    let mut cache: Cache = Vec::new();
    process_message(&mut storage, &mut cache, init_msg("n1", Some("g-counter")), NOW);

    let add = msg("c", "n1", Body::Add { msg_id: 2, delta: u64::MAX });
    let out = process_message(&mut storage, &mut cache, add, NOW);
    let read_id = expect_read(&out.commands[0]);
    let ro = msg("seq-kv", "n1", Body::ReadOk { in_reply_to: read_id, value: 0 });
    let out = process_message(&mut storage, &mut cache, ro, NOW);
    expect_cas(&out.commands[0], 0, u64::MAX);

    let add2 = msg("c", "n1", Body::Add { msg_id: 3, delta: 1 });
    let out = process_message(&mut storage, &mut cache, add2, NOW);
    let read2_id = expect_read(&out.commands[0]);
    let ro2 = msg("seq-kv", "n1", Body::ReadOk { in_reply_to: read2_id, value: u64::MAX });
    let out = process_message(&mut storage, &mut cache, ro2, NOW);
    // the target saturates instead of wrapping
    expect_cas(&out.commands[0], u64::MAX, u64::MAX);
}

#[test]
fn node_bits_are_a_fixed_hash_of_the_name() {
    assert_eq!(node_bits("n1"), 192);
    assert_eq!(node_bits("node1"), 788);
    assert_eq!(node_bits("abc"), node_bits("abc"));
    assert_ne!(node_bits("abc"), node_bits("abd"));

    let mut storage = Storage::new();
    let mut cache: Cache = Vec::new();
    assert_eq!(storage.snowflake.node_id, 0);
    process_message(&mut storage, &mut cache, init_msg("node1", None), NOW);
    assert_eq!(storage.snowflake.node_id, 788);
}
