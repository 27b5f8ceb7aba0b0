//! Uniqueness and ordering of the generated id strings.

use std::collections::HashSet;

use maelstrom_rust_node::state::State;

const NOW: u64 = 1_700_000_000_000;

#[test]
fn ids_are_unique_for_single_node() {
    let mut state = State::new();
    state.node_id = Some("node".to_string());
    let mut seen = HashSet::new();
    for _ in 0..10_000 {
        let id = state.next_id(NOW);
        assert!(seen.insert(id.clone()), "Duplicate ID generated: {}", id);
    }
}

#[test]
fn ids_increase_over_time() {
    let mut state = State::new();
    state.node_id = Some("node".to_string());
    let first = state.next_id(NOW);
    let second = state.next_id(NOW + 1);

    assert!(second > first, "IDs did not increase over time");
}

#[test]
fn no_collision_between_two_nodes() {
    let mut state1 = State::new();
    state1.node_id = Some("node1".to_string());
    let mut state2 = State::new();
    state2.node_id = Some("node2".to_string());
    let mut seen = HashSet::new();

    for _ in 0..5_000 {
        let id1 = state1.next_id(NOW);
        let id2 = state2.next_id(NOW);
        assert!(seen.insert(id1), "Duplicate ID from node 1");
        assert!(seen.insert(id2), "Duplicate ID from node 2");
    }
}

#[test]
fn ordering_survives_same_millisecond() {
    let mut state = State::new();

    state.node_id = Some("node".to_string());

    let ids: Vec<String> = (0..1000).map(|_| state.next_id(NOW)).collect();

    let mut sorted = ids.clone();
    sorted.sort_unstable();

    assert_eq!(ids, sorted, "IDs out of order within same millisecond");
}

#[test]
fn id_strings_have_fixed_width_segments() {
    let mut state = State::new();
    state.node_id = Some("node".to_string());
    let id = state.next_id(NOW);
    let parts: Vec<&str> = id.split('-').collect();
    assert_eq!(parts, vec!["node", "1700000000000", "000000"]);
    let id = state.next_id(7);
    let parts: Vec<&str> = id.split('-').collect();
    assert_eq!(parts, vec!["node", "0000000000007", "000001"]);
}
