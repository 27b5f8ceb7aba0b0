//! Unit tests for the value store and the grow-only counter.

use maelstrom_rust_node::g_counter::GCounter;
use maelstrom_rust_node::value_store::ValueStore;

fn create_test_value_store() -> ValueStore {
    ValueStore::new()
}

fn create_test_g_counter() -> GCounter {
    GCounter::new()
}

#[test]
fn test_update_store_data_new_value() {
    let mut value_store = create_test_value_store();
    let result = value_store.update_store_data(123);
    assert!(result);
    assert!(value_store.contains_value(123));
}

#[test]
fn test_update_store_data_duplicate_value() {
    let mut value_store = create_test_value_store();
    value_store.update_store_data(123);
    let result = value_store.update_store_data(123);
    assert!(!result);
}

#[test]
fn test_values() {
    let mut value_store = create_test_value_store();
    value_store.update_store_data(1);
    value_store.update_store_data(2);
    value_store.update_store_data(3);
    let mut values = value_store.values();
    values.sort();
    assert_eq!(values, vec![1, 2, 3]);
}

#[test]
fn test_contains_value() {
    let mut value_store = create_test_value_store();
    value_store.update_store_data(456);
    assert!(value_store.contains_value(456));
    assert!(!value_store.contains_value(789));
}

#[test]
fn test_g_counter_local_sum() {
    let mut g_counter = create_test_g_counter();
    let values = vec![("n1".to_string(), 10), ("n2".to_string(), 20)];
    g_counter.update_counter(&values);
    assert_eq!(g_counter.local_sum(), 30);
}

#[test]
fn test_g_counter_local_value() {
    let mut g_counter = create_test_g_counter();
    let node = "n1".to_string();
    assert_eq!(g_counter.local_value(&node), 0);
    let values = vec![("n1".to_string(), 10)];
    g_counter.update_counter(&values);
    assert_eq!(g_counter.local_value(&node), 10);
}

#[test]
fn test_g_counter_update_counter() {
    let mut g_counter = create_test_g_counter();
    let values = vec![("n1".to_string(), 10), ("n2".to_string(), 20)];
    g_counter.update_counter(&values);
    assert_eq!(g_counter.local_sum(), 30);
}

#[test]
fn test_g_counter_update_counter_with_existing_values() {
    let mut g_counter = create_test_g_counter();
    let values = vec![("n1".to_string(), 10)];
    g_counter.update_counter(&values);
    let new_values = vec![("n1".to_string(), 5), ("n2".to_string(), 20)];
    g_counter.update_counter(&new_values);
    assert_eq!(g_counter.local_sum(), 30);
}
