use std::collections::HashMap;

use mailbox::address::Address;
use mailbox::message::{FetchOptions, MailMessage};
use mailbox::providers::memory::MemoryEventBus;
use serde_json::Value;

fn message(id: &str) -> MailMessage {
    MailMessage {
        id: id.to_string(),
        from: Address::parse("mem:test/sender").unwrap(),
        to: Address::parse("mem:test/inbox").unwrap(),
        body: Value::String(id.to_uppercase()),
        headers: HashMap::new(),
        meta: HashMap::new(),
    }
}

fn auto() -> FetchOptions {
    FetchOptions { manual_ack: false, ack_timeout: None }
}

#[test]
fn handles_count_up_over_all_topics() {
    let mut bus = MemoryEventBus::new();
    assert_eq!(bus.subscribe("t".to_string(), "s0".to_string()), Some(0));
    assert_eq!(bus.subscribe("u".to_string(), "s1".to_string()), Some(1));
    assert_eq!(bus.subscribe("t".to_string(), "s2".to_string()), Some(2));
    assert_eq!(bus.last_activity("t"), Some("s2".to_string()));
    assert_eq!(bus.last_activity("u"), Some("s1".to_string()));
    assert_eq!(bus.last_activity("v"), None);
}

#[test]
fn publish_starts_one_delivery_for_each_subscriber_in_order() {
    let mut bus = MemoryEventBus::new();
    bus.subscribe("t".to_string(), "s".to_string());
    bus.subscribe("u".to_string(), "s".to_string());
    bus.subscribe("t".to_string(), "s".to_string());

    bus.publish("t".to_string(), &message("a"), "first".to_string());
    bus.publish("u".to_string(), &message("b"), "second".to_string());
    bus.publish("t".to_string(), &message("c"), "third".to_string());

    let started: Vec<(u64, String, Value)> = bus
        .take_deliveries()
        .into_iter()
        .map(|d| (d.listener, d.message.id, d.message.body))
        .collect();
    let expected: Vec<(u64, String, Value)> = [(0, "a"), (2, "a"), (1, "b"), (0, "c"), (2, "c")]
        .iter()
        .map(|(l, id)| (*l, id.to_string(), Value::String(id.to_uppercase())))
        .collect();
    assert_eq!(started, expected);
    assert!(bus.take_deliveries().is_empty());

    assert_eq!(bus.unread("t"), 2);
    assert_eq!(bus.unread("u"), 1);
    assert_eq!(bus.last_activity("t"), Some("third".to_string()));
}

#[test]
fn unsubscribe_takes_out_one_listener_and_records_no_activity() {
    let mut bus = MemoryEventBus::new();
    bus.subscribe("t".to_string(), "s0".to_string());
    bus.subscribe("t".to_string(), "s1".to_string());
    bus.subscribe("t".to_string(), "s2".to_string());

    bus.unsubscribe("t", 1);
    bus.unsubscribe("t", 1);
    bus.unsubscribe("t", 7);
    bus.unsubscribe("nowhere", 0);
    assert_eq!(bus.last_activity("t"), Some("s2".to_string()));
    assert_eq!(bus.last_activity("nowhere"), None);

    bus.publish("t".to_string(), &message("a"), "p".to_string());
    let listeners: Vec<u64> = bus.take_deliveries().iter().map(|d| d.listener).collect();
    assert_eq!(listeners, vec![0, 2]);

    // a handle is not given out again
    assert_eq!(bus.subscribe("t".to_string(), "s3".to_string()), Some(3));
}

#[test]
fn fetch_records_activity_even_where_nothing_waits() {
    let mut bus = MemoryEventBus::new();
    assert!(bus.fetch("t", auto(), "f1".to_string(), 0).is_none());
    assert_eq!(bus.last_activity("t"), Some("f1".to_string()));
    assert_eq!(bus.unread("t"), 0);
}

#[test]
fn manual_fetch_leases_and_auto_fetch_does_not() {
    let mut bus = MemoryEventBus::new();
    let manual = FetchOptions { manual_ack: true, ack_timeout: Some(1) };
    bus.publish("t".to_string(), &message("a"), "p".to_string());
    bus.publish("t".to_string(), &message("b"), "p".to_string());

    assert_eq!(bus.fetch("t", auto(), "f".to_string(), 0).unwrap().id, "a");
    assert_eq!(bus.fetch("t", manual, "f".to_string(), 0).unwrap().id, "b");
    // a was final, b comes back once its lease has expired
    let back = bus.fetch("t", manual, "f".to_string(), 1_000_001).unwrap();
    assert_eq!(back.id, "b");
    assert_eq!(back.body, Value::String("B".to_string()));
    bus.ack("b");
    assert!(bus.fetch("t", manual, "f".to_string(), 9_000_000).is_none());

    // the timeout of an auto fetch is not looked at
    bus.publish("t".to_string(), &message("c"), "p".to_string());
    assert_eq!(bus.fetch("t", manual, "f".to_string(), 0).unwrap().id, "c");
    let auto_with_timeout = FetchOptions { manual_ack: false, ack_timeout: Some(1) };
    assert!(bus.fetch("t", auto_with_timeout, "f".to_string(), 9_000_000).is_none());
    bus.nack("c", true);
    assert_eq!(bus.unread("t"), 1);
    assert_eq!(bus.fetch("t", auto_with_timeout, "f".to_string(), 0).unwrap().id, "c");
}

#[test]
fn the_clock_of_the_bus_does_not_run_backwards() {
    let bus = MemoryEventBus::new();
    let first = bus.clock();
    let second = bus.clock();
    assert!(first <= second);
}
