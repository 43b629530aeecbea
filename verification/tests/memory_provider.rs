use std::collections::HashMap;

use mailbox::address::Address;
use mailbox::message::{FetchOptions, MailMessage, OutgoingMail};
use mailbox::provider::{MailboxProvider, Subscription};
use mailbox::providers::memory::MemoryProvider;
use serde_json::Value;

fn mail(id: Option<&str>, to: &Address, body: Value) -> OutgoingMail {
    OutgoingMail {
        id: id.map(str::to_string),
        from: Address::parse("mem:test/sender").unwrap(),
        to: to.clone(),
        body,
        headers: HashMap::new(),
        meta: HashMap::new(),
    }
}

fn hello_world() -> Value {
    let mut object = serde_json::Map::new();
    object.insert("hello".to_string(), Value::String("world".to_string()));
    Value::Object(object)
}

#[test]
fn test_send_and_subscribe() {
    let mut provider = MemoryProvider::new();
    let address = Address::parse("mem:test/inbox").unwrap();

    let sub = provider.subscribe(&address).unwrap();

    provider.send(mail(None, &address, hello_world()).into()).unwrap();

    let deliveries = provider.take_deliveries();
    assert_eq!(deliveries.len(), 1);
    assert_eq!(deliveries[0].listener, sub.listener);
    let received = &deliveries[0].message;
    assert_eq!(received.body, hello_world());
    assert!(provider.take_deliveries().is_empty());
}

#[test]
fn test_fetch_auto_ack() {
    let mut provider = MemoryProvider::new();
    let address = Address::parse("mem:test/fetch").unwrap();

    provider
        .send(mail(Some("msg1"), &address, Value::String("content".to_string())).into())
        .unwrap();

    let fetched = provider.fetch(&address, FetchOptions::default()).unwrap();
    assert!(fetched.is_some());
    let msg = fetched.unwrap();
    assert_eq!(msg.message.id, "msg1");
    assert_eq!(msg.message.body, Value::String("content".to_string()));

    // Should be gone
    let fetched2 = provider.fetch(&address, FetchOptions::default()).unwrap();
    assert!(fetched2.is_none());
}

#[test]
fn test_fetch_manual_ack() {
    let mut provider = MemoryProvider::new();
    let address = Address::parse("mem:test/ack").unwrap();

    provider
        .send(mail(Some("msg2"), &address, Value::String("content".to_string())).into())
        .unwrap();

    let options = FetchOptions { manual_ack: true, ack_timeout: None };

    let fetched = provider.fetch(&address, options).unwrap();
    assert!(fetched.is_some());
    let msg = fetched.unwrap();
    assert_eq!(msg.message.id, "msg2");

    // Should not be available yet (in flight)
    let fetched2 = provider.fetch(&address, options).unwrap();
    assert!(fetched2.is_none());

    // Ack it
    msg.ack(&mut provider).unwrap();

    // Should be gone permanently
    let fetched3 = provider.fetch(&address, options).unwrap();
    assert!(fetched3.is_none());
}

#[test]
fn test_fetch_nack_requeue() {
    let mut provider = MemoryProvider::new();
    let address = Address::parse("mem:test/nack").unwrap();

    provider
        .send(mail(Some("msg3"), &address, Value::String("content".to_string())).into())
        .unwrap();

    let options = FetchOptions { manual_ack: true, ack_timeout: None };

    let fetched = provider.fetch(&address, options).unwrap();
    let msg = fetched.unwrap();

    // Nack with requeue
    msg.nack(&mut provider, true).unwrap();

    // Should be available again
    let fetched2 = provider.fetch(&address, options).unwrap();
    assert!(fetched2.is_some());
    assert_eq!(fetched2.unwrap().message.id, "msg3");
}

#[test]
fn protocol_is_mem() {
    let provider = MemoryProvider::new();
    assert_eq!(provider.protocol(), "mem");
}

#[test]
fn send_keeps_a_given_id_and_assigns_a_missing_one() {
    let mut provider = MemoryProvider::new();
    let address = Address::parse("mem:test/ids").unwrap();

    let kept = provider.send(mail(Some("given"), &address, Value::Null).into()).unwrap();
    assert_eq!(kept.id, "given");

    let assigned = provider.send(mail(None, &address, Value::Null).into()).unwrap();
    assert_eq!(assigned.id.chars().count(), 36);
    assert_eq!(assigned.to.path, "test/ids");

    // both wait in the queue, in the order in which they were sent
    let first = provider.fetch(&address, FetchOptions::default()).unwrap().unwrap();
    let second = provider.fetch(&address, FetchOptions::default()).unwrap().unwrap();
    assert_eq!(first.message.id, "given");
    assert_eq!(second.message.id, assigned.id);
}

#[test]
fn generated_ids_are_hyphenated_and_differ() {
    let provider = MemoryProvider::new();
    let a = provider.generate_id();
    let b = provider.generate_id();
    assert_eq!(a.len(), 36);
    assert_eq!(a.matches('-').count(), 4);
    assert_ne!(a, b);
}

#[test]
fn publish_reaches_every_subscriber_once_and_the_queue() {
    let mut provider = MemoryProvider::new();
    let address = Address::parse("mem:test/fanout").unwrap();
    let other = Address::parse("mem:test/elsewhere").unwrap();

    let a = provider.subscribe(&address).unwrap();
    let b = provider.subscribe(&address).unwrap();
    let c = provider.subscribe(&address).unwrap();
    let stranger = provider.subscribe(&other).unwrap();
    assert_eq!((a.listener, b.listener, c.listener, stranger.listener), (0, 1, 2, 3));
    assert_eq!(a.topic, "mem:test/fanout");

    provider.send(mail(Some("m"), &address, Value::Bool(true)).into()).unwrap();

    let deliveries = provider.take_deliveries();
    let listeners: Vec<u64> = deliveries.iter().map(|d| d.listener).collect();
    assert_eq!(listeners, vec![0, 1, 2]);
    assert!(deliveries.iter().all(|d| d.message.id == "m" && d.message.body == Value::Bool(true)));

    // the pull side sees the same message, whoever subscribed
    assert_eq!(provider.status(&address).unwrap().unread_count, Some(1));
    assert_eq!(provider.status(&other).unwrap().unread_count, Some(0));
}

#[test]
fn unsubscribe_removes_that_listener_only_and_twice_is_no_error() {
    let mut provider = MemoryProvider::new();
    let address = Address::parse("mem:test/leave").unwrap();

    let mut a = provider.subscribe(&address).unwrap();
    let b = provider.subscribe(&address).unwrap();

    assert!(a.unsubscribe(&mut provider).is_ok());
    assert!(a.unsubscribe(&mut provider).is_ok());

    provider.send(mail(Some("m"), &address, Value::Null).into()).unwrap();
    let deliveries = provider.take_deliveries();
    assert_eq!(deliveries.len(), 1);
    assert_eq!(deliveries[0].listener, b.listener);
}

#[test]
fn send_without_subscribers_still_queues() {
    let mut provider = MemoryProvider::new();
    let address = Address::parse("mem:test/nobody").unwrap();
    provider.send(mail(Some("m"), &address, Value::Null).into()).unwrap();
    assert!(provider.take_deliveries().is_empty());
    assert_eq!(provider.status(&address).unwrap().unread_count, Some(1));
}

#[test]
fn status_counts_queued_messages_but_not_those_in_flight() {
    let mut provider = MemoryProvider::new();
    let address = Address::parse("mem:test/status").unwrap();

    let idle = provider.status(&address).unwrap();
    assert_eq!(idle.state, "online");
    assert_eq!(idle.unread_count, Some(0));
    assert_eq!(idle.last_activity_time, None);
    assert!(idle.extra.is_empty());

    provider.send(mail(Some("a"), &address, Value::Null).into()).unwrap();
    provider.send(mail(Some("b"), &address, Value::Null).into()).unwrap();
    let busy = provider.status(&address).unwrap();
    assert_eq!(busy.unread_count, Some(2));
    let stamp = busy.last_activity_time.unwrap();
    assert!(chrono::DateTime::parse_from_rfc3339(&stamp).is_ok());

    let options = FetchOptions { manual_ack: true, ack_timeout: None };
    let held = provider.fetch(&address, options).unwrap().unwrap();
    assert_eq!(held.message.id, "a");
    assert!(held.leased);
    assert_eq!(provider.status(&address).unwrap().unread_count, Some(1));

    held.nack(&mut provider, false).unwrap();
    assert_eq!(provider.status(&address).unwrap().unread_count, Some(1));
}

#[test]
fn acknowledging_an_auto_fetched_message_changes_nothing() {
    let mut provider = MemoryProvider::new();
    let address = Address::parse("mem:test/auto").unwrap();
    provider.send(mail(Some("a"), &address, Value::Null).into()).unwrap();
    provider.send(mail(Some("b"), &address, Value::Null).into()).unwrap();

    let fetched = provider.fetch(&address, FetchOptions::default()).unwrap().unwrap();
    assert!(!fetched.leased);
    fetched.nack(&mut provider, true).unwrap();

    let next = provider.fetch(&address, FetchOptions::default()).unwrap().unwrap();
    assert_eq!(next.message.id, "b");
    assert!(provider.fetch(&address, FetchOptions::default()).unwrap().is_none());
}

#[test]
fn a_lease_is_taken_back_only_by_a_leased_fetch_after_its_timeout() {
    let mut provider = MemoryProvider::new();
    let address = Address::parse("mem:test/lease").unwrap();
    provider.send(mail(Some("a"), &address, Value::Null).into()).unwrap();

    let with_timeout = FetchOptions { manual_ack: true, ack_timeout: Some(10) };
    let held = provider.fetch_at(&address, with_timeout, "t0".to_string(), 1_000_000_000);
    assert_eq!(held.unwrap().message.id, "a");

    // exactly at the timeout the lease still holds
    assert!(provider.fetch_at(&address, with_timeout, "t1".to_string(), 1_010_000_000).is_none());
    // past the timeout, an auto fetch and the status do not look at leases
    assert!(provider
        .fetch_at(&address, FetchOptions::default(), "t2".to_string(), 5_000_000_000)
        .is_none());
    assert_eq!(provider.status(&address).unwrap().unread_count, Some(0));
    // nor does a leased fetch without a timeout
    let no_timeout = FetchOptions { manual_ack: true, ack_timeout: None };
    assert!(provider.fetch_at(&address, no_timeout, "t3".to_string(), 5_000_000_000).is_none());
    // a leased fetch with the timeout takes it back and hands it out again
    let again = provider.fetch_at(&address, with_timeout, "t4".to_string(), 1_010_000_001);
    assert_eq!(again.unwrap().message.id, "a");
    assert_eq!(provider.status(&address).unwrap().last_activity_time, Some("t4".to_string()));
}

#[test]
fn mail_without_id_becomes_a_message_with_the_empty_id() {
    let address = Address::parse("mem:test/inbox").unwrap();
    let message: MailMessage = mail(None, &address, Value::Null).into();
    assert_eq!(message.id, "");
    let message: MailMessage = mail(Some("x"), &address, hello_world()).into();
    assert_eq!(message.id, "x");
    assert_eq!(message.body, hello_world());
    assert_eq!(message.from.path, "test/sender");
}

#[test]
fn default_fetch_options_are_auto_ack_without_timeout() {
    let options = FetchOptions::default();
    assert!(!options.manual_ack);
    assert_eq!(options.ack_timeout, None);
}
