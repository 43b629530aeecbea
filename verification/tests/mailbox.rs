use std::collections::HashMap;

use mailbox::address::Address;
use mailbox::error::MailboxError;
use mailbox::mailbox::{protocol_key, Mailbox};
use mailbox::message::{FetchOptions, OutgoingMail};
use mailbox::provider::MailboxProvider;
use mailbox::providers::memory::MemoryProvider;
use serde_json::Value;

fn mail(id: Option<&str>, to: &str) -> OutgoingMail {
    OutgoingMail {
        id: id.map(str::to_string),
        from: Address::parse("mem:test/sender").unwrap(),
        to: Address::parse(to).unwrap(),
        body: Value::String("content".to_string()),
        headers: HashMap::new(),
        meta: HashMap::new(),
    }
}

fn with_memory() -> Mailbox<MemoryProvider> {
    let mut mailbox = Mailbox::new();
    mailbox.register_provider(MemoryProvider::new());
    mailbox
}

fn not_found<T>(outcome: Result<T, MailboxError>) -> String {
    match outcome {
        Err(MailboxError::ProviderNotFound(scheme)) => scheme,
        Err(other) => panic!("{:?}", other),
        Ok(_) => panic!("a provider was found"),
    }
}

#[test]
fn protocol_key_drops_one_final_colon() {
    assert_eq!(protocol_key("mem:"), "mem");
    assert_eq!(protocol_key("mem"), "mem");
    assert_eq!(protocol_key("mem::"), "mem:");
    assert_eq!(protocol_key(":"), "");
    assert_eq!(protocol_key(""), "");
    assert_eq!(protocol_key("m\u{e9}m:"), "m\u{e9}m");
}

#[test]
fn an_empty_mailbox_finds_no_provider() {
    let mut mailbox: Mailbox<MemoryProvider> = Mailbox::default();
    let address = Address::parse("mem:test/inbox").unwrap();
    assert_eq!(not_found(mailbox.post(mail(Some("a"), "mem:test/inbox"))), "mem");
    assert_eq!(not_found(mailbox.subscribe(&address)), "mem");
    assert_eq!(not_found(mailbox.fetch(&address, FetchOptions::default())), "mem");
    assert_eq!(not_found(mailbox.status(&address)), "mem");
    assert_eq!(not_found(mailbox.take_deliveries("mem:")), "mem");
}

#[test]
fn calls_go_to_the_provider_of_the_scheme() {
    let mut mailbox = with_memory();
    let inbox = Address::parse("mem:test/inbox").unwrap();
    let elsewhere = Address::parse("https://example.com/inbox").unwrap();

    assert_eq!(not_found(mailbox.post(mail(Some("a"), "https://example.com/inbox"))), "https");
    assert_eq!(not_found(mailbox.status(&elsewhere)), "https");

    let sent = mailbox.post(mail(Some("a"), "mem:test/inbox")).unwrap();
    assert_eq!(sent.id, "a");
    assert_eq!(mailbox.status(&inbox).unwrap().unread_count, Some(1));
    let fetched = mailbox.fetch(&inbox, FetchOptions::default()).unwrap().unwrap();
    assert_eq!(fetched.message.id, "a");
    assert_eq!(mailbox.status(&inbox).unwrap().unread_count, Some(0));
}

#[test]
fn post_assigns_an_id_where_none_or_an_empty_one_is_given() {
    let mut mailbox = with_memory();
    let inbox = Address::parse("mem:test/inbox").unwrap();
    let first = mailbox.post(mail(None, "mem:test/inbox")).unwrap();
    let second = mailbox.post(mail(Some(""), "mem:test/inbox")).unwrap();
    assert_eq!(first.id.len(), 36);
    assert_eq!(second.id.len(), 36);
    assert_ne!(first.id, second.id);
    let fetched = mailbox.fetch(&inbox, FetchOptions::default()).unwrap().unwrap();
    assert_eq!(fetched.message.id, first.id);
}

#[test]
fn subscriptions_and_deliveries_go_through_the_mailbox() {
    let mut mailbox = with_memory();
    let inbox = Address::parse("mem:test/inbox").unwrap();
    let mut first = mailbox.subscribe(&inbox).unwrap();
    let second = mailbox.subscribe(&inbox).unwrap();

    mailbox.post(mail(Some("a"), "mem:test/inbox")).unwrap();
    let deliveries = mailbox.take_deliveries("mem").unwrap();
    assert_eq!(deliveries.len(), 2);
    assert_eq!(deliveries[0].listener, first.listener);
    assert_eq!(deliveries[1].listener, second.listener);
    assert!(mailbox.take_deliveries("mem").unwrap().is_empty());

    assert!(mailbox.unsubscribe(&inbox, &mut first).is_ok());
    assert!(mailbox.unsubscribe(&inbox, &mut first).is_ok());
    mailbox.post(mail(Some("b"), "mem:test/inbox")).unwrap();
    let deliveries = mailbox.take_deliveries("mem").unwrap();
    assert_eq!(deliveries.len(), 1);
    assert_eq!(deliveries[0].listener, second.listener);
    assert_eq!(deliveries[0].message.id, "b");
}

#[test]
fn leases_are_settled_through_the_mailbox() {
    let mut mailbox = with_memory();
    let inbox = Address::parse("mem:test/inbox").unwrap();
    let manual = FetchOptions { manual_ack: true, ack_timeout: None };
    mailbox.post(mail(Some("a"), "mem:test/inbox")).unwrap();

    let held = mailbox.fetch(&inbox, manual).unwrap().unwrap();
    assert!(mailbox.fetch(&inbox, manual).unwrap().is_none());
    mailbox.nack(held, true).unwrap();
    let held = mailbox.fetch(&inbox, manual).unwrap().unwrap();
    assert_eq!(held.message.id, "a");
    mailbox.ack(held).unwrap();
    assert!(mailbox.fetch(&inbox, manual).unwrap().is_none());
    assert_eq!(mailbox.status(&inbox).unwrap().unread_count, Some(0));
}

#[test]
fn a_provider_registered_again_takes_the_place_of_the_first() {
    let mut mailbox = with_memory();
    let inbox = Address::parse("mem:test/inbox").unwrap();
    mailbox.post(mail(Some("a"), "mem:test/inbox")).unwrap();
    assert_eq!(mailbox.status(&inbox).unwrap().unread_count, Some(1));

    let mut fresh = MemoryProvider::new();
    fresh.send(mail(Some("x"), "mem:test/inbox").into()).unwrap();
    fresh.send(mail(Some("y"), "mem:test/inbox").into()).unwrap();
    mailbox.register_provider(fresh);
    assert_eq!(mailbox.status(&inbox).unwrap().unread_count, Some(2));
    let fetched = mailbox.fetch(&inbox, FetchOptions::default()).unwrap().unwrap();
    assert_eq!(fetched.message.id, "x");
}
