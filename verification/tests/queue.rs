use std::collections::HashMap;

use mailbox::address::Address;
use mailbox::message::{Identifiable, MailMessage};
use mailbox::providers::queue::MailMessageQueue;
use serde_json::Value;

fn message(id: &str) -> MailMessage {
    MailMessage {
        id: id.to_string(),
        from: Address::parse("mem:test/sender").unwrap(),
        to: Address::parse("mem:test/inbox").unwrap(),
        body: Value::String(format!("body of {}", id)),
        headers: HashMap::new(),
        meta: HashMap::new(),
    }
}

fn id_of(fetched: Option<MailMessage>) -> Option<String> {
    fetched.map(|m| m.id)
}

fn some(id: &str) -> Option<String> {
    Some(id.to_string())
}

const MS: u128 = 1_000_000;

#[test]
fn a_new_queue_is_empty() {
    let mut queue: MailMessageQueue<MailMessage> = MailMessageQueue::new();
    assert_eq!(queue.get_status("t"), 0);
    assert!(queue.dequeue("t").is_none());
    assert!(queue.dequeue_for_ack("t", None).is_none());
    assert!(queue.dequeue_for_ack_at("t", Some(0), 5).is_none());
    queue.ack("nothing");
    queue.nack("nothing", true);
    assert_eq!(queue.get_status("t"), 0);
}

#[test]
fn each_topic_is_first_in_first_out() {
    let mut queue = MailMessageQueue::new();
    queue.enqueue("t".to_string(), message("a"));
    queue.enqueue("u".to_string(), message("x"));
    queue.enqueue("t".to_string(), message("b"));
    queue.enqueue("t".to_string(), message("c"));
    assert_eq!(queue.get_status("t"), 3);
    assert_eq!(queue.get_status("u"), 1);
    assert_eq!(id_of(queue.dequeue("t")), some("a"));
    assert_eq!(id_of(queue.dequeue("t")), some("b"));
    assert_eq!(id_of(queue.dequeue("u")), some("x"));
    assert_eq!(id_of(queue.dequeue("t")), some("c"));
    assert_eq!(id_of(queue.dequeue("t")), None);
    assert_eq!(queue.get_status("t"), 0);
}

#[test]
fn the_message_keeps_its_content_on_the_way() {
    let mut queue = MailMessageQueue::new();
    queue.enqueue("t".to_string(), message("a"));
    let fetched = queue.dequeue_for_ack_at("t", None, 0).unwrap();
    assert_eq!(fetched.id(), "a");
    assert_eq!(fetched.body, Value::String("body of a".to_string()));
    queue.nack("a", true);
    let again = queue.dequeue("t").unwrap();
    assert_eq!(again.id, "a");
    assert_eq!(again.body, Value::String("body of a".to_string()));
    assert_eq!(again.to.path, "test/inbox");
}

#[test]
fn a_leased_message_is_hidden_until_it_is_settled() {
    let mut queue = MailMessageQueue::new();
    queue.enqueue("t".to_string(), message("a"));
    assert_eq!(id_of(queue.dequeue_for_ack_at("t", None, 10)), some("a"));
    assert_eq!(queue.get_status("t"), 0);
    assert_eq!(id_of(queue.dequeue_for_ack_at("t", None, 20)), None);
    assert_eq!(id_of(queue.dequeue("t")), None);
    queue.ack("a");
    assert_eq!(id_of(queue.dequeue_for_ack_at("t", None, 30)), None);
    // a second acknowledgment, or a rejection after it, finds nothing
    queue.ack("a");
    queue.nack("a", true);
    assert_eq!(queue.get_status("t"), 0);
}

#[test]
fn nack_with_requeue_puts_the_message_at_the_head() {
    let mut queue = MailMessageQueue::new();
    queue.enqueue("t".to_string(), message("a"));
    queue.enqueue("t".to_string(), message("b"));
    assert_eq!(id_of(queue.dequeue_for_ack_at("t", None, 0)), some("a"));
    queue.enqueue("t".to_string(), message("c"));
    queue.nack("a", true);
    assert_eq!(queue.get_status("t"), 3);
    assert_eq!(id_of(queue.dequeue("t")), some("a"));
    assert_eq!(id_of(queue.dequeue("t")), some("b"));
    assert_eq!(id_of(queue.dequeue("t")), some("c"));
}

#[test]
fn nack_without_requeue_drops_the_message() {
    let mut queue = MailMessageQueue::new();
    queue.enqueue("t".to_string(), message("a"));
    queue.enqueue("t".to_string(), message("b"));
    assert_eq!(id_of(queue.dequeue_for_ack_at("t", None, 0)), some("a"));
    queue.nack("a", false);
    assert_eq!(queue.get_status("t"), 1);
    assert_eq!(id_of(queue.dequeue("t")), some("b"));
    assert_eq!(id_of(queue.dequeue("t")), None);
    queue.nack("a", true);
    assert_eq!(queue.get_status("t"), 0);
}

#[test]
fn a_lease_expires_strictly_after_its_timeout() {
    let mut queue = MailMessageQueue::new();
    queue.enqueue("t".to_string(), message("a"));
    assert_eq!(id_of(queue.dequeue_for_ack_at("t", Some(5), 100 * MS)), some("a"));
    // 5 ms later to the nanosecond: not yet older than the timeout
    assert_eq!(id_of(queue.dequeue_for_ack_at("t", Some(5), 105 * MS)), None);
    // one nanosecond more
    assert_eq!(id_of(queue.dequeue_for_ack_at("t", Some(5), 105 * MS + 1)), some("a"));
    // the new lease began at the fetch that took the old one back
    assert_eq!(id_of(queue.dequeue_for_ack_at("t", Some(5), 110 * MS + 1)), None);
    assert_eq!(id_of(queue.dequeue_for_ack_at("t", Some(5), 110 * MS + 2)), some("a"));
}

#[test]
fn a_clock_reading_before_the_lease_counts_as_no_age() {
    let mut queue = MailMessageQueue::new();
    queue.enqueue("t".to_string(), message("a"));
    assert_eq!(id_of(queue.dequeue_for_ack_at("t", Some(0), 100)), some("a"));
    assert_eq!(id_of(queue.dequeue_for_ack_at("t", Some(0), 50)), None);
    assert_eq!(id_of(queue.dequeue_for_ack_at("t", Some(0), 100)), None);
    assert_eq!(id_of(queue.dequeue_for_ack_at("t", Some(0), 101)), some("a"));
}

#[test]
fn the_sweep_is_lazy_and_looks_at_its_own_topic_only() {
    let mut queue = MailMessageQueue::new();
    queue.enqueue("t".to_string(), message("a"));
    queue.enqueue("u".to_string(), message("x"));
    assert_eq!(id_of(queue.dequeue_for_ack_at("t", Some(1), 0)), some("a"));
    assert_eq!(id_of(queue.dequeue_for_ack_at("u", Some(1), 0)), some("x"));

    // long after the timeout nothing has come back by itself
    assert_eq!(queue.get_status("t"), 0);
    assert_eq!(id_of(queue.dequeue("t")), None);
    // a leased fetch without a timeout does not sweep
    assert_eq!(id_of(queue.dequeue_for_ack_at("t", None, 1000 * MS)), None);
    // a leased fetch on another topic sweeps that topic only
    assert_eq!(id_of(queue.dequeue_for_ack_at("u", Some(1), 1000 * MS)), some("x"));
    assert_eq!(queue.get_status("t"), 0);
    // the lease on t can still be acknowledged: it was never taken back
    queue.ack("a");
    assert_eq!(id_of(queue.dequeue_for_ack_at("t", Some(1), 2000 * MS)), None);
}

#[test]
fn expired_leases_return_in_front_of_the_queue_oldest_lease_first() {
    let mut queue = MailMessageQueue::new();
    for id in ["a", "b", "c", "d"] {
        queue.enqueue("t".to_string(), message(id));
    }
    assert_eq!(id_of(queue.dequeue_for_ack_at("t", None, 10 * MS)), some("a"));
    assert_eq!(id_of(queue.dequeue_for_ack_at("t", None, 20 * MS)), some("b"));
    assert_eq!(id_of(queue.dequeue_for_ack_at("t", None, 30 * MS)), some("c"));
    assert_eq!(queue.get_status("t"), 1);

    // at 36 ms with a timeout of 10 ms the leases of a and b have expired, that of c has not
    assert_eq!(id_of(queue.dequeue_for_ack_at("t", Some(10), 36 * MS)), some("a"));
    assert_eq!(queue.get_status("t"), 2);
    assert_eq!(id_of(queue.dequeue("t")), some("b"));
    assert_eq!(id_of(queue.dequeue("t")), some("d"));
    assert_eq!(id_of(queue.dequeue("t")), None);

    // c is still in flight and a is in flight again
    queue.nack("c", true);
    queue.nack("a", true);
    assert_eq!(id_of(queue.dequeue("t")), some("a"));
    assert_eq!(id_of(queue.dequeue("t")), some("c"));
}

#[test]
fn a_stale_holder_can_still_settle_a_lease_that_was_given_again() {
    let mut queue = MailMessageQueue::new();
    queue.enqueue("t".to_string(), message("a"));
    assert_eq!(id_of(queue.dequeue_for_ack_at("t", Some(1), 0)), some("a"));
    // the lease times out and the message goes to a second consumer
    assert_eq!(id_of(queue.dequeue_for_ack_at("t", Some(1), 10 * MS)), some("a"));
    // the first consumer acknowledges: the lease of the second is settled by it
    queue.ack("a");
    queue.nack("a", true);
    assert_eq!(queue.get_status("t"), 0);
}

#[test]
fn the_clock_of_the_queue_does_not_run_backwards() {
    let queue: MailMessageQueue<MailMessage> = MailMessageQueue::new();
    let first = queue.now();
    let second = queue.now();
    assert!(first <= second);
}

#[test]
fn a_leased_fetch_by_the_clock_of_the_queue() {
    let mut queue = MailMessageQueue::new();
    queue.enqueue("t".to_string(), message("a"));
    // an hour of timeout: the lease cannot have expired at the second fetch
    assert_eq!(id_of(queue.dequeue_for_ack("t", Some(3_600_000))), some("a"));
    assert_eq!(id_of(queue.dequeue_for_ack("t", Some(3_600_000))), None);
    queue.nack("a", true);
    assert_eq!(id_of(queue.dequeue_for_ack("t", None)), some("a"));
}
