//! What holds of every bus, proved over its state.

use vstd::prelude::*;
use crate::message::FetchOptions;
use crate::message::MailMessageView;
use crate::providers::mail_queue::leased_fetch_op;
use crate::providers::mail_queue::lemma_leased_fetch_steps;
use crate::providers::mail_queue::mail_id;
use crate::providers::memory::other_than;
use crate::providers::memory::BusState;
use crate::providers::queue_proofs::Op;

verus! {

/// One operation on a bus.
pub enum BusOp {
    Subscribe { topic: Seq<char>, stamp: Seq<char> },
    Unsubscribe { topic: Seq<char>, listener: u64 },
    Publish { topic: Seq<char>, message: MailMessageView, stamp: Seq<char> },
    Fetch { topic: Seq<char>, options: FetchOptions, stamp: Seq<char>, now: nat },
    Settle { id: Seq<char>, requeue: Option<bool> },
    Drain,
}

impl BusState {
    /// The state after `op`.
    pub open spec fn apply(self, op: BusOp) -> BusState {
        match op {
            BusOp::Subscribe { topic, stamp } => self.subscribe(topic, stamp),
            BusOp::Unsubscribe { topic, listener } => self.unsubscribe(topic, listener),
            BusOp::Publish { topic, message, stamp } => self.publish(topic, message, stamp),
            BusOp::Fetch { topic, options, stamp, now } => self.fetch(topic, options, stamp, now),
            BusOp::Settle { id, requeue } => self.settle(id, requeue),
            BusOp::Drain => self.drained(),
        }
    }

    /// What `op` does to the delivery queue: one operation of the queue, or nothing.
    pub open spec fn queue_op(self, op: BusOp) -> Option<Op<MailMessageView>> {
        match op {
            BusOp::Publish { topic, message, stamp } => Some(Op::Enqueue { topic, message }),
            BusOp::Fetch { topic, options, stamp, now } => Some(
                if options.manual_ack {
                    leased_fetch_op(self.queue, topic, options.ack_timeout, now)
                } else {
                    Op::Dequeue { topic }
                },
            ),
            BusOp::Settle { id, requeue: None } => Some(Op::Ack { id }),
            BusOp::Settle { id, requeue: Some(requeue) } => Some(Op::Nack { id, requeue }),
            _ => None,
        }
    }

    /// The number of deliveries to `listener` among `deliveries`.
    pub open spec fn deliveries_to(deliveries: Seq<(u64, MailMessageView)>, listener: u64) -> nat {
        deliveries.filter(|d: (u64, MailMessageView)| d.0 == listener).len()
    }
}

/// Every operation of the bus acts on the delivery queue as one operation of
/// the queue, or leaves it alone; a fetch hands out what that operation
/// hands out. So what holds of every step of a queue holds of the queue of
/// every bus. Of the operations, only a publication brings in a message: it
/// alone can break the rule that an id stands in one place.
pub proof fn law_bus_steps_its_queue(pre: BusState, op: BusOp)
    ensures
        match pre.queue_op(op) {
            Some(queue_op) => pre.queue.step(mail_id(), queue_op, pre.apply(op).queue) && (op
                !is Publish ==> pre.queue.respects_ids(mail_id(), queue_op)),
            None => pre.apply(op).queue == pre.queue,
        },
        op matches BusOp::Fetch { topic, options, stamp, now } ==> forall|id: Seq<char>|
            (pre.fetched(topic, options, now) matches Some(message) && message.id == id)
                == #[trigger] pre.queue_op(op)->0.hands_out(mail_id(), pre.queue, id),
{
    if let BusOp::Fetch { topic, options, stamp, now } = op {
        if options.manual_ack {
            lemma_leased_fetch_steps(pre.queue, topic, options.ack_timeout, now);
        }
    }
}

/// The deliveries to one listener in a list in which it stands once.
proof fn lemma_one_delivery(listeners: Seq<u64>, message: MailMessageView, listener: u64)
    requires
        forall|i: int, j: int| 0 <= i < j < listeners.len() ==> listeners[i] != listeners[j],
    ensures
        BusState::deliveries_to(
            Seq::new(listeners.len(), |i: int| (listeners[i], message)),
            listener,
        ) == if listeners.contains(listener) {
            1nat
        } else {
            0nat
        },
    decreases listeners.len(),
{
    let all = Seq::new(listeners.len(), |i: int| (listeners[i], message));
    let pred = |d: (u64, MailMessageView)| d.0 == listener;
    reveal(Seq::filter);
    if listeners.len() > 0 {
        let front = listeners.drop_last();
        lemma_one_delivery(front, message, listener);
        assert(all.drop_last() =~= Seq::new(front.len(), |i: int| (front[i], message)));
        if listeners.last() == listener {
            assert(!front.contains(listener)) by {
                if front.contains(listener) {
                    let k = choose|k: int| 0 <= k < front.len() && front[k] == listener;
                    assert(listeners[k] != listeners[listeners.len() - 1]);
                }
            }
            assert(listeners[listeners.len() - 1] == listener);
        } else {
            if listeners.contains(listener) {
                let k = choose|k: int| 0 <= k < listeners.len() && listeners[k] == listener;
                assert(front[k] == listener);
            }
            if front.contains(listener) {
                let k = choose|k: int| 0 <= k < front.len() && front[k] == listener;
                assert(listeners[k] == listener);
            }
        }
    }
}

/// A publication starts exactly one delivery of the message to each
/// subscriber of the topic, in the order of subscription, and none to
/// anyone else; and the message joins the tail of the queue of the topic,
/// however many subscribers there are.
pub proof fn law_publish_reaches_each_subscriber_once(
    pre: BusState,
    topic: Seq<char>,
    message: MailMessageView,
    stamp: Seq<char>,
    listener: u64,
)
    requires
        pre.wf(),
    ensures
        pre.publish(topic, message, stamp).outbox == pre.outbox + pre.fan_out(topic, message),
        pre.fan_out(topic, message).len() == pre.listeners(topic).len(),
        forall|i: int|
            0 <= i < pre.listeners(topic).len() ==> #[trigger] pre.fan_out(topic, message)[i] == (
                pre.listeners(topic)[i],
                message,
            ),
        BusState::deliveries_to(pre.fan_out(topic, message), listener) == if pre.listeners(
            topic,
        ).contains(listener) {
            1nat
        } else {
            0nat
        },
        pre.publish(topic, message, stamp).queue.queued(topic) == pre.queue.queued(topic).push(
            message,
        ),
        pre.publish(topic, message, stamp).subscribers == pre.subscribers,
{
    assert forall|i: int, j: int| 0 <= i < j < pre.listeners(topic).len() implies pre.listeners(
        topic,
    )[i] != pre.listeners(topic)[j] by {}
    lemma_one_delivery(pre.listeners(topic), message, listener);
}

/// What is left of a list after one listener has left it.
proof fn lemma_leaving(listeners: Seq<u64>, listener: u64)
    ensures
        !listeners.filter(other_than(listener)).contains(listener),
        forall|other: u64|
            other != listener ==> #[trigger] listeners.filter(other_than(listener)).contains(other)
                == listeners.contains(other),
        !listeners.contains(listener) ==> listeners.filter(other_than(listener)) == listeners,
    decreases listeners.len(),
{
    reveal(Seq::filter);
    let pred = other_than(listener);
    if listeners.len() > 0 {
        let front = listeners.drop_last();
        let last = listeners.last();
        lemma_leaving(front, listener);
        let kept = front.filter(pred);
        assert(listeners[listeners.len() - 1] == last);
        assert forall|other: u64| other != listener implies #[trigger] listeners.filter(
            pred,
        ).contains(other) == listeners.contains(other) by {
            if listeners.contains(other) {
                let k = choose|k: int| 0 <= k < listeners.len() && listeners[k] == other;
                if k < front.len() {
                    assert(front[k] == other);
                    assert(front.contains(other));
                    assert(kept.contains(other));
                    let j = choose|j: int| 0 <= j < kept.len() && kept[j] == other;
                    assert(listeners.filter(pred)[j] == other);
                } else {
                    assert(listeners.filter(pred).last() == other);
                }
            }
            if listeners.filter(pred).contains(other) {
                let j = choose|j: int|
                    0 <= j < listeners.filter(pred).len() && listeners.filter(pred)[j] == other;
                if j < kept.len() {
                    assert(kept[j] == other);
                    assert(kept.contains(other));
                    assert(front.contains(other));
                    let k = choose|k: int| 0 <= k < front.len() && front[k] == other;
                    assert(listeners[k] == other);
                }
            }
        }
        if listeners.filter(pred).contains(listener) {
            let j = choose|j: int|
                0 <= j < listeners.filter(pred).len() && listeners.filter(pred)[j] == listener;
            if j < kept.len() {
                assert(kept[j] == listener);
                assert(kept.contains(listener));
            }
        }
        if !listeners.contains(listener) {
            assert(!front.contains(listener)) by {
                if front.contains(listener) {
                    let k = choose|k: int| 0 <= k < front.len() && front[k] == listener;
                    assert(listeners[k] == listener);
                }
            }
            assert(listeners.filter(pred) =~= listeners);
        }
    }
}

/// Unsubscribing takes out this listener and no other, on this topic and no
/// other; a publication then starts no delivery to it; and unsubscribing
/// once more changes nothing.
pub proof fn law_unsubscribe_removes_one_listener(
    pre: BusState,
    topic: Seq<char>,
    listener: u64,
    other_topic: Seq<char>,
    other: u64,
)
    ensures
        !pre.unsubscribe(topic, listener).listeners(topic).contains(listener),
        other != listener ==> pre.unsubscribe(topic, listener).listeners(topic).contains(other)
            == pre.listeners(topic).contains(other),
        other_topic != topic ==> pre.unsubscribe(topic, listener).listeners(other_topic)
            == pre.listeners(other_topic),
        pre.unsubscribe(topic, listener).unsubscribe(topic, listener) == pre.unsubscribe(
            topic,
            listener,
        ),
        pre.unsubscribe(topic, listener).queue == pre.queue,
        pre.unsubscribe(topic, listener).last_activity == pre.last_activity,
{
    lemma_leaving(pre.listeners(topic), listener);
    let once = pre.unsubscribe(topic, listener);
    lemma_leaving(once.listeners(topic), listener);
    assert(once.unsubscribe(topic, listener).subscribers =~= once.subscribers);
}

} // verus!
