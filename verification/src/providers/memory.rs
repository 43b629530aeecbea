//! The in-process transport: a bus of topics that pushes each published
//! message to the subscribers of its topic and queues it for those who fetch.

use vstd::prelude::*;
use vstd::string::StringExecFns;
use std::collections::HashMap;
use crate::address::Address;
use crate::address::AddressView;
use crate::error::MailboxError;
use crate::message::FetchOptions;
use crate::message::MailMessage;
use crate::message::MailMessageView;
use crate::message::MailboxStatus;
use crate::provider::AckableMessage;
use crate::provider::Delivery;
use crate::provider::MailboxProvider;
use crate::provider::Subscription;
use crate::providers::mail_queue::after_leased_fetch;
use crate::providers::mail_queue::leased_head;
use crate::providers::mail_queue::queue_view;
use crate::providers::queue::MailMessageQueue;
use crate::providers::queue::QueueState;
use crate::table::Entry;
use crate::table::Table;
use crate::utils::canonical_topic;
use crate::utils::get_canonical_mailbox_address_identifier;

verus! {

/// What a bus holds.
pub struct BusState {
    /// The subscribers of each topic, in the order in which they subscribed.
    pub subscribers: Map<Seq<char>, Seq<u64>>,
    pub queue: QueueState<MailMessageView>,
    /// The time of the last activity on each topic, as text.
    pub last_activity: Map<Seq<char>, Seq<char>>,
    /// The deliveries that were started and not yet taken over.
    pub outbox: Seq<(u64, MailMessageView)>,
    /// The handle that the next subscriber gets.
    pub next_listener: nat,
}

/// The listeners other than `listener`.
pub open spec fn other_than(listener: u64) -> spec_fn(u64) -> bool {
    |l: u64| l != listener
}

impl BusState {
    pub open spec fn empty() -> Self {
        BusState {
            subscribers: Map::empty(),
            queue: QueueState::empty(),
            last_activity: Map::empty(),
            outbox: Seq::empty(),
            next_listener: 0,
        }
    }

    /// Each subscriber stands once in the list of its topic, under a handle
    /// that was given out, and the leases have distinct ids.
    pub open spec fn wf(self) -> bool {
        &&& self.queue.wf()
        &&& forall|t: Seq<char>, i: int|
            0 <= i < self.listeners(t).len() ==> (#[trigger] self.listeners(t)[i])
                < self.next_listener
        &&& forall|t: Seq<char>, i: int, j: int|
            0 <= i < j < self.listeners(t).len() ==> self.listeners(t)[i] != self.listeners(t)[j]
    }

    pub open spec fn listeners(self, topic: Seq<char>) -> Seq<u64> {
        if self.subscribers.contains_key(topic) {
            self.subscribers[topic]
        } else {
            Seq::empty()
        }
    }

    /// The number of queued messages of `topic`: those in flight do not count.
    pub open spec fn unread(self, topic: Seq<char>) -> nat {
        self.queue.queued(topic).len()
    }

    pub open spec fn last_active(self, topic: Seq<char>) -> Option<Seq<char>> {
        if self.last_activity.contains_key(topic) {
            Some(self.last_activity[topic])
        } else {
            None
        }
    }

    /// Activity on `topic` at the time `stamp`.
    pub open spec fn touch(self, topic: Seq<char>, stamp: Seq<char>) -> Self {
        BusState { last_activity: self.last_activity.insert(topic, stamp), ..self }
    }

    /// A new subscriber joins the end of the list of `topic`.
    pub open spec fn subscribe(self, topic: Seq<char>, stamp: Seq<char>) -> Self {
        BusState {
            subscribers: self.subscribers.insert(
                topic,
                self.listeners(topic).push(self.next_listener as u64),
            ),
            next_listener: self.next_listener + 1,
            ..self.touch(topic, stamp)
        }
    }

    /// `listener` leaves the list of `topic`; nothing changes where it is not in it.
    pub open spec fn unsubscribe(self, topic: Seq<char>, listener: u64) -> Self {
        if self.subscribers.contains_key(topic) {
            BusState {
                subscribers: self.subscribers.insert(
                    topic,
                    self.listeners(topic).filter(other_than(listener)),
                ),
                ..self
            }
        } else {
            self
        }
    }

    /// The deliveries of `message` to the subscribers of `topic`, one each.
    pub open spec fn fan_out(self, topic: Seq<char>, message: MailMessageView) -> Seq<
        (u64, MailMessageView),
    > {
        Seq::new(self.listeners(topic).len(), |i: int| (self.listeners(topic)[i], message))
    }

    /// `message` is published on `topic`: a delivery to each subscriber of
    /// the topic is started, and the message joins the queue of the topic,
    /// whether anyone subscribed or not.
    pub open spec fn publish(self, topic: Seq<char>, message: MailMessageView, stamp: Seq<char>) -> Self {
        BusState {
            outbox: self.outbox + self.fan_out(topic, message),
            queue: self.queue.enqueue(topic, message),
            ..self.touch(topic, stamp)
        }
    }

    /// What a fetch on `topic` hands out.
    pub open spec fn fetched(self, topic: Seq<char>, options: FetchOptions, now: nat) -> Option<
        MailMessageView,
    > {
        if options.manual_ack {
            leased_head(self.queue, topic, options.ack_timeout, now)
        } else {
            self.queue.head(topic)
        }
    }

    /// The state after a fetch on `topic`.
    pub open spec fn fetch(
        self,
        topic: Seq<char>,
        options: FetchOptions,
        stamp: Seq<char>,
        now: nat,
    ) -> Self {
        BusState {
            queue: if options.manual_ack {
                after_leased_fetch(self.queue, topic, options.ack_timeout, now)
            } else {
                self.queue.dequeue(topic)
            },
            ..self.touch(topic, stamp)
        }
    }

    /// The lease of `id` is acknowledged (`requeue` is `None`) or rejected.
    pub open spec fn settle(self, id: Seq<char>, requeue: Option<bool>) -> Self {
        BusState {
            queue: match requeue {
                None => self.queue.ack(id),
                Some(requeue) => self.queue.nack(id, requeue),
            },
            ..self
        }
    }

    /// The started deliveries have been taken over.
    pub open spec fn drained(self) -> Self {
        BusState { outbox: Seq::empty(), ..self }
    }
}

/// A state with the subscribers and handles of a state in good order, and
/// leases of distinct ids, is in good order.
proof fn lemma_same_subscribers(a: BusState, b: BusState)
    requires
        a.wf(),
        b.subscribers == a.subscribers,
        b.next_listener == a.next_listener,
        b.queue.wf(),
    ensures
        b.wf(),
{
    assert forall|t: Seq<char>| #[trigger] b.listeners(t) == a.listeners(t) by {}
    assert forall|t: Seq<char>, i: int| 0 <= i < b.listeners(t).len() implies (
    #[trigger] b.listeners(t)[i]) < b.next_listener by {
        assert(a.listeners(t)[i] < a.next_listener);
    }
    assert forall|t: Seq<char>, i: int, j: int|
        0 <= i < j < b.listeners(t).len() implies b.listeners(t)[i] != b.listeners(t)[j] by {
        assert(a.listeners(t)[i] != a.listeners(t)[j]);
    }
}

pub open spec fn delivery_views(deliveries: Seq<Delivery>) -> Seq<(u64, MailMessageView)> {
    deliveries.map_values(|d: Delivery| (d.listener, d.message@))
}

/// The bus: subscribers and last activity by topic, the delivery queue, and
/// the deliveries that were started for the subscribers.
pub struct MemoryEventBus {
    topics: Table<Vec<u64>>,
    queue: MailMessageQueue<MailMessage>,
    last_activity: Table<String>,
    outbox: Vec<Delivery>,
    next_listener: u64,
}

/// Filtering a sequence that grew by one element at its end.
proof fn lemma_filter_grow<A>(s: Seq<A>, n: int, pred: spec_fn(A) -> bool)
    requires
        0 <= n < s.len(),
    ensures
        s.take(n + 1).filter(pred) == if pred(s[n]) {
            s.take(n).filter(pred).push(s[n])
        } else {
            s.take(n).filter(pred)
        },
{
    reveal(Seq::filter);
    assert(s.take(n + 1).drop_last() =~= s.take(n));
}

/// What is left of a list of distinct handles after one has left.
proof fn lemma_filter_handles(s: Seq<u64>, listener: u64, bound: nat)
    requires
        forall|i: int| 0 <= i < s.len() ==> (#[trigger] s[i]) < bound,
        forall|i: int, j: int| 0 <= i < j < s.len() ==> s[i] != s[j],
    ensures
        forall|i: int|
            0 <= i < s.filter(other_than(listener)).len() ==> (#[trigger] s.filter(
                other_than(listener),
            )[i]) < bound,
        forall|i: int, j: int|
            0 <= i < j < s.filter(other_than(listener)).len() ==> s.filter(other_than(listener))[i]
                != s.filter(other_than(listener))[j],
        !s.filter(other_than(listener)).contains(listener),
    decreases s.len(),
{
    reveal(Seq::filter);
    let pred = other_than(listener);
    if s.len() > 0 {
        let front = s.drop_last();
        lemma_filter_handles(front, listener, bound);
        let kept = front.filter(pred);
        assert forall|i: int| 0 <= i < kept.len() implies kept[i] != s.last() by {
            front.lemma_filter_contains_rev(pred, kept[i]);
            let k = choose|k: int| 0 <= k < front.len() && front[k] == kept[i];
            assert(s[k] == kept[i]);
        }
    }
}

impl View for MemoryEventBus {
    type V = BusState;

    closed spec fn view(&self) -> BusState {
        BusState {
            subscribers: self.topics.map().map_values(|list: Vec<u64>| list@),
            queue: queue_view(self.queue@),
            last_activity: self.last_activity.map().map_values(|stamp: String| stamp@),
            outbox: delivery_views(self.outbox@),
            next_listener: self.next_listener as nat,
        }
    }
}

impl MemoryEventBus {
    pub closed spec fn wf(&self) -> bool {
        &&& self.topics.wf()
        &&& self.last_activity.wf()
        &&& self.queue.wf()
        &&& self@.wf()
    }

    pub proof fn lemma_view_wf(&self)
        requires
            self.wf(),
        ensures
            self@.wf(),
            self@.next_listener <= u64::MAX,
    {
    }

    pub fn new() -> (bus: Self)
        ensures
            bus.wf(),
            bus@ == BusState::empty(),
    {
        let bus = MemoryEventBus {
            topics: Table::new(),
            queue: MailMessageQueue::new(),
            last_activity: Table::new(),
            outbox: Vec::new(),
            next_listener: 0,
        };
        proof {
            assert(bus@.subscribers =~= Map::empty());
            assert(bus@.last_activity =~= Map::empty());
            assert(bus@.outbox =~= Seq::empty());
            assert(queue_view(bus.queue@).pending =~= Map::empty());
            assert(queue_view(bus.queue@).leases =~= Seq::empty());
        }
        bus
    }

    /// The reading of the clock by which leases are timed.
    pub fn clock(&self) -> u128 {
        self.queue.now()
    }

    fn touch(&mut self, topic: String, stamp: String)
        requires
            old(self).wf(),
        ensures
            final(self).wf(),
            final(self)@ == old(self)@.touch(topic@, stamp@),
            final(self).topics == old(self).topics,
            final(self).queue == old(self).queue,
            final(self).outbox == old(self).outbox,
            final(self).next_listener == old(self).next_listener,
    {
        let _ = self.last_activity.set(topic, stamp);
        proof {
            assert(self@.last_activity =~= old(self)@.last_activity.insert(topic@, stamp@));
            lemma_same_subscribers(old(self)@, self@);
        }
    }

    /// Adds a subscriber to `topic` and hands out its handle; `None`, and
    /// nothing changed, where all handles have been given out.
    pub fn subscribe(&mut self, topic: String, stamp: String) -> (handle: Option<u64>)
        requires
            old(self).wf(),
        ensures
            final(self).wf(),
            match handle {
                Some(listener) => listener == old(self)@.next_listener && final(self)@ == old(
                    self,
                )@.subscribe(topic@, stamp@),
                None => old(self)@.next_listener == u64::MAX && final(self)@ == old(self)@,
            },
    {
        if self.next_listener == u64::MAX {
            return None;
        }
        let listener = self.next_listener;
        let ghost start = self@;
        match self.topics.find(topic.as_str()) {
            Some(i) => {
                self.topics.entries[i].value.push(listener);
                proof {
                    old(self).topics.lemma_slot(i as int);
                    Table::lemma_map_update(old(self).topics, self.topics, i as int);
                }
            },
            None => {
                let mut list = Vec::new();
                list.push(listener);
                self.topics.entries.push(Entry { key: topic.clone(), value: list });
                proof {
                    Table::lemma_map_push(old(self).topics, self.topics);
                    assert(list@ =~= Seq::<u64>::empty().push(listener));
                }
            },
        }
        self.next_listener = listener + 1;
        proof {
            let grown = start.listeners(topic@).push(listener);
            assert(self@.subscribers =~= start.subscribers.insert(topic@, grown));
            assert forall|t: Seq<char>, i: int| 0 <= i < self@.listeners(t).len() implies (
            #[trigger] self@.listeners(t)[i]) < self@.next_listener by {
                if t == topic@ {
                    if i < start.listeners(t).len() {
                        assert(start.listeners(t)[i] < start.next_listener);
                    }
                } else {
                    assert(start.listeners(t)[i] < start.next_listener);
                }
            }
            assert forall|t: Seq<char>, i: int, j: int|
                0 <= i < j < self@.listeners(t).len() implies self@.listeners(t)[i]
                != self@.listeners(t)[j] by {
                if t == topic@ {
                    assert(start.listeners(t)[i] < start.next_listener);
                    if j < start.listeners(t).len() {
                        assert(start.listeners(t)[i] != start.listeners(t)[j]);
                    }
                } else {
                    assert(start.listeners(t)[i] != start.listeners(t)[j]);
                }
            }
        }
        self.touch(topic, stamp);
        proof {
            assert(self@ == start.subscribe(topic@, stamp@));
        }
        Some(listener)
    }

    /// Takes `listener` out of the list of `topic`. Nothing happens where it
    /// is not in it.
    pub fn unsubscribe(&mut self, topic: &str, listener: u64)
        requires
            old(self).wf(),
        ensures
            final(self).wf(),
            final(self)@ == old(self)@.unsubscribe(topic@, listener),
    {
        let ghost start = self@;
        if let Some(i) = self.topics.find(topic) {
            proof {
                self.topics.lemma_slot(i as int);
            }
            let ghost all = self.topics.entries@[i as int].value@;
            let ghost pred = other_than(listener);
            let mut kept: Vec<u64> = Vec::new();
            let mut j: usize = 0;
            proof {
                reveal(Seq::filter);
                assert(all.take(0) =~= Seq::<u64>::empty());
            }
            while j < self.topics.entries[i].value.len()
                invariant
                    i < self.topics.entries@.len(),
                    all == self.topics.entries@[i as int].value@,
                    pred == other_than(listener),
                    j <= all.len(),
                    kept@ == all.take(j as int).filter(pred),
                decreases all.len() - j,
            {
                let l = self.topics.entries[i].value[j];
                proof {
                    lemma_filter_grow(all, j as int, pred);
                }
                if l != listener {
                    kept.push(l);
                }
                j = j + 1;
            }
            self.topics.entries[i].value = kept;
            proof {
                assert(all.take(all.len() as int) =~= all);
                Table::lemma_map_update(old(self).topics, self.topics, i as int);
                assert(start.listeners(topic@) == all);
                assert(self@.subscribers =~= start.subscribers.insert(topic@, all.filter(pred)));
                assert forall|t: Seq<char>| t != topic@ implies #[trigger] self@.listeners(t)
                    == start.listeners(t) by {}
                assert forall|k: int| 0 <= k < all.len() implies (#[trigger] all[k])
                    < start.next_listener by {
                    assert(start.listeners(topic@)[k] < start.next_listener);
                }
                assert forall|a: int, b: int| 0 <= a < b < all.len() implies all[a] != all[b] by {
                    assert(start.listeners(topic@)[a] != start.listeners(topic@)[b]);
                }
                lemma_filter_handles(all, listener, start.next_listener);
                assert forall|t: Seq<char>, k: int| 0 <= k < self@.listeners(t).len() implies (
                #[trigger] self@.listeners(t)[k]) < self@.next_listener by {
                    if t != topic@ {
                        assert(start.listeners(t)[k] < start.next_listener);
                    }
                }
                assert forall|t: Seq<char>, a: int, b: int|
                    0 <= a < b < self@.listeners(t).len() implies self@.listeners(t)[a]
                    != self@.listeners(t)[b] by {
                    if t != topic@ {
                        assert(start.listeners(t)[a] != start.listeners(t)[b]);
                    }
                }
            }
        }
    }

    /// Publishes `message` on `topic`.
    pub fn publish(&mut self, topic: String, message: &MailMessage, stamp: String)
        requires
            old(self).wf(),
        ensures
            final(self).wf(),
            final(self)@ == old(self)@.publish(topic@, message@, stamp@),
    {
        let ghost start = self@;
        if let Some(i) = self.topics.find(topic.as_str()) {
            proof {
                self.topics.lemma_slot(i as int);
            }
            let mut j: usize = 0;
            while j < self.topics.entries[i].value.len()
                invariant
                    i < self.topics.entries@.len(),
                    self.topics == old(self).topics,
                    self.queue == old(self).queue,
                    self.last_activity == old(self).last_activity,
                    self.next_listener == old(self).next_listener,
                    self.topics.entries@[i as int].value@ == start.listeners(topic@),
                    j <= start.listeners(topic@).len(),
                    delivery_views(self.outbox@) == start.outbox + start.fan_out(
                        topic@,
                        message@,
                    ).take(j as int),
                decreases start.listeners(topic@).len() - j,
            {
                let listener = self.topics.entries[i].value[j];
                let ghost before = delivery_views(self.outbox@);
                self.outbox.push(Delivery { listener, message: message.clone() });
                proof {
                    let all = start.fan_out(topic@, message@);
                    assert(delivery_views(self.outbox@) =~= before.push((listener, message@)));
                    assert(all.take(j + 1) =~= all.take(j as int).push(all[j as int]));
                    assert(before.push((listener, message@)) =~= start.outbox + all.take(j + 1));
                }
                j = j + 1;
            }
            proof {
                let all = start.fan_out(topic@, message@);
                assert(all.take(all.len() as int) =~= all);
            }
        } else {
            proof {
                assert(start.fan_out(topic@, message@) =~= Seq::empty());
                assert(start.outbox + start.fan_out(topic@, message@) =~= start.outbox);
            }
        }
        let copy = message.clone();
        proof {
            crate::providers::mail_queue::lemma_view_enqueue(self.queue@, topic@, copy);
        }
        self.queue.enqueue(topic.clone(), copy);
        proof {
            self.queue.lemma_view_wf();
            crate::providers::mail_queue::lemma_view_lease(self.queue@, topic@);
            lemma_same_subscribers(start, self@);
        }
        self.touch(topic, stamp);
    }

    /// Fetches from `topic`. Without `manual_ack` the head of the queue is
    /// handed out and gone; with it, the head is handed out under a lease that
    /// starts at the reading `now`, after the expired leases of the topic have
    /// returned to its queue.
    pub fn fetch(&mut self, topic: &str, options: FetchOptions, stamp: String, now: u128) -> (fetched:
        Option<MailMessage>)
        requires
            old(self).wf(),
        ensures
            final(self).wf(),
            final(self)@ == old(self)@.fetch(topic@, options, stamp@, now as nat),
            match fetched {
                Some(message) => old(self)@.fetched(topic@, options, now as nat) == Some(message@),
                None => old(self)@.fetched(topic@, options, now as nat) is None,
            },
    {
        let ghost start = self@;
        let ghost queue = self.queue@;
        self.touch(topic.to_owned(), stamp);
        let fetched = if options.manual_ack {
            let fetched = self.queue.dequeue_for_ack_at(topic, options.ack_timeout, now);
            proof {
                old(self).queue.lemma_view_wf();
                crate::providers::mail_queue::lemma_view_leased_fetch(
                    queue,
                    topic@,
                    options.ack_timeout,
                    now as nat,
                    self.queue@,
                    fetched,
                );
            }
            fetched
        } else {
            let fetched = self.queue.dequeue(topic);
            proof {
                crate::providers::mail_queue::lemma_view_dequeue(queue, topic@);
                crate::providers::mail_queue::lemma_view_queued(queue, topic@);
            }
            fetched
        };
        proof {
            self.queue.lemma_view_wf();
            crate::providers::mail_queue::lemma_view_lease(self.queue@, topic@);
            lemma_same_subscribers(start, self@);
        }
        fetched
    }

    /// Acknowledges the lease of `message_id`; nothing happens where none is held.
    pub fn ack(&mut self, message_id: &str)
        requires
            old(self).wf(),
        ensures
            final(self).wf(),
            final(self)@ == old(self)@.settle(message_id@, None),
    {
        proof {
            self.queue.lemma_view_wf();
            crate::providers::mail_queue::lemma_view_release(self.queue@, message_id@);
        }
        self.queue.ack(message_id);
        proof {
            self.queue.lemma_view_wf();
            crate::providers::mail_queue::lemma_view_lease(self.queue@, message_id@);
            lemma_same_subscribers(old(self)@, self@);
        }
    }

    /// Rejects the lease of `message_id`: with `requeue` its message returns
    /// to the head of the queue of its topic, without it the message is dropped.
    pub fn nack(&mut self, message_id: &str, requeue: bool)
        requires
            old(self).wf(),
        ensures
            final(self).wf(),
            final(self)@ == old(self)@.settle(message_id@, Some(requeue)),
    {
        proof {
            self.queue.lemma_view_wf();
            crate::providers::mail_queue::lemma_view_release(self.queue@, message_id@);
        }
        self.queue.nack(message_id, requeue);
        proof {
            self.queue.lemma_view_wf();
            crate::providers::mail_queue::lemma_view_lease(self.queue@, message_id@);
            lemma_same_subscribers(old(self)@, self@);
        }
    }

    /// The number of queued messages of `topic`.
    pub fn unread(&self, topic: &str) -> (count: usize)
        requires
            self.wf(),
        ensures
            count == self@.unread(topic@),
    {
        proof {
            crate::providers::mail_queue::lemma_view_queued(self.queue@, topic@);
        }
        self.queue.get_status(topic)
    }

    /// The time of the last activity on `topic`, if there was any.
    pub fn last_activity(&self, topic: &str) -> (stamp: Option<String>)
        requires
            self.wf(),
        ensures
            match stamp {
                Some(stamp) => self@.last_active(topic@) == Some(stamp@),
                None => self@.last_active(topic@) is None,
            },
    {
        match self.last_activity.find(topic) {
            Some(i) => {
                proof {
                    self.last_activity.lemma_slot(i as int);
                }
                Some(self.last_activity.entries[i].value.clone())
            },
            None => None,
        }
    }

    /// Hands over the deliveries that were started since the last call, in
    /// the order in which they were started.
    pub fn take_deliveries(&mut self) -> (deliveries: Vec<Delivery>)
        requires
            old(self).wf(),
        ensures
            final(self).wf(),
            final(self)@ == old(self)@.drained(),
            delivery_views(deliveries@) == old(self)@.outbox,
    {
        let mut deliveries: Vec<Delivery> = Vec::new();
        std::mem::swap(&mut self.outbox, &mut deliveries);
        proof {
            assert(self@.outbox =~= Seq::empty());
            lemma_same_subscribers(old(self)@, self@);
        }
        deliveries
    }
}


/// `chrono::Utc::now`, written out by `to_rfc3339`: the present time as text.
/// It fails where the system clock stands before 1970.
#[verifier::external_body]
fn utc_now_text() -> String {
    chrono::Utc::now().to_rfc3339()
}

/// `uuid::Uuid::new_v4`, written out by `to_string`: a random id in the
/// hyphenated form, which is 36 characters long.
#[verifier::external_body]
fn random_id_text() -> (id: String)
    ensures
        id@.len() == 36,
{
    uuid::Uuid::new_v4().to_string()
}

/// The in-process transport. It owns its bus.
pub struct MemoryProvider {
    protocol: String,
    bus: MemoryEventBus,
}

/// A subscription with the in-process transport: the topic and the handle
/// under which the subscriber stands in the list of the topic.
pub struct MemorySubscription {
    pub topic: String,
    pub listener: u64,
}

impl View for MemoryProvider {
    type V = BusState;

    closed spec fn view(&self) -> BusState {
        self.bus@
    }
}

impl MemoryProvider {
    pub fn new() -> (provider: Self)
        ensures
            provider.wf(),
            provider@ == BusState::empty(),
            provider.spec_protocol() == "mem"@,
    {
        MemoryProvider { protocol: String::from_str("mem"), bus: MemoryEventBus::new() }
    }

    /// Fetches at a given time: `stamp` is recorded as the time of the
    /// activity, `now` is the clock reading by which leases are timed.
    pub fn fetch_at(&mut self, address: &Address, options: FetchOptions, stamp: String, now: u128) -> (fetched:
        Option<AckableMessage>)
        requires
            old(self).wf(),
        ensures
            final(self).wf(),
            final(self).spec_protocol() == old(self).spec_protocol(),
            final(self)@ == old(self)@.fetch(
                canonical_topic(address@),
                options,
                stamp@,
                now as nat,
            ),
            match fetched {
                Some(fetched) => old(self)@.fetched(
                    canonical_topic(address@),
                    options,
                    now as nat,
                ) == Some(fetched.message@) && fetched.leased == options.manual_ack,
                None => old(self)@.fetched(canonical_topic(address@), options, now as nat) is None,
            },
    {
        let topic = get_canonical_mailbox_address_identifier(address);
        match self.bus.fetch(topic.as_str(), options, stamp, now) {
            Some(message) => Some(AckableMessage { message, leased: options.manual_ack }),
            None => None,
        }
    }
}

impl MailboxProvider for MemoryProvider {
    type Handle = MemorySubscription;

    closed spec fn wf(&self) -> bool {
        self.bus.wf() && self.protocol@ == "mem"@
    }

    closed spec fn spec_protocol(&self) -> Seq<char> {
        self.protocol@
    }

    /// The message is handed back as it came, but for an empty id, in whose
    /// place a new one stands; as handed back it is published on the topic of
    /// its destination.
    open spec fn sent(
        pre: Self,
        message: MailMessage,
        post: Self,
        outcome: Result<MailMessage, MailboxError>,
    ) -> bool {
        &&& outcome matches Ok(sent)
        &&& sent@ == message@.with_id(sent@.id)
        &&& sent@.id.len() > 0
        &&& message@.id.len() > 0 ==> sent@.id == message@.id
        &&& exists|stamp: Seq<char>|
            post@ == #[trigger] pre@.publish(canonical_topic(sent@.to), sent@, stamp)
    }

    /// A new subscriber stands at the end of the list of the topic of the
    /// address, under the next handle; where all handles are given out, the
    /// transport says so and nothing changes.
    open spec fn subscribed(
        pre: Self,
        address: AddressView,
        post: Self,
        outcome: Result<MemorySubscription, MailboxError>,
    ) -> bool {
        match outcome {
            Ok(handle) => {
                &&& pre@.next_listener < u64::MAX
                &&& handle.listener == pre@.next_listener
                &&& handle.topic@ == canonical_topic(address)
                &&& exists|stamp: Seq<char>|
                    post@ == #[trigger] pre@.subscribe(canonical_topic(address), stamp)
            },
            Err(error) => pre@.next_listener == u64::MAX && error is ProviderError && post@ == pre@,
        }
    }

    /// The fetch is a fetch on the topic of the address, at some time.
    open spec fn fetched(
        pre: Self,
        address: AddressView,
        options: FetchOptions,
        post: Self,
        outcome: Result<Option<AckableMessage>, MailboxError>,
    ) -> bool {
        &&& outcome matches Ok(fetched)
        &&& exists|stamp: Seq<char>, now: nat|
            {
                &&& post@ == #[trigger] pre@.fetch(canonical_topic(address), options, stamp, now)
                &&& match fetched {
                    Some(fetched) => pre@.fetched(canonical_topic(address), options, now) == Some(
                        fetched.message@,
                    ) && fetched.leased == options.manual_ack,
                    None => pre@.fetched(canonical_topic(address), options, now) is None,
                }
            }
    }

    /// The mailbox is online; its unread count is the number of queued
    /// messages of its topic, its last activity is the one recorded.
    open spec fn reported(&self, address: AddressView, outcome: Result<MailboxStatus, MailboxError>) -> bool {
        &&& outcome matches Ok(status)
        &&& status.state@ == "online"@
        &&& status.unread_count == Some(self@.unread(canonical_topic(address)) as usize)
        &&& match status.last_activity_time {
            Some(stamp) => self@.last_active(canonical_topic(address)) == Some(stamp@),
            None => self@.last_active(canonical_topic(address)) is None,
        }
        &&& status.extra@ == Map::<String, serde_json::Value>::empty()
    }

    open spec fn settled(pre: Self, id: Seq<char>, requeue: Option<bool>, post: Self) -> bool {
        post@ == pre@.settle(id, requeue)
    }

    open spec fn drained(pre: Self, post: Self, deliveries: Seq<Delivery>) -> bool {
        post@ == pre@.drained() && delivery_views(deliveries) == pre@.outbox
    }

    fn protocol(&self) -> (scheme: &str) {
        self.protocol.as_str()
    }

    fn send(&mut self, message: MailMessage) -> (outcome: Result<MailMessage, MailboxError>) {
        let ghost given = message@;
        let mut sent = message;
        if sent.id.as_str().is_empty() {
            sent.id = self.generate_id();
        }
        let topic = get_canonical_mailbox_address_identifier(&sent.to);
        let stamp = utc_now_text();
        let ghost stamped = stamp@;
        self.bus.publish(topic, &sent, stamp);
        proof {
            assert(sent@.id.len() > 0);
            assert(sent@ == given.with_id(sent@.id));
            assert(self@ == old(self)@.publish(canonical_topic(sent@.to), sent@, stamped));
        }
        Ok(sent)
    }

    fn subscribe(&mut self, address: &Address) -> (outcome: Result<MemorySubscription, MailboxError>) {
        let topic = get_canonical_mailbox_address_identifier(address);
        let stamp = utc_now_text();
        let ghost stamped = stamp@;
        match self.bus.subscribe(topic.clone(), stamp) {
            Some(listener) => {
                proof {
                    old(self).bus.lemma_view_wf();
                    assert(self@ == old(self)@.subscribe(canonical_topic(address@), stamped));
                }
                Ok(MemorySubscription { topic, listener })
            },
            None => Err(
                MailboxError::ProviderError(String::from_str("no subscription handle is left")),
            ),
        }
    }

    fn fetch(&mut self, address: &Address, options: FetchOptions) -> (outcome: Result<
        Option<AckableMessage>,
        MailboxError,
    >) {
        let stamp = utc_now_text();
        let now = self.bus.clock();
        Ok(self.fetch_at(address, options, stamp, now))
    }

    fn status(&self, address: &Address) -> (outcome: Result<MailboxStatus, MailboxError>) {
        let topic = get_canonical_mailbox_address_identifier(address);
        let unread_count = self.bus.unread(topic.as_str());
        let last_activity_time = self.bus.last_activity(topic.as_str());
        Ok(
            MailboxStatus {
                state: String::from_str("online"),
                unread_count: Some(unread_count),
                last_activity_time,
                extra: HashMap::new(),
            },
        )
    }

    fn generate_id(&self) -> (id: String) {
        random_id_text()
    }

    fn ack(&mut self, message_id: &str) -> (outcome: Result<(), MailboxError>) {
        self.bus.ack(message_id);
        Ok(())
    }

    fn nack(&mut self, message_id: &str, requeue: bool) -> (outcome: Result<(), MailboxError>) {
        self.bus.nack(message_id, requeue);
        Ok(())
    }

    fn take_deliveries(&mut self) -> (deliveries: Vec<Delivery>) {
        self.bus.take_deliveries()
    }
}

impl Subscription<MemoryProvider> for MemorySubscription {
    /// The subscriber has left the list of its topic.
    open spec fn ended(&self, pre: MemoryProvider, post: MemoryProvider) -> bool {
        post@ == pre@.unsubscribe(self.topic@, self.listener)
    }

    fn unsubscribe(&mut self, provider: &mut MemoryProvider) -> (outcome: Result<(), MailboxError>)
        ensures
            *final(self) == *old(self),
    {
        provider.bus.unsubscribe(self.topic.as_str(), self.listener);
        Ok(())
    }
}

} // verus!
