//! The delivery queue: one first-in first-out queue per topic, and a table of
//! the messages that were handed out under a lease and not yet settled.

use vstd::prelude::*;
use std::collections::VecDeque;
use std::time::Instant;
use std::time::Duration;
use crate::message::Identifiable;
use crate::table::Entry;
use crate::table::Table;

verus! {

/// Nanoseconds in one millisecond: lease timeouts are given in milliseconds,
/// clock readings in nanoseconds.
pub const NANOS_PER_MILLI: u128 = 1_000_000;

/// A message that was handed out and awaits its acknowledgment.
pub struct Lease<T> {
    pub id: Seq<char>,
    pub message: T,
    pub topic: Seq<char>,
    pub leased_at: nat,
}

/// What a delivery queue holds: the queued messages of each topic, head first,
/// and the leases in the order of the table.
pub struct QueueState<T> {
    pub pending: Map<Seq<char>, Seq<T>>,
    pub leases: Seq<Lease<T>>,
}

impl<T> Lease<T> {
    /// The lease is on `topic` and older than `timeout_ms` at the reading `now`.
    pub open spec fn expired(self, topic: Seq<char>, timeout_ms: nat, now: nat) -> bool {
        self.topic == topic && now - self.leased_at > timeout_ms * NANOS_PER_MILLI
    }

    pub open spec fn expired_on(topic: Seq<char>, timeout_ms: nat, now: nat) -> spec_fn(
        Lease<T>,
    ) -> bool {
        |l: Lease<T>| l.expired(topic, timeout_ms, now)
    }

    pub open spec fn live_on(topic: Seq<char>, timeout_ms: nat, now: nat) -> spec_fn(
        Lease<T>,
    ) -> bool {
        |l: Lease<T>| !l.expired(topic, timeout_ms, now)
    }
}

/// The messages that the leases hold, in the order of the leases.
pub open spec fn messages_of<T>(leases: Seq<Lease<T>>) -> Seq<T> {
    leases.map_values(|l: Lease<T>| l.message)
}

impl<T> QueueState<T> {
    pub open spec fn empty() -> Self {
        QueueState { pending: Map::empty(), leases: Seq::empty() }
    }

    /// No two leases share an id.
    pub open spec fn wf(self) -> bool {
        forall|i: int, j: int|
            0 <= i < j < self.leases.len() ==> self.leases[i].id != self.leases[j].id
    }

    /// The queued messages of `topic`, head first; in-flight messages are not among them.
    pub open spec fn queued(self, topic: Seq<char>) -> Seq<T> {
        if self.pending.contains_key(topic) {
            self.pending[topic]
        } else {
            Seq::empty()
        }
    }

    pub open spec fn head(self, topic: Seq<char>) -> Option<T> {
        if self.queued(topic).len() > 0 {
            Some(self.queued(topic)[0])
        } else {
            None
        }
    }

    pub open spec fn has_lease(self, id: Seq<char>) -> bool {
        exists|i: int| 0 <= i < self.leases.len() && self.leases[i].id == id
    }

    /// The position of the lease of `id`, meaningful where `has_lease(id)`.
    pub open spec fn lease_slot(self, id: Seq<char>) -> int {
        choose|i: int| 0 <= i < self.leases.len() && self.leases[i].id == id
    }

    pub open spec fn lease(self, id: Seq<char>) -> Lease<T> {
        self.leases[self.lease_slot(id)]
    }

    /// `message` joins the tail of `topic`.
    pub open spec fn enqueue(self, topic: Seq<char>, message: T) -> Self {
        QueueState { pending: self.pending.insert(topic, self.queued(topic).push(message)), ..self }
    }

    /// `message` joins the head of `topic`.
    pub open spec fn requeue(self, topic: Seq<char>, message: T) -> Self {
        QueueState {
            pending: self.pending.insert(topic, seq![message] + self.queued(topic)),
            ..self
        }
    }

    /// The head of `topic` leaves.
    pub open spec fn dequeue(self, topic: Seq<char>) -> Self {
        if self.queued(topic).len() > 0 {
            QueueState {
                pending: self.pending.insert(topic, self.queued(topic).drop_first()),
                ..self
            }
        } else {
            self
        }
    }

    /// The lease of `id` leaves the table.
    pub open spec fn release(self, id: Seq<char>) -> Self {
        if self.has_lease(id) {
            QueueState { leases: self.leases.remove(self.lease_slot(id)), ..self }
        } else {
            self
        }
    }

    /// `lease` enters the table, in the place of a lease of the same id if there is one.
    pub open spec fn grant(self, lease: Lease<T>) -> Self {
        if self.has_lease(lease.id) {
            QueueState { leases: self.leases.update(self.lease_slot(lease.id), lease), ..self }
        } else {
            QueueState { leases: self.leases.push(lease), ..self }
        }
    }

    pub open spec fn ack(self, id: Seq<char>) -> Self {
        self.release(id)
    }

    pub open spec fn nack(self, id: Seq<char>, requeue: bool) -> Self {
        if requeue && self.has_lease(id) {
            self.release(id).requeue(self.lease(id).topic, self.lease(id).message)
        } else {
            self.release(id)
        }
    }

    /// The leases that the sweep of `topic` takes back, in table order.
    pub open spec fn expired_leases(self, topic: Seq<char>, timeout_ms: nat, now: nat) -> Seq<
        Lease<T>,
    > {
        self.leases.filter(Lease::expired_on(topic, timeout_ms, now))
    }

    /// The leases that the sweep of `topic` leaves alone, in table order.
    pub open spec fn live_leases(self, topic: Seq<char>, timeout_ms: nat, now: nat) -> Seq<
        Lease<T>,
    > {
        self.leases.filter(Lease::live_on(topic, timeout_ms, now))
    }

    /// The queues after `back` has returned to the head of `topic`, in this order.
    pub open spec fn with_returned(self, topic: Seq<char>, back: Seq<T>) -> Map<Seq<char>, Seq<T>> {
        if back.len() > 0 {
            self.pending.insert(topic, back + self.queued(topic))
        } else {
            self.pending
        }
    }

    /// The expired leases of `topic` return to the head of its queue, the one
    /// that stood first in the table at the very head.
    pub open spec fn sweep(self, topic: Seq<char>, timeout_ms: nat, now: nat) -> Self {
        QueueState {
            pending: self.with_returned(topic, messages_of(self.expired_leases(topic, timeout_ms, now))),
            leases: self.live_leases(topic, timeout_ms, now),
        }
    }

    /// The state in which a leased fetch looks for a message.
    pub open spec fn swept(self, topic: Seq<char>, timeout: Option<u64>, now: nat) -> Self {
        match timeout {
            Some(ms) => self.sweep(topic, ms as nat, now),
            None => self,
        }
    }
}

impl<T: Clone + Identifiable> QueueState<T> {
    /// What a leased fetch on `topic` at the reading `now` may do: `post` is the
    /// state after it and `fetched` what it hands out. The lease holds a clone
    /// of the message under the message's id.
    pub open spec fn leased_fetch(
        self,
        topic: Seq<char>,
        timeout: Option<u64>,
        now: nat,
        post: Self,
        fetched: Option<T>,
    ) -> bool {
        let swept = self.swept(topic, timeout, now);
        match fetched {
            None => swept.head(topic) is None && post == swept,
            Some(message) => {
                &&& swept.head(topic) == Some(message)
                &&& post.has_lease(message.spec_id())
                &&& cloned(message, post.lease(message.spec_id()).message)
                &&& post == swept.dequeue(topic).grant(
                    Lease {
                        id: message.spec_id(),
                        message: post.lease(message.spec_id()).message,
                        topic,
                        leased_at: now,
                    },
                )
            },
        }
    }
}

#[verifier::external_type_specification]
#[verifier::external_body]
pub struct ExInstant(Instant);

/// `std::time::Instant::now`: some reading of the monotonic clock.
#[verifier::external_body]
fn clock_start() -> Instant {
    Instant::now()
}

/// `std::time::Instant::elapsed`: the time since `origin`, whatever it is.
#[verifier::external_body]
fn clock_elapsed(origin: &Instant) -> Duration {
    origin.elapsed()
}

/// `std::time::Duration::as_nanos`: the span in whole nanoseconds.
#[verifier::external_body]
fn span_nanos(span: &Duration) -> u128 {
    span.as_nanos()
}

struct InFlightMessage<T> {
    message: T,
    timestamp: u128,
    topic: String,
}

pub struct MailMessageQueue<T> {
    queues: Table<VecDeque<T>>,
    in_flight: Table<InFlightMessage<T>>,
    origin: Instant,
}

impl<T> InFlightMessage<T> {
    spec fn lease(self, id: Seq<char>) -> Lease<T> {
        Lease { id, message: self.message, topic: self.topic@, leased_at: self.timestamp as nat }
    }
}

spec fn leases_of<T>(entries: Seq<Entry<InFlightMessage<T>>>) -> Seq<Lease<T>> {
    Seq::new(entries.len(), |i: int| entries[i].value.lease(entries[i].key@))
}

/// A one-element sequence passes the filter whole or not at all.
proof fn lemma_filter_single<A>(x: A, pred: spec_fn(A) -> bool)
    ensures
        seq![x].filter(pred) == if pred(x) {
            seq![x]
        } else {
            Seq::<A>::empty()
        },
{
    reveal_with_fuel(Seq::filter, 2);
    assert(seq![x].drop_last() =~= Seq::<A>::empty());
    assert(Seq::<A>::empty().push(x) =~= seq![x]);
}

/// Filtering a tail of a sequence, one element further to the front.
proof fn lemma_filter_tail_step<A>(all: Seq<A>, n: int, pred: spec_fn(A) -> bool)
    requires
        0 < n <= all.len(),
    ensures
        all.skip(n - 1).filter(pred) == if pred(all[n - 1]) {
            seq![all[n - 1]] + all.skip(n).filter(pred)
        } else {
            all.skip(n).filter(pred)
        },
{
    assert(all.skip(n - 1) =~= seq![all[n - 1]] + all.skip(n));
    Seq::filter_distributes_over_add(seq![all[n - 1]], all.skip(n), pred);
    lemma_filter_single(all[n - 1], pred);
    if !pred(all[n - 1]) {
        assert(Seq::<A>::empty() + all.skip(n).filter(pred) =~= all.skip(n).filter(pred));
    }
}

/// One more message returns in front of those that returned before it.
proof fn lemma_return_one_more<T>(
    start: QueueState<T>,
    now: QueueState<T>,
    topic: Seq<char>,
    back: Seq<T>,
    message: T,
)
    requires
        now.pending == start.with_returned(topic, back),
    ensures
        now.requeue(topic, message).pending == start.with_returned(topic, seq![message] + back),
{
    if back.len() == 0 {
        assert(seq![message] + back =~= seq![message]);
    }
    assert(seq![message] + (back + start.queued(topic)) =~= (seq![message] + back) + start.queued(
        topic,
    ));
    assert(now.requeue(topic, message).pending =~= start.with_returned(
        topic,
        seq![message] + back,
    ));
}

/// Filtering keeps the ids of the leases apart.
pub proof fn lemma_filter_keeps_ids_apart<T>(leases: Seq<Lease<T>>, pred: spec_fn(Lease<T>) -> bool)
    requires
        forall|i: int, j: int| 0 <= i < j < leases.len() ==> leases[i].id != leases[j].id,
    ensures
        forall|i: int, j: int|
            0 <= i < j < leases.filter(pred).len() ==> leases.filter(pred)[i].id != leases.filter(
                pred,
            )[j].id,
        forall|i: int|
            0 <= i < leases.filter(pred).len() ==> leases.contains(
                #[trigger] leases.filter(pred)[i],
            ),
    decreases leases.len(),
{
    reveal(Seq::filter);
    if leases.len() > 0 {
        let front = leases.drop_last();
        lemma_filter_keeps_ids_apart(front, pred);
        let kept = front.filter(pred);
        assert forall|i: int| 0 <= i < kept.len() implies leases.contains(#[trigger] kept[i])
            && kept[i].id != leases.last().id by {
            assert(front.contains(kept[i]));
            let k = choose|k: int| 0 <= k < front.len() && front[k] == kept[i];
            assert(leases[k] == kept[i]);
        }
        if pred(leases.last()) {
            assert(leases[leases.len() - 1] == leases.last());
        }
    }
}

/// What the table's keys say of the leases.
proof fn lemma_leases_of<T>(table: Table<InFlightMessage<T>>, id: Seq<char>)
    requires
        table.wf(),
    ensures
        leases_state(table).wf(),
        leases_state(table).has_lease(id) == table.has(id),
        table.has(id) ==> leases_state(table).lease_slot(id) == table.slot(id),
{
    let state = leases_state(table);
    if table.has(id) {
        let i = table.slot(id);
        assert(state.leases[i].id == id);
        let j = state.lease_slot(id);
        assert(table.entries@[j].key@ == id);
    }
    if state.has_lease(id) {
        let j = state.lease_slot(id);
        assert(table.entries@[j].key@ == id);
    }
}

spec fn leases_state<T>(table: Table<InFlightMessage<T>>) -> QueueState<T> {
    QueueState { pending: Map::empty(), leases: leases_of(table.entries@) }
}

impl<T> View for MailMessageQueue<T> {
    type V = QueueState<T>;

    closed spec fn view(&self) -> QueueState<T> {
        QueueState {
            pending: pending_of(self.queues),
            leases: leases_of(self.in_flight.entries@),
        }
    }
}

spec fn pending_of<T>(queues: Table<VecDeque<T>>) -> Map<Seq<char>, Seq<T>> {
    queues.map().map_values(|items: VecDeque<T>| items@)
}

/// Changing the queue at one position changes the entry of its topic and nothing else.
proof fn lemma_pending_update<T>(
    before: Table<VecDeque<T>>,
    after: Table<VecDeque<T>>,
    i: int,
)
    requires
        before.wf(),
        0 <= i < before.entries@.len(),
        after.entries@.len() == before.entries@.len(),
        forall|j: int|
            0 <= j < before.entries@.len() ==> after.entries@[j].key@ == before.entries@[j].key@,
        forall|j: int|
            0 <= j < before.entries@.len() && j != i ==> after.entries@[j].value
                == before.entries@[j].value,
    ensures
        after.wf(),
        pending_of(after) == pending_of(before).insert(
            before.entries@[i].key@,
            after.entries@[i].value@,
        ),
{
    Table::lemma_map_update(before, after, i);
    assert(pending_of(after) =~= pending_of(before).insert(
        before.entries@[i].key@,
        after.entries@[i].value@,
    ));
}

/// A new topic at the end of the table adds its entry and changes no other.
proof fn lemma_pending_push<T>(before: Table<VecDeque<T>>, after: Table<VecDeque<T>>)
    requires
        before.wf(),
        after.entries@.len() == before.entries@.len() + 1,
        forall|j: int| 0 <= j < before.entries@.len() ==> after.entries@[j] == before.entries@[j],
        !before.has(after.entries@.last().key@),
    ensures
        after.wf(),
        pending_of(after) == pending_of(before).insert(
            after.entries@.last().key@,
            after.entries@.last().value@,
        ),
{
    Table::lemma_map_push(before, after);
    assert(pending_of(after) =~= pending_of(before).insert(
        after.entries@.last().key@,
        after.entries@.last().value@,
    ));
}

impl<T> MailMessageQueue<T> {
    /// The tables hold each key once.
    pub closed spec fn wf(&self) -> bool {
        self.queues.wf() && self.in_flight.wf()
    }

    /// The leases of a queue in good order have distinct ids.
    pub proof fn lemma_view_wf(&self)
        requires
            self.wf(),
        ensures
            self@.wf(),
    {
    }

    /// A queue that holds nothing.
    pub fn new() -> (queue: Self)
        ensures
            queue.wf(),
            queue@ == QueueState::<T>::empty(),
    {
        let queue = MailMessageQueue {
            queues: Table::new(),
            in_flight: Table::new(),
            origin: clock_start(),
        };
        assert(queue@.pending =~= Map::empty());
        assert(queue@.leases =~= Seq::empty());
        queue
    }

    /// Appends `message` to the tail of the queue of `topic`.
    pub fn enqueue(&mut self, topic: String, message: T)
        requires
            old(self).wf(),
        ensures
            final(self).wf(),
            final(self)@ == old(self)@.enqueue(topic@, message),
    {
        match self.queues.find(topic.as_str()) {
            Some(i) => {
                self.queues.entries[i].value.push_back(message);
                proof {
                    old(self).queues.lemma_slot(i as int);
                    lemma_pending_update(old(self).queues, self.queues, i as int);
                }
            },
            None => {
                let mut items = VecDeque::new();
                items.push_back(message);
                self.queues.entries.push(Entry { key: topic, value: items });
                proof {
                    lemma_pending_push(old(self).queues, self.queues);
                    assert(items@ =~= Seq::<T>::empty().push(message));
                }
            },
        }
    }

    /// Takes the head of the queue of `topic`: the message is gone for good,
    /// no lease is kept.
    pub fn dequeue(&mut self, topic: &str) -> (taken: Option<T>)
        requires
            old(self).wf(),
        ensures
            final(self).wf(),
            taken == old(self)@.head(topic@),
            final(self)@ == old(self)@.dequeue(topic@),
    {
        match self.queues.find(topic) {
            Some(i) => {
                let taken = self.queues.entries[i].value.pop_front();
                proof {
                    old(self).queues.lemma_slot(i as int);
                    lemma_pending_update(old(self).queues, self.queues, i as int);
                    if taken is None {
                        assert(self@.pending =~= old(self)@.pending);
                    } else {
                        assert(self.queues.entries@[i as int].value@ =~= old(self)@.queued(
                            topic@,
                        ).drop_first());
                    }
                }
                taken
            },
            None => None,
        }
    }

    /// The number of queued messages of `topic`; messages in flight do not count.
    pub fn get_status(&self, topic: &str) -> (unread: usize)
        requires
            self.wf(),
        ensures
            unread == self@.queued(topic@).len(),
    {
        match self.queues.find(topic) {
            Some(i) => {
                proof {
                    self.queues.lemma_slot(i as int);
                }
                self.queues.entries[i].value.len()
            },
            None => 0,
        }
    }

    /// Puts `message` at the head of the queue of `topic`.
    fn requeue_internal(&mut self, topic: String, message: T)
        requires
            old(self).wf(),
        ensures
            final(self).wf(),
            final(self)@ == old(self)@.requeue(topic@, message),
            final(self).in_flight == old(self).in_flight,
    {
        match self.queues.find(topic.as_str()) {
            Some(i) => {
                self.queues.entries[i].value.push_front(message);
                proof {
                    old(self).queues.lemma_slot(i as int);
                    lemma_pending_update(old(self).queues, self.queues, i as int);
                }
            },
            None => {
                let mut items = VecDeque::new();
                items.push_front(message);
                self.queues.entries.push(Entry { key: topic, value: items });
                proof {
                    lemma_pending_push(old(self).queues, self.queues);
                    assert(items@ =~= seq![message] + Seq::<T>::empty());
                }
            },
        }
    }

    /// Settles the lease of `message_id`: the message is done with. Nothing
    /// happens where no such lease is held.
    pub fn ack(&mut self, message_id: &str)
        requires
            old(self).wf(),
        ensures
            final(self).wf(),
            final(self)@ == old(self)@.ack(message_id@),
    {
        proof {
            lemma_leases_of(self.in_flight, message_id@);
        }
        let _ = self.in_flight.take(message_id);
        proof {
            assert(self@.leases =~= old(self)@.ack(message_id@).leases);
        }
    }

    /// Gives up the lease of `message_id`. With `requeue` the message returns
    /// to the head of the queue of its topic; without, it is dropped.
    pub fn nack(&mut self, message_id: &str, requeue: bool)
        requires
            old(self).wf(),
        ensures
            final(self).wf(),
            final(self)@ == old(self)@.nack(message_id@, requeue),
    {
        proof {
            lemma_leases_of(self.in_flight, message_id@);
        }
        let released = self.in_flight.take(message_id);
        proof {
            assert(self@.leases =~= old(self)@.release(message_id@).leases);
        }
        if let Some(flight) = released {
            if requeue {
                self.requeue_internal(flight.topic, flight.message);
            }
        }
    }

    /// The reading of this queue's clock: nanoseconds since the queue was made.
    pub fn now(&self) -> u128 {
        let span = clock_elapsed(&self.origin);
        span_nanos(&span)
    }

    /// Returns to the head of the queue of `topic` every lease on it that is
    /// older than `timeout_ms` at the reading `now`.
    fn requeue_stale(&mut self, topic: &str, timeout_ms: u64, now: u128)
        requires
            old(self).wf(),
        ensures
            final(self).wf(),
            final(self)@ == old(self)@.sweep(topic@, timeout_ms as nat, now as nat),
    {
        let limit: u128 = (timeout_ms as u128) * NANOS_PER_MILLI;
        let ghost all = old(self)@.leases;
        let ghost gone = Lease::<T>::expired_on(topic@, timeout_ms as nat, now as nat);
        let ghost stays = Lease::<T>::live_on(topic@, timeout_ms as nat, now as nat);
        let mut kept: Vec<Entry<InFlightMessage<T>>> = Vec::new();
        proof {
            assert(all.skip(all.len() as int) =~= Seq::empty());
            reveal(Seq::filter);
            assert(messages_of(Seq::<Lease<T>>::empty()) =~= Seq::empty());
            assert(leases_of(kept@).reverse() =~= Seq::empty());
        }
        while self.in_flight.entries.len() > 0
            invariant
                self.queues.wf(),
                old(self).wf(),
                all == old(self)@.leases,
                limit == timeout_ms * NANOS_PER_MILLI,
                gone == Lease::<T>::expired_on(topic@, timeout_ms as nat, now as nat),
                stays == Lease::<T>::live_on(topic@, timeout_ms as nat, now as nat),
                self.in_flight.entries@ == old(self).in_flight.entries@.take(
                    self.in_flight.entries@.len() as int,
                ),
                self.in_flight.entries@.len() <= all.len(),
                self@.pending == old(self)@.with_returned(
                    topic@,
                    messages_of(all.skip(self.in_flight.entries@.len() as int).filter(gone)),
                ),
                leases_of(kept@).reverse() == all.skip(self.in_flight.entries@.len() as int).filter(
                    stays,
                ),
            decreases self.in_flight.entries@.len(),
        {
            let ghost n = self.in_flight.entries@.len() as int;
            let ghost kept_before = leases_of(kept@);
            let entry = self.in_flight.entries.pop().unwrap();
            let ghost lease = all[n - 1];
            proof {
                assert(entry == old(self).in_flight.entries@[n - 1]);
                assert(self.in_flight.entries@ =~= old(self).in_flight.entries@.take(n - 1));
                lemma_filter_tail_step(all, n, gone);
                lemma_filter_tail_step(all, n, stays);
            }
            let age: u128 = if now >= entry.value.timestamp {
                now - entry.value.timestamp
            } else {
                0
            };
            if crate::text::str_eq(entry.value.topic.as_str(), topic) && age > limit {
                let ghost mid = self@;
                self.requeue_internal(entry.value.topic, entry.value.message);
                proof {
                    assert(gone(lease));
                    let back = messages_of(all.skip(n).filter(gone));
                    lemma_return_one_more(old(self)@, mid, topic@, back, lease.message);
                    assert(messages_of(all.skip(n - 1).filter(gone)) =~= seq![lease.message] + back);
                }
            } else {
                kept.push(entry);
                proof {
                    assert(stays(lease));
                    assert(leases_of(kept@) =~= kept_before.push(lease));
                    assert(kept_before.push(lease).reverse() =~= seq![lease]
                        + kept_before.reverse());
                }
            }
        }
        proof {
            assert(all.skip(0) =~= all);
            lemma_filter_keeps_ids_apart(all, stays);
        }
        let ghost swept_pending = self@.pending;
        while kept.len() > 0
            invariant
                self.queues.wf(),
                self@.pending == swept_pending,
                leases_of(self.in_flight.entries@) + leases_of(kept@).reverse() == all.filter(stays),
            decreases kept@.len(),
        {
            let ghost kept_before = leases_of(kept@);
            let ghost held_before = leases_of(self.in_flight.entries@);
            let entry = kept.pop().unwrap();
            let ghost lease = entry.value.lease(entry.key@);
            self.in_flight.entries.push(entry);
            proof {
                assert(kept_before =~= leases_of(kept@).push(lease));
                assert(kept_before.reverse() =~= seq![lease] + leases_of(kept@).reverse());
                assert(leases_of(self.in_flight.entries@) =~= held_before.push(lease));
                assert(held_before.push(lease) + leases_of(kept@).reverse() =~= held_before
                    + kept_before.reverse());
            }
        }
        proof {
            assert(leases_of(kept@).reverse() =~= Seq::empty());
            assert(leases_of(self.in_flight.entries@) =~= all.filter(stays));
            assert forall|i: int, j: int|
                0 <= i < j < self.in_flight.entries@.len() implies self.in_flight.entries@[i].key@
                != self.in_flight.entries@[j].key@ by {
                assert(leases_of(self.in_flight.entries@)[i].id == self.in_flight.entries@[i].key@);
                assert(leases_of(self.in_flight.entries@)[j].id == self.in_flight.entries@[j].key@);
            }
        }
    }

    /// A leased fetch at the clock reading `now`. With a timeout, the expired
    /// leases of `topic` first return to the head of its queue: only here are
    /// they looked at. Then the head of the queue is handed out under a new
    /// lease that starts at `now`.
    pub fn dequeue_for_ack_at(&mut self, topic: &str, ack_timeout: Option<u64>, now: u128) -> (fetched:
        Option<T>) where T: Clone + Identifiable
        requires
            old(self).wf(),
        ensures
            final(self).wf(),
            old(self)@.leased_fetch(topic@, ack_timeout, now as nat, final(self)@, fetched),
    {
        if let Some(timeout) = ack_timeout {
            self.requeue_stale(topic, timeout, now);
        }
        let message = match self.dequeue(topic) {
            Some(message) => message,
            None => {
                return None;
            },
        };
        let id = message.id().to_owned();
        proof {
            lemma_leases_of(self.in_flight, id@);
        }
        let ghost taken = self@;
        let copy = message.clone();
        let _ = self.in_flight.set(
            id,
            InFlightMessage { message: copy, timestamp: now, topic: topic.to_owned() },
        );
        proof {
            let lease = Lease {
                id: message.spec_id(),
                message: copy,
                topic: topic@,
                leased_at: now as nat,
            };
            assert(self@.leases =~= taken.grant(lease).leases);
            assert(self@ == taken.grant(lease));
            lemma_leases_of(self.in_flight, message.spec_id());
            if taken.has_lease(lease.id) {
                assert(self@.leases[taken.lease_slot(lease.id)] == lease);
            } else {
                assert(self@.leases[taken.leases.len() as int] == lease);
            }
            assert(self@.lease(lease.id).id == lease.id);
            assert(self@.lease(lease.id) == lease);
        }
        Some(message)
    }

    /// A leased fetch at the present reading of the queue's own clock.
    pub fn dequeue_for_ack(&mut self, topic: &str, ack_timeout: Option<u64>) -> (fetched: Option<
        T,
    >) where T: Clone + Identifiable
        requires
            old(self).wf(),
        ensures
            final(self).wf(),
            exists|now: nat| #[trigger]
                old(self)@.leased_fetch(topic@, ack_timeout, now, final(self)@, fetched),
    {
        let now = self.now();
        self.dequeue_for_ack_at(topic, ack_timeout, now)
    }
}

} // verus!
