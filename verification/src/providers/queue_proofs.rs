//! What holds of every delivery queue, proved over its state.

use vstd::prelude::*;
use crate::message::Identifiable;
use crate::providers::queue::Lease;
use crate::providers::queue::QueueState;
use crate::providers::queue::lemma_filter_keeps_ids_apart;
use crate::providers::queue::messages_of;

verus! {

impl<T> QueueState<T> {
    /// The id of the message at position `i` of the queue of `topic`.
    pub open spec fn queued_id(self, ident: spec_fn(T) -> Seq<char>, topic: Seq<char>, i: int) -> Seq<char> {
        ident(self.queued(topic)[i])
    }

    /// A message with this id waits in the queue of `topic`.
    pub open spec fn holds_queued(self, ident: spec_fn(T) -> Seq<char>, topic: Seq<char>, id: Seq<char>) -> bool {
        exists|i: int| 0 <= i < self.queued(topic).len() && #[trigger] self.queued_id(ident, topic, i) == id
    }

    /// Every lease holds a message of its own id.
    pub open spec fn leases_keep_ids(self, ident: spec_fn(T) -> Seq<char>) -> bool {
        forall|i: int|
            0 <= i < self.leases.len() ==> ident((#[trigger] self.leases[i]).message)
                == self.leases[i].id
    }

    /// No id occurs twice among the queued messages of all topics.
    pub open spec fn queued_ids_apart(self, ident: spec_fn(T) -> Seq<char>) -> bool {
        forall|t: Seq<char>, i: int, u: Seq<char>, j: int|
            0 <= i < self.queued(t).len() && 0 <= j < self.queued(u).len() && #[trigger] self.queued_id(ident, t,
                i,
            ) == #[trigger] self.queued_id(ident, u, j) ==> t == u && i == j
    }

    /// No queued message is also in flight.
    pub open spec fn queued_not_leased(self, ident: spec_fn(T) -> Seq<char>) -> bool {
        forall|t: Seq<char>, i: int|
            0 <= i < self.queued(t).len() ==> !self.has_lease(#[trigger] self.queued_id(ident, t, i))
    }

    /// An id stands in at most one place: once in one queue, or once in the
    /// table of leases.
    pub open spec fn ids_apart(self, ident: spec_fn(T) -> Seq<char>) -> bool {
        &&& self.wf()
        &&& self.leases_keep_ids(ident)
        &&& self.queued_ids_apart(ident)
        &&& self.queued_not_leased(ident)
    }

    /// The id is nowhere: in no queue and under no lease.
    pub open spec fn unknown(self, ident: spec_fn(T) -> Seq<char>, id: Seq<char>) -> bool {
        !self.has_lease(id) && forall|t: Seq<char>| !#[trigger] self.holds_queued(ident, t, id)
    }
}

/// A queue that holds nothing keeps every id in one place.
pub proof fn law_empty_queue_keeps_ids_apart<T>(ident: spec_fn(T) -> Seq<char>)
    ensures
        QueueState::<T>::empty().ids_apart(ident),
        forall|id: Seq<char>| #[trigger] QueueState::<T>::empty().unknown(ident, id),
{
    let empty = QueueState::<T>::empty();
    assert forall|id: Seq<char>| #[trigger] empty.unknown(ident, id) by {
        assert forall|t: Seq<char>| !#[trigger] empty.holds_queued(ident, t, id) by {}
    }
}

/// Where the leases have distinct ids, the lease of an id is the one at its position.
pub proof fn lemma_lease_at<T>(s: QueueState<T>, i: int)
    requires
        s.wf(),
        0 <= i < s.leases.len(),
    ensures
        s.has_lease(s.leases[i].id),
        s.lease_slot(s.leases[i].id) == i,
        s.lease(s.leases[i].id) == s.leases[i],
{
}

/// What `release` does to the lease of another id.
pub proof fn lemma_release_other<T>(s: QueueState<T>, id: Seq<char>, other: Seq<char>)
    requires
        s.wf(),
        other != id,
    ensures
        s.release(id).has_lease(other) == s.has_lease(other),
        s.has_lease(other) ==> s.release(id).lease(other) == s.lease(other),
{
    let r = s.release(id);
    if s.has_lease(id) {
        let k = s.lease_slot(id);
        lemma_release(s, id);
        if s.has_lease(other) {
            let a = s.lease_slot(other);
            let i = if a < k { a } else { a - 1 };
            assert(r.leases[i] == s.leases[a]);
            lemma_lease_at(r, i);
        }
        if r.has_lease(other) {
            let i = r.lease_slot(other);
            let a = if i < k { i } else { i + 1 };
            assert(r.leases[i] == s.leases[a]);
        }
    }
}

/// What `release` does to the table of leases.
pub proof fn lemma_release<T>(s: QueueState<T>, id: Seq<char>)
    requires
        s.wf(),
    ensures
        s.release(id).wf(),
        s.release(id).pending == s.pending,
        !s.release(id).has_lease(id),
{
    let r = s.release(id);
    if s.has_lease(id) {
        let k = s.lease_slot(id);
        assert forall|i: int, j: int| 0 <= i < j < r.leases.len() implies r.leases[i].id
            != r.leases[j].id by {
            let a = if i < k { i } else { i + 1 };
            let b = if j < k { j } else { j + 1 };
            assert(r.leases[i] == s.leases[a]);
            assert(r.leases[j] == s.leases[b]);
        }
        if r.has_lease(id) {
            let i = r.lease_slot(id);
            let a = if i < k { i } else { i + 1 };
            assert(r.leases[i] == s.leases[a]);
        }
    }
}

/// The leases that a sweep takes back are leases of the state, expired, and of distinct ids.
pub proof fn lemma_expired_leases<T>(s: QueueState<T>, topic: Seq<char>, timeout_ms: nat, now: nat)
    requires
        s.wf(),
    ensures
        forall|i: int, j: int|
            0 <= i < j < s.expired_leases(topic, timeout_ms, now).len() ==> s.expired_leases(
                topic,
                timeout_ms,
                now,
            )[i].id != s.expired_leases(topic, timeout_ms, now)[j].id,
        forall|i: int|
            0 <= i < s.expired_leases(topic, timeout_ms, now).len() ==> {
                let l = #[trigger] s.expired_leases(topic, timeout_ms, now)[i];
                s.has_lease(l.id) && s.lease(l.id) == l && l.expired(topic, timeout_ms, now)
            },
        forall|id: Seq<char>|
            s.has_lease(id) && s.lease(id).expired(topic, timeout_ms, now) ==> exists|i: int|
                0 <= i < s.expired_leases(topic, timeout_ms, now).len() && #[trigger] s.expired_leases(
                    topic,
                    timeout_ms,
                    now,
                )[i] == s.lease(id),
{
    let pred = Lease::<T>::expired_on(topic, timeout_ms, now);
    let f = s.expired_leases(topic, timeout_ms, now);
    lemma_filter_keeps_ids_apart(s.leases, pred);
    assert forall|i: int| 0 <= i < f.len() implies {
        let l = #[trigger] f[i];
        s.has_lease(l.id) && s.lease(l.id) == l && l.expired(topic, timeout_ms, now)
    } by {
        s.leases.lemma_filter_pred(pred, i);
        assert(s.leases.contains(f[i]));
        let k = choose|k: int| 0 <= k < s.leases.len() && s.leases[k] == f[i];
        lemma_lease_at(s, k);
    }
    assert forall|id: Seq<char>|
        s.has_lease(id) && s.lease(id).expired(topic, timeout_ms, now) implies exists|i: int|
        0 <= i < f.len() && #[trigger] f[i] == s.lease(id) by {
        let k = s.lease_slot(id);
        assert(pred(s.leases[k]));
        s.leases.lemma_filter_contains(pred, k);
        let i = choose|i: int| 0 <= i < f.len() && f[i] == s.leases[k];
        assert(f[i] == s.lease(id));
    }
}

/// The leases that a sweep leaves are those that have not expired on its topic.
pub proof fn lemma_sweep_lease<T>(
    s: QueueState<T>,
    topic: Seq<char>,
    timeout_ms: nat,
    now: nat,
    id: Seq<char>,
)
    requires
        s.wf(),
    ensures
        s.sweep(topic, timeout_ms, now).wf(),
        s.sweep(topic, timeout_ms, now).has_lease(id) == (s.has_lease(id) && !s.lease(id).expired(
            topic,
            timeout_ms,
            now,
        )),
        s.sweep(topic, timeout_ms, now).has_lease(id) ==> s.sweep(topic, timeout_ms, now).lease(id)
            == s.lease(id),
{
    let pred = Lease::<T>::live_on(topic, timeout_ms, now);
    let sw = s.sweep(topic, timeout_ms, now);
    let f = sw.leases;
    lemma_filter_keeps_ids_apart(s.leases, pred);
    if sw.has_lease(id) {
        let i = sw.lease_slot(id);
        s.leases.lemma_filter_pred(pred, i);
        assert(s.leases.contains(f[i]));
        let k = choose|k: int| 0 <= k < s.leases.len() && s.leases[k] == f[i];
        lemma_lease_at(s, k);
    }
    if s.has_lease(id) && !s.lease(id).expired(topic, timeout_ms, now) {
        let k = s.lease_slot(id);
        assert(pred(s.leases[k]));
        s.leases.lemma_filter_contains(pred, k);
        let i = choose|i: int| 0 <= i < f.len() && f[i] == s.leases[k];
        lemma_lease_at(sw, i);
    }
}

/// What a sweep does to the queues.
pub proof fn lemma_sweep_queues<T>(
    s: QueueState<T>,
    topic: Seq<char>,
    timeout_ms: nat,
    now: nat,
    other: Seq<char>,
)
    ensures
        s.sweep(topic, timeout_ms, now).queued(topic) == messages_of(
            s.expired_leases(topic, timeout_ms, now),
        ) + s.queued(topic),
        other != topic ==> s.sweep(topic, timeout_ms, now).queued(other) == s.queued(other),
{
    let back = messages_of(s.expired_leases(topic, timeout_ms, now));
    if back.len() == 0 {
        assert(back + s.queued(topic) =~= s.queued(topic));
    }
}

/// A sweep keeps every id in one place, and brings into the queue of its
/// topic the ids of the leases that expired on it.
pub proof fn lemma_sweep_keeps_ids_apart<T>(
    s: QueueState<T>,
    ident: spec_fn(T) -> Seq<char>,
    topic: Seq<char>,
    timeout_ms: nat,
    now: nat,
)
    requires
        s.ids_apart(ident),
    ensures
        s.sweep(topic, timeout_ms, now).ids_apart(ident),
        forall|t: Seq<char>, id: Seq<char>| #[trigger]
            s.sweep(topic, timeout_ms, now).holds_queued(ident, t, id) == (s.holds_queued(ident, t, id) || (t
                == topic && s.has_lease(id) && s.lease(id).expired(topic, timeout_ms, now))),
{
    let sw = s.sweep(topic, timeout_ms, now);
    let gone = s.expired_leases(topic, timeout_ms, now);
    let back = messages_of(gone);
    let b = back.len() as int;
    lemma_expired_leases(s, topic, timeout_ms, now);
    lemma_sweep_queues(s, topic, timeout_ms, now, topic);
    lemma_sweep_lease(s, topic, timeout_ms, now, topic);
    assert forall|t: Seq<char>| t != topic implies #[trigger] sw.queued(t) == s.queued(t) by {
        lemma_sweep_queues(s, topic, timeout_ms, now, t);
    }
    // where each queued message of the swept state comes from
    assert forall|i: int| 0 <= i < b implies #[trigger] sw.queued_id(ident, topic, i) == gone[i].id
        && s.has_lease(gone[i].id) && s.lease(gone[i].id).expired(topic, timeout_ms, now) by {
        let l = gone[i];
        assert(s.lease(l.id) == l);
        let k = s.lease_slot(l.id);
        assert(ident(s.leases[k].message) == s.leases[k].id);
    }
    assert forall|i: int| b <= i < sw.queued(topic).len() implies #[trigger] sw.queued_id(ident, topic, i)
        == s.queued_id(ident, topic, i - b) by {}
    assert forall|i: int| 0 <= i < sw.leases.len() implies ident((#[trigger] sw.leases[i]).message)
        == sw.leases[i].id by {
        lemma_lease_at(sw, i);
        lemma_sweep_lease(s, topic, timeout_ms, now, sw.leases[i].id);
        let k = s.lease_slot(sw.leases[i].id);
        assert(ident(s.leases[k].message) == s.leases[k].id);
    }
    assert forall|t: Seq<char>, i: int| 0 <= i < sw.queued(t).len() implies !sw.has_lease(
        #[trigger] sw.queued_id(ident, t, i),
    ) by {
        let id = sw.queued_id(ident, t, i);
        lemma_sweep_lease(s, topic, timeout_ms, now, id);
        if t == topic && i < b {
        } else if t == topic {
            assert(!s.has_lease(s.queued_id(ident, topic, i - b)));
        } else {
            assert(!s.has_lease(s.queued_id(ident, t, i)));
        }
    }
    assert forall|t: Seq<char>, i: int, u: Seq<char>, j: int|
        0 <= i < sw.queued(t).len() && 0 <= j < sw.queued(u).len() && #[trigger] sw.queued_id(ident, t, i)
            == #[trigger] sw.queued_id(ident, u, j) implies t == u && i == j by {
        let from_lease_i = t == topic && i < b;
        let from_lease_j = u == topic && j < b;
        let oi = if t == topic { i - b } else { i };
        let oj = if u == topic { j - b } else { j };
        if from_lease_i && from_lease_j {
            if i != j {
                assert(gone[i].id != gone[j].id);
            }
        } else if from_lease_i {
            assert(!s.has_lease(s.queued_id(ident, u, oj)));
        } else if from_lease_j {
            assert(!s.has_lease(s.queued_id(ident, t, oi)));
        } else {
            assert(s.queued_id(ident, t, oi) == s.queued_id(ident, u, oj));
        }
    }
    assert forall|t: Seq<char>, id: Seq<char>| #[trigger]
        sw.holds_queued(ident, t, id) == (s.holds_queued(ident, t, id) || (t == topic && s.has_lease(id)
            && s.lease(id).expired(topic, timeout_ms, now))) by {
        if sw.holds_queued(ident, t, id) {
            let i = choose|i: int| 0 <= i < sw.queued(t).len() && #[trigger] sw.queued_id(ident, t, i) == id;
            if t == topic && i < b {
            } else if t == topic {
                assert(s.queued_id(ident, t, i - b) == id);
            } else {
                assert(s.queued_id(ident, t, i) == id);
            }
        }
        if s.holds_queued(ident, t, id) {
            let i = choose|i: int| 0 <= i < s.queued(t).len() && #[trigger] s.queued_id(ident, t, i) == id;
            if t == topic {
                assert(sw.queued_id(ident, t, i + b) == id);
            } else {
                assert(sw.queued_id(ident, t, i) == id);
            }
        }
        if t == topic && s.has_lease(id) && s.lease(id).expired(topic, timeout_ms, now) {
            let i = choose|i: int| 0 <= i < gone.len() && #[trigger] gone[i] == s.lease(id);
            lemma_lease_at(s, s.lease_slot(id));
            assert(sw.queued_id(ident, topic, i) == id);
        }
    }
}

/// A message of an id that is nowhere may join either end of a queue.
pub proof fn lemma_join_keeps_ids_apart<T>(
    s: QueueState<T>,
    ident: spec_fn(T) -> Seq<char>,
    topic: Seq<char>,
    message: T,
    at_head: bool,
    post: QueueState<T>,
)
    requires
        s.ids_apart(ident),
        s.unknown(ident, ident(message)),
        post == if at_head {
            s.requeue(topic, message)
        } else {
            s.enqueue(topic, message)
        },
    ensures
        post.ids_apart(ident),
        forall|t: Seq<char>, id: Seq<char>| #[trigger]
            post.holds_queued(ident, t, id) == (s.holds_queued(ident, t, id) || (t == topic && id
                == ident(message))),
{
    let shift = if at_head { 1int } else { 0int };
    let place = if at_head { 0int } else { s.queued(topic).len() as int };
    assert forall|t: Seq<char>| t != topic implies #[trigger] post.queued(t) == s.queued(t) by {}
    assert(post.queued(topic).len() == s.queued(topic).len() + 1);
    assert(post.queued_id(ident, topic, place) == ident(message));
    assert forall|i: int| 0 <= i < post.queued(topic).len() && i != place implies #[trigger] post.queued_id(ident, topic,
        i,
    ) == s.queued_id(ident, topic, i - shift) by {}
    assert forall|t: Seq<char>, i: int| 0 <= i < s.queued(t).len() implies #[trigger] s.queued_id(ident, t, i)
        != ident(message) by {
        assert(!s.holds_queued(ident, t, ident(message)));
    }
    assert forall|t: Seq<char>, i: int| 0 <= i < post.queued(t).len() implies !post.has_lease(
        #[trigger] post.queued_id(ident, t, i),
    ) by {
        if t == topic && i == place {
        } else if t == topic {
            assert(!s.has_lease(s.queued_id(ident, t, i - shift)));
        } else {
            assert(!s.has_lease(s.queued_id(ident, t, i)));
        }
    }
    assert forall|t: Seq<char>, i: int, u: Seq<char>, j: int|
        0 <= i < post.queued(t).len() && 0 <= j < post.queued(u).len() && #[trigger] post.queued_id(ident, t,
            i,
        ) == #[trigger] post.queued_id(ident, u, j) implies t == u && i == j by {
        let new_i = t == topic && i == place;
        let new_j = u == topic && j == place;
        let oi = if t == topic { i - shift } else { i };
        let oj = if u == topic { j - shift } else { j };
        if new_i && new_j {
        } else if new_i {
            assert(s.queued_id(ident, u, oj) != ident(message));
        } else if new_j {
            assert(s.queued_id(ident, t, oi) != ident(message));
        } else {
            assert(s.queued_id(ident, t, oi) == s.queued_id(ident, u, oj));
        }
    }
    assert forall|t: Seq<char>, id: Seq<char>| #[trigger]
        post.holds_queued(ident, t, id) == (s.holds_queued(ident, t, id) || (t == topic && id
            == ident(message))) by {
        if post.holds_queued(ident, t, id) {
            let i = choose|i: int|
                0 <= i < post.queued(t).len() && #[trigger] post.queued_id(ident, t, i) == id;
            if t == topic && i == place {
            } else if t == topic {
                assert(s.queued_id(ident, t, i - shift) == id);
            } else {
                assert(s.queued_id(ident, t, i) == id);
            }
        }
        if s.holds_queued(ident, t, id) {
            let i = choose|i: int| 0 <= i < s.queued(t).len() && #[trigger] s.queued_id(ident, t, i) == id;
            if t == topic {
                assert(post.queued_id(ident, t, i + shift) == id);
            } else {
                assert(post.queued_id(ident, t, i) == id);
            }
        }
    }
}

/// Taking the head of a queue keeps every id in one place, and the id of the
/// head is then in no queue.
pub proof fn lemma_dequeue_keeps_ids_apart<T>(
    s: QueueState<T>,
    ident: spec_fn(T) -> Seq<char>,
    topic: Seq<char>,
)
    requires
        s.ids_apart(ident),
    ensures
        s.dequeue(topic).ids_apart(ident),
        s.dequeue(topic).leases == s.leases,
        forall|t: Seq<char>, id: Seq<char>| #[trigger]
            s.dequeue(topic).holds_queued(ident, t, id) == (s.holds_queued(ident, t, id) && !(s.queued(
                topic,
            ).len() > 0 && id == s.queued_id(ident, topic, 0))),
{
    let post = s.dequeue(topic);
    if s.queued(topic).len() > 0 {
        assert forall|t: Seq<char>| t != topic implies #[trigger] post.queued(t) == s.queued(t) by {}
        assert forall|i: int| 0 <= i < post.queued(topic).len() implies #[trigger] post.queued_id(ident, topic,
            i,
        ) == s.queued_id(ident, topic, i + 1) by {}
        assert forall|t: Seq<char>, i: int| 0 <= i < post.queued(t).len() implies !post.has_lease(
            #[trigger] post.queued_id(ident, t, i),
        ) by {
            if t == topic {
                assert(!s.has_lease(s.queued_id(ident, t, i + 1)));
            } else {
                assert(!s.has_lease(s.queued_id(ident, t, i)));
            }
        }
        assert forall|t: Seq<char>, i: int, u: Seq<char>, j: int|
            0 <= i < post.queued(t).len() && 0 <= j < post.queued(u).len()
                && #[trigger] post.queued_id(ident, t, i) == #[trigger] post.queued_id(ident, u, j) implies t == u
            && i == j by {
            let oi = if t == topic { i + 1 } else { i };
            let oj = if u == topic { j + 1 } else { j };
            assert(s.queued_id(ident, t, oi) == s.queued_id(ident, u, oj));
        }
        assert forall|t: Seq<char>, id: Seq<char>| #[trigger]
            post.holds_queued(ident, t, id) == (s.holds_queued(ident, t, id) && id != s.queued_id(ident, topic, 0)) by {
            if post.holds_queued(ident, t, id) {
                let i = choose|i: int|
                    0 <= i < post.queued(t).len() && #[trigger] post.queued_id(ident, t, i) == id;
                let oi = if t == topic { i + 1 } else { i };
                assert(s.queued_id(ident, t, oi) == id);
                if id == s.queued_id(ident, topic, 0) {
                    assert(s.queued_id(ident, t, oi) == s.queued_id(ident, topic, 0));
                }
            }
            if s.holds_queued(ident, t, id) && id != s.queued_id(ident, topic, 0) {
                let i = choose|i: int|
                    0 <= i < s.queued(t).len() && #[trigger] s.queued_id(ident, t, i) == id;
                if t == topic {
                    assert(post.queued_id(ident, t, i - 1) == id);
                } else {
                    assert(post.queued_id(ident, t, i) == id);
                }
            }
        }
    }
}

/// Releasing a lease keeps every id in one place, and the released id is then nowhere.
pub proof fn lemma_release_keeps_ids_apart<T>(
    s: QueueState<T>,
    ident: spec_fn(T) -> Seq<char>,
    id: Seq<char>,
)
    requires
        s.ids_apart(ident),
    ensures
        s.release(id).ids_apart(ident),
        s.has_lease(id) ==> s.release(id).unknown(ident, id),
{
    let r = s.release(id);
    lemma_release(s, id);
    assert forall|i: int| 0 <= i < r.leases.len() implies ident((#[trigger] r.leases[i]).message)
        == r.leases[i].id by {
        if s.has_lease(id) {
            let k = s.lease_slot(id);
            let a = if i < k { i } else { i + 1 };
            assert(r.leases[i] == s.leases[a]);
        }
    }
    assert forall|t: Seq<char>, i: int| 0 <= i < r.queued(t).len() implies !r.has_lease(
        #[trigger] r.queued_id(ident, t, i),
    ) by {
        let q = r.queued_id(ident, t, i);
        assert(q == s.queued_id(ident, t, i));
        assert(!s.has_lease(q));
        if q != id {
            lemma_release_other(s, id, q);
        }
    }
    assert forall|t: Seq<char>, i: int, u: Seq<char>, j: int|
        0 <= i < r.queued(t).len() && 0 <= j < r.queued(u).len() && #[trigger] r.queued_id(ident, t, i)
            == #[trigger] r.queued_id(ident, u, j) implies t == u && i == j by {
        assert(s.queued_id(ident, t, i) == s.queued_id(ident, u, j));
    }
    if s.has_lease(id) {
        assert forall|t: Seq<char>| !#[trigger] r.holds_queued(ident, t, id) by {
            if r.holds_queued(ident, t, id) {
                let i = choose|i: int| 0 <= i < r.queued(t).len() && #[trigger] r.queued_id(ident, t, i) == id;
                assert(!s.has_lease(s.queued_id(ident, t, i)));
            }
        }
    }
}

/// A lease of an id that is nowhere, holding a message of that id, may be granted.
pub proof fn lemma_grant_keeps_ids_apart<T>(
    s: QueueState<T>,
    ident: spec_fn(T) -> Seq<char>,
    lease: Lease<T>,
)
    requires
        s.ids_apart(ident),
        s.unknown(ident, lease.id),
        ident(lease.message) == lease.id,
    ensures
        s.grant(lease).ids_apart(ident),
        s.grant(lease).leases == s.leases.push(lease),
        s.grant(lease).pending == s.pending,
        s.grant(lease).has_lease(lease.id),
        s.grant(lease).lease(lease.id) == lease,
        forall|other: Seq<char>|
            other != lease.id ==> #[trigger] s.grant(lease).has_lease(other) == s.has_lease(other),
        forall|other: Seq<char>|
            other != lease.id && s.has_lease(other) ==> #[trigger] s.grant(lease).lease(other)
                == s.lease(other),
{
    let g = s.grant(lease);
    let n = s.leases.len() as int;
    assert forall|i: int, j: int| 0 <= i < j < g.leases.len() implies g.leases[i].id
        != g.leases[j].id by {
        if j == n {
            assert(s.leases[i].id != lease.id);
        }
    }
    assert(g.leases[n] == lease);
    lemma_lease_at(g, n);
    assert forall|t: Seq<char>, i: int| 0 <= i < g.queued(t).len() implies !g.has_lease(
        #[trigger] g.queued_id(ident, t, i),
    ) by {
        let q = g.queued_id(ident, t, i);
        assert(q == s.queued_id(ident, t, i));
        assert(!s.has_lease(q));
        assert(!s.holds_queued(ident, t, lease.id));
        if g.has_lease(q) {
            let k = g.lease_slot(q);
            if k < n {
                assert(s.leases[k].id == q);
            }
        }
    }
    assert forall|t: Seq<char>, i: int, u: Seq<char>, j: int|
        0 <= i < g.queued(t).len() && 0 <= j < g.queued(u).len() && #[trigger] g.queued_id(ident, t, i)
            == #[trigger] g.queued_id(ident, u, j) implies t == u && i == j by {
        assert(s.queued_id(ident, t, i) == s.queued_id(ident, u, j));
    }
    assert forall|other: Seq<char>| other != lease.id implies #[trigger] g.has_lease(other)
        == s.has_lease(other) by {
        if g.has_lease(other) {
            let k = g.lease_slot(other);
            assert(s.leases[k].id == other);
        }
        if s.has_lease(other) {
            let k = s.lease_slot(other);
            assert(g.leases[k].id == other);
        }
    }
    assert forall|other: Seq<char>| other != lease.id && s.has_lease(other) implies #[trigger] g.lease(
        other,
    ) == s.lease(other) by {
        let k = s.lease_slot(other);
        assert(g.leases[k] == s.leases[k]);
        lemma_lease_at(g, k);
    }
}

/// One operation on a delivery queue. A leased fetch comes with what it did:
/// the message it handed out, if any, and the clone of it that the lease keeps.
pub enum Op<T> {
    Enqueue { topic: Seq<char>, message: T },
    Dequeue { topic: Seq<char> },
    LeasedFetch { topic: Seq<char>, timeout: Option<u64>, now: nat, fetched: Option<(T, T)> },
    Ack { id: Seq<char> },
    Nack { id: Seq<char>, requeue: bool },
}

impl<T> Op<T> {
    /// `op` acknowledges or rejects the lease of `id`.
    pub open spec fn settles(self, id: Seq<char>) -> bool {
        match self {
            Op::Ack { id: settled } => settled == id,
            Op::Nack { id: settled, requeue } => settled == id,
            _ => false,
        }
    }

    /// `op` hands out a message of the id `id`.
    pub open spec fn hands_out(self, ident: spec_fn(T) -> Seq<char>, pre: QueueState<T>, id: Seq<char>) -> bool {
        match self {
            Op::Dequeue { topic } => pre.head(topic) matches Some(message) && ident(message) == id,
            Op::LeasedFetch { topic, timeout, now, fetched: Some(pair) } => ident(pair.0) == id,
            _ => false,
        }
    }
}

/// The id of a message that carries its own.
pub open spec fn own_id<T: Identifiable>() -> spec_fn(T) -> Seq<char> {
    |message: T| message.spec_id()
}

impl<T> QueueState<T> {
    /// `op` leads from this state to `post`, where `ident` names the messages.
    pub open spec fn step(self, ident: spec_fn(T) -> Seq<char>, op: Op<T>, post: Self) -> bool {
        match op {
            Op::Enqueue { topic, message } => post == self.enqueue(topic, message),
            Op::Dequeue { topic } => post == self.dequeue(topic),
            Op::LeasedFetch { topic, timeout, now, fetched } => {
                let swept = self.swept(topic, timeout, now);
                match fetched {
                    Some(pair) => swept.head(topic) == Some(pair.0) && post == swept.dequeue(
                        topic,
                    ).grant(Lease { id: ident(pair.0), message: pair.1, topic, leased_at: now }),
                    None => swept.head(topic) is None && post == swept,
                }
            },
            Op::Ack { id } => post == self.ack(id),
            Op::Nack { id, requeue } => post == self.nack(id, requeue),
        }
    }

    /// `op` respects identity: a message that comes in carries an id that is
    /// nowhere, and the clone that a lease keeps carries the id of the message
    /// it was made of.
    pub open spec fn respects_ids(self, ident: spec_fn(T) -> Seq<char>, op: Op<T>) -> bool {
        match op {
            Op::Enqueue { topic, message } => self.unknown(ident, ident(message)),
            Op::LeasedFetch { topic, timeout, now, fetched: Some(pair) } => ident(pair.1) == ident(
                pair.0,
            ),
            _ => true,
        }
    }

    /// `op` is a leased fetch with a timeout under which the lease of `id` has
    /// expired on the topic of the fetch.
    pub open spec fn takes_back(self, op: Op<T>, id: Seq<char>) -> bool {
        op matches Op::LeasedFetch { topic, timeout: Some(ms), now, fetched } && self.lease(
            id,
        ).expired(topic, ms as nat, now)
    }
}

/// A leased fetch, as the queue promises it, is a step of the queue.
pub proof fn lemma_leased_fetch_is_step<T: Clone + Identifiable>(
    pre: QueueState<T>,
    topic: Seq<char>,
    timeout: Option<u64>,
    now: nat,
    post: QueueState<T>,
    fetched: Option<T>,
)
    requires
        pre.leased_fetch(topic, timeout, now, post, fetched),
    ensures
        pre.step(
            own_id(),
            Op::LeasedFetch {
                topic,
                timeout,
                now,
                fetched: match fetched {
                    Some(message) => Some((message, post.lease(message.spec_id()).message)),
                    None => None,
                },
            },
            post,
        ),
{
}

/// The pieces of a leased fetch that hands out a message.
pub proof fn lemma_leased_fetch<T>(
    pre: QueueState<T>,
    ident: spec_fn(T) -> Seq<char>,
    topic: Seq<char>,
    timeout: Option<u64>,
    now: nat,
    post: QueueState<T>,
    message: T,
    kept: T,
)
    requires
        pre.ids_apart(ident),
        pre.step(ident, Op::LeasedFetch { topic, timeout, now, fetched: Some((message, kept)) }, post),
        ident(kept) == ident(message),
    ensures
        pre.swept(topic, timeout, now).ids_apart(ident),
        pre.swept(topic, timeout, now).dequeue(topic).ids_apart(ident),
        pre.swept(topic, timeout, now).dequeue(topic).unknown(ident, ident(message)),
        pre.swept(topic, timeout, now).holds_queued(ident, topic, ident(message)),
        post.ids_apart(ident),
        post.pending == pre.swept(topic, timeout, now).dequeue(topic).pending,
        post.has_lease(ident(message)),
        post.lease(ident(message)) == (Lease {
            id: ident(message),
            message: kept,
            topic,
            leased_at: now,
        }),
        forall|other: Seq<char>|
            other != ident(message) ==> #[trigger] post.has_lease(other) == pre.swept(
                topic,
                timeout,
                now,
            ).has_lease(other),
        forall|other: Seq<char>|
            other != ident(message) && pre.swept(topic, timeout, now).has_lease(other)
                ==> #[trigger] post.lease(other) == pre.swept(topic, timeout, now).lease(other),
{
    let sw = pre.swept(topic, timeout, now);
    if let Some(ms) = timeout {
        lemma_sweep_keeps_ids_apart(pre, ident, topic, ms as nat, now);
    }
    let d = sw.dequeue(topic);
    lemma_dequeue_keeps_ids_apart(sw, ident, topic);
    let id = ident(message);
    assert(sw.queued_id(ident, topic, 0) == id);
    assert(sw.holds_queued(ident, topic, id));
    assert(!sw.has_lease(id));
    assert forall|t: Seq<char>| !#[trigger] d.holds_queued(ident, t, id) by {}
    let lease = Lease { id, message: kept, topic, leased_at: now };
    lemma_grant_keeps_ids_apart(d, ident, lease);
}

/// Every operation that respects identity keeps every id in one place: an id
/// stands once in one queue or once in the table of leases, never in both.
pub proof fn law_ids_stay_apart<T>(
    pre: QueueState<T>,
    ident: spec_fn(T) -> Seq<char>,
    op: Op<T>,
    post: QueueState<T>,
)
    requires
        pre.ids_apart(ident),
        pre.step(ident, op, post),
        pre.respects_ids(ident, op),
    ensures
        post.ids_apart(ident),
{
    match op {
        Op::Enqueue { topic, message } => {
            lemma_join_keeps_ids_apart(pre, ident, topic, message, false, post);
        },
        Op::Dequeue { topic } => {
            lemma_dequeue_keeps_ids_apart(pre, ident, topic);
        },
        Op::LeasedFetch { topic, timeout, now, fetched } => {
            match fetched {
                Some(pair) => {
                    lemma_leased_fetch(pre, ident, topic, timeout, now, post, pair.0, pair.1);
                },
                None => {
                    if let Some(ms) = timeout {
                        lemma_sweep_keeps_ids_apart(pre, ident, topic, ms as nat, now);
                    }
                },
            }
        },
        Op::Ack { id } => {
            lemma_release_keeps_ids_apart(pre, ident, id);
        },
        Op::Nack { id, requeue } => {
            lemma_release_keeps_ids_apart(pre, ident, id);
            if requeue && pre.has_lease(id) {
                let l = pre.lease(id);
                lemma_lease_at(pre, pre.lease_slot(id));
                lemma_join_keeps_ids_apart(pre.release(id), ident, l.topic, l.message, true, post);
            }
        },
    }
}

/// A message that a leased fetch hands out is held under a lease on the topic,
/// started at the reading of the fetch, and waits in no queue.
pub proof fn law_lease_hides_message<T>(
    pre: QueueState<T>,
    ident: spec_fn(T) -> Seq<char>,
    topic: Seq<char>,
    timeout: Option<u64>,
    now: nat,
    post: QueueState<T>,
    message: T,
    kept: T,
)
    requires
        pre.ids_apart(ident),
        pre.step(ident, Op::LeasedFetch { topic, timeout, now, fetched: Some((message, kept)) }, post),
        ident(kept) == ident(message),
    ensures
        post.has_lease(ident(message)),
        post.lease(ident(message)).message == kept,
        post.lease(ident(message)).topic == topic,
        post.lease(ident(message)).leased_at == now,
        forall|t: Seq<char>| !#[trigger] post.holds_queued(ident, t, ident(message)),
{
    lemma_leased_fetch(pre, ident, topic, timeout, now, post, message, kept);
    assert forall|t: Seq<char>| !#[trigger] post.holds_queued(ident, t, ident(message)) by {
        if post.holds_queued(ident, t, ident(message)) {
            let i = choose|i: int|
                0 <= i < post.queued(t).len() && #[trigger] post.queued_id(ident, t, i) == ident(
                    message,
                );
            assert(!post.has_lease(post.queued_id(ident, t, i)));
        }
    }
}

/// A message in flight stays in flight, and out of every queue and every
/// fetch, through each operation but three: its acknowledgment, its
/// rejection, and a leased fetch on its topic with a timeout under which its
/// lease has expired. The clock alone takes back nothing.
pub proof fn law_lease_lasts<T>(
    pre: QueueState<T>,
    ident: spec_fn(T) -> Seq<char>,
    op: Op<T>,
    post: QueueState<T>,
    id: Seq<char>,
)
    requires
        pre.ids_apart(ident),
        pre.has_lease(id),
        pre.step(ident, op, post),
        pre.respects_ids(ident, op),
        !op.settles(id),
        !pre.takes_back(op, id),
    ensures
        post.has_lease(id),
        post.lease(id) == pre.lease(id),
        forall|t: Seq<char>| !#[trigger] post.holds_queued(ident, t, id),
        !op.hands_out(ident, pre, id),
{
    law_ids_stay_apart(pre, ident, op, post);
    match op {
        Op::Enqueue { topic, message } => {},
        Op::Dequeue { topic } => {
            if pre.queued(topic).len() > 0 {
                assert(!pre.has_lease(pre.queued_id(ident, topic, 0)));
            }
        },
        Op::LeasedFetch { topic, timeout, now, fetched } => {
            let sw = pre.swept(topic, timeout, now);
            if let Some(ms) = timeout {
                lemma_sweep_lease(pre, topic, ms as nat, now, id);
            }
            if let Some(pair) = fetched {
                lemma_leased_fetch(pre, ident, topic, timeout, now, post, pair.0, pair.1);
                assert(sw.queued_id(ident, topic, 0) == ident(pair.0));
                assert(!sw.has_lease(sw.queued_id(ident, topic, 0)));
            }
        },
        Op::Ack { id: settled } => {
            lemma_release_other(pre, settled, id);
        },
        Op::Nack { id: settled, requeue } => {
            lemma_release_other(pre, settled, id);
        },
    }
    assert forall|t: Seq<char>| !#[trigger] post.holds_queued(ident, t, id) by {
        if post.holds_queued(ident, t, id) {
            let i = choose|i: int|
                0 <= i < post.queued(t).len() && #[trigger] post.queued_id(ident, t, i) == id;
            assert(!post.has_lease(post.queued_id(ident, t, i)));
        }
    }
}

/// The sweep is lazy: however long ago a lease began, it stays in the table,
/// and its message out of the queue, through every operation that is not a
/// leased fetch on the topic of the lease (nor settles the lease).
pub proof fn law_sweep_is_lazy<T>(
    pre: QueueState<T>,
    ident: spec_fn(T) -> Seq<char>,
    op: Op<T>,
    post: QueueState<T>,
    id: Seq<char>,
)
    requires
        pre.ids_apart(ident),
        pre.has_lease(id),
        pre.step(ident, op, post),
        pre.respects_ids(ident, op),
        !op.settles(id),
        op matches Op::LeasedFetch { topic, timeout, now, fetched } ==> topic != pre.lease(
            id,
        ).topic,
    ensures
        post.has_lease(id),
        post.lease(id) == pre.lease(id),
        !post.holds_queued(ident, pre.lease(id).topic, id),
{
    law_lease_lasts(pre, ident, op, post, id);
}

/// A leased fetch with a timeout takes back a lease that has expired on its
/// topic: the message is handed out by this very fetch under a new lease, or
/// it waits in the queue of the topic again, no longer in flight.
pub proof fn law_expired_lease_returns<T>(
    pre: QueueState<T>,
    ident: spec_fn(T) -> Seq<char>,
    topic: Seq<char>,
    timeout_ms: u64,
    now: nat,
    post: QueueState<T>,
    fetched: Option<(T, T)>,
    id: Seq<char>,
)
    requires
        pre.ids_apart(ident),
        pre.has_lease(id),
        pre.lease(id).expired(topic, timeout_ms as nat, now),
        pre.step(ident, Op::LeasedFetch { topic, timeout: Some(timeout_ms), now, fetched }, post),
        pre.respects_ids(ident, Op::LeasedFetch { topic, timeout: Some(timeout_ms), now, fetched }),
    ensures
        fetched matches Some(pair) && if ident(pair.0) == id {
            post.has_lease(id) && post.lease(id).leased_at == now
        } else {
            !post.has_lease(id) && post.holds_queued(ident, topic, id)
        },
{
    let sw = pre.sweep(topic, timeout_ms as nat, now);
    lemma_sweep_keeps_ids_apart(pre, ident, topic, timeout_ms as nat, now);
    lemma_sweep_lease(pre, topic, timeout_ms as nat, now, id);
    assert(sw.holds_queued(ident, topic, id));
    let pair = fetched->0;
    lemma_leased_fetch(pre, ident, topic, Some(timeout_ms), now, post, pair.0, pair.1);
    lemma_dequeue_keeps_ids_apart(sw, ident, topic);
    if ident(pair.0) != id {
        let d = sw.dequeue(topic);
        assert(d.holds_queued(ident, topic, id));
        let i = choose|i: int|
            0 <= i < d.queued(topic).len() && #[trigger] d.queued_id(ident, topic, i) == id;
        assert(post.queued_id(ident, topic, i) == id);
    }
}

/// After its acknowledgment, or its rejection without requeue, a message in
/// flight is nowhere.
pub proof fn law_settled_is_gone<T>(
    pre: QueueState<T>,
    ident: spec_fn(T) -> Seq<char>,
    id: Seq<char>,
)
    requires
        pre.ids_apart(ident),
        pre.has_lease(id),
    ensures
        pre.ack(id).unknown(ident, id),
        pre.nack(id, false).unknown(ident, id),
{
    lemma_release_keeps_ids_apart(pre, ident, id);
}

/// A message that an auto-acknowledged fetch hands out is nowhere afterwards.
pub proof fn law_auto_fetch_is_final<T>(
    pre: QueueState<T>,
    ident: spec_fn(T) -> Seq<char>,
    topic: Seq<char>,
    message: T,
)
    requires
        pre.ids_apart(ident),
        pre.head(topic) == Some(message),
    ensures
        pre.dequeue(topic).unknown(ident, ident(message)),
{
    lemma_dequeue_keeps_ids_apart(pre, ident, topic);
    assert(pre.queued_id(ident, topic, 0) == ident(message));
    assert(!pre.has_lease(pre.queued_id(ident, topic, 0)));
}

/// An id that is nowhere stays nowhere, and no fetch hands it out: no
/// operation brings it back but the arrival of a new message that carries it.
pub proof fn law_gone_stays_gone<T>(
    pre: QueueState<T>,
    ident: spec_fn(T) -> Seq<char>,
    op: Op<T>,
    post: QueueState<T>,
    id: Seq<char>,
)
    requires
        pre.ids_apart(ident),
        pre.unknown(ident, id),
        pre.step(ident, op, post),
        pre.respects_ids(ident, op),
        op matches Op::Enqueue { topic, message } ==> ident(message) != id,
    ensures
        post.unknown(ident, id),
        !op.hands_out(ident, pre, id),
{
    match op {
        Op::Enqueue { topic, message } => {
            lemma_join_keeps_ids_apart(pre, ident, topic, message, false, post);
        },
        Op::Dequeue { topic } => {
            lemma_dequeue_keeps_ids_apart(pre, ident, topic);
            if pre.queued(topic).len() > 0 {
                assert(!pre.holds_queued(ident, topic, id));
                assert(pre.queued_id(ident, topic, 0) != id);
            }
        },
        Op::LeasedFetch { topic, timeout, now, fetched } => {
            let sw = pre.swept(topic, timeout, now);
            if let Some(ms) = timeout {
                lemma_sweep_keeps_ids_apart(pre, ident, topic, ms as nat, now);
                lemma_sweep_lease(pre, topic, ms as nat, now, id);
            }
            assert(sw.unknown(ident, id));
            if let Some(pair) = fetched {
                lemma_leased_fetch(pre, ident, topic, timeout, now, post, pair.0, pair.1);
                assert(!sw.holds_queued(ident, topic, id));
                lemma_dequeue_keeps_ids_apart(sw, ident, topic);
                let d = sw.dequeue(topic);
                assert forall|t: Seq<char>| !#[trigger] post.holds_queued(ident, t, id) by {
                    if post.holds_queued(ident, t, id) {
                        let i = choose|i: int|
                            0 <= i < post.queued(t).len() && #[trigger] post.queued_id(ident, t, i)
                                == id;
                        assert(d.queued_id(ident, t, i) == id);
                        assert(d.holds_queued(ident, t, id));
                    }
                }
            }
        },
        Op::Ack { id: settled } => {
            lemma_release(pre, settled);
            if settled != id {
                lemma_release_other(pre, settled, id);
            }
            let r = pre.release(settled);
            assert forall|t: Seq<char>| !#[trigger] r.holds_queued(ident, t, id) by {
                if r.holds_queued(ident, t, id) {
                    let i = choose|i: int|
                        0 <= i < r.queued(t).len() && #[trigger] r.queued_id(ident, t, i) == id;
                    assert(pre.queued_id(ident, t, i) == id);
                    assert(pre.holds_queued(ident, t, id));
                }
            }
        },
        Op::Nack { id: settled, requeue } => {
            lemma_release(pre, settled);
            lemma_release_keeps_ids_apart(pre, ident, settled);
            if settled != id {
                lemma_release_other(pre, settled, id);
            }
            let r = pre.release(settled);
            assert forall|t: Seq<char>| !#[trigger] r.holds_queued(ident, t, id) by {
                if r.holds_queued(ident, t, id) {
                    let i = choose|i: int|
                        0 <= i < r.queued(t).len() && #[trigger] r.queued_id(ident, t, i) == id;
                    assert(pre.queued_id(ident, t, i) == id);
                    assert(pre.holds_queued(ident, t, id));
                }
            }
            if requeue && pre.has_lease(settled) {
                let l = pre.lease(settled);
                lemma_lease_at(pre, pre.lease_slot(settled));
                lemma_join_keeps_ids_apart(r, ident, l.topic, l.message, true, post);
            }
        },
    }
}

/// A rejection with requeue puts the message at the head of the queue of its
/// topic: it is the next to be fetched there, before every message that waited
/// and every message that arrives later.
pub proof fn law_nack_requeue_goes_first<T>(pre: QueueState<T>, id: Seq<char>, later: T)
    requires
        pre.wf(),
        pre.has_lease(id),
    ensures
        !pre.nack(id, true).has_lease(id),
        pre.nack(id, true).queued(pre.lease(id).topic) == seq![pre.lease(id).message] + pre.queued(
            pre.lease(id).topic,
        ),
        pre.nack(id, true).head(pre.lease(id).topic) == Some(pre.lease(id).message),
        pre.nack(id, true).enqueue(pre.lease(id).topic, later).head(pre.lease(id).topic) == Some(
            pre.lease(id).message,
        ),
{
    lemma_release(pre, id);
}

/// The unread count of a topic is the length of its queue: a leased fetch takes
/// the message out of the count though the message is still held, in flight.
pub proof fn law_in_flight_is_not_unread<T>(
    pre: QueueState<T>,
    ident: spec_fn(T) -> Seq<char>,
    topic: Seq<char>,
    now: nat,
    post: QueueState<T>,
    message: T,
    kept: T,
)
    requires
        pre.wf(),
        pre.step(ident, Op::LeasedFetch { topic, timeout: None, now, fetched: Some((message, kept)) }, post),
    ensures
        post.queued(topic).len() == pre.queued(topic).len() - 1,
        post.queued(topic) == pre.queued(topic).drop_first(),
        post.has_lease(ident(message)),
{
    let d = pre.dequeue(topic);
    let lease = Lease { id: ident(message), message: kept, topic, leased_at: now };
    if d.has_lease(lease.id) {
        let k = d.lease_slot(lease.id);
        assert(post.leases[k].id == lease.id);
    } else {
        assert(post.leases[d.leases.len() as int].id == lease.id);
    }
}

} // verus!
