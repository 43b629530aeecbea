//! The delivery queue of mail, seen through the views of its messages.

use vstd::prelude::*;
use crate::message::Identifiable;
use crate::message::MailMessage;
use crate::message::MailMessageView;
use crate::providers::queue::messages_of;
use crate::providers::queue::Lease;
use crate::providers::queue::QueueState;
use crate::providers::queue_proofs::lemma_lease_at;
use crate::providers::queue_proofs::Op;

verus! {

pub open spec fn message_views(messages: Seq<MailMessage>) -> Seq<MailMessageView> {
    messages.map_values(|m: MailMessage| m@)
}

pub open spec fn lease_view(lease: Lease<MailMessage>) -> Lease<MailMessageView> {
    Lease { id: lease.id, message: lease.message@, topic: lease.topic, leased_at: lease.leased_at }
}

pub open spec fn lease_views(leases: Seq<Lease<MailMessage>>) -> Seq<Lease<MailMessageView>> {
    leases.map_values(|l: Lease<MailMessage>| lease_view(l))
}

/// The state of a queue of mail with each message replaced by its view.
pub open spec fn queue_view(q: QueueState<MailMessage>) -> QueueState<MailMessageView> {
    QueueState {
        pending: q.pending.map_values(|s: Seq<MailMessage>| message_views(s)),
        leases: lease_views(q.leases),
    }
}

/// What a leased fetch on `topic` at the reading `now` hands out.
pub open spec fn leased_head(
    q: QueueState<MailMessageView>,
    topic: Seq<char>,
    timeout: Option<u64>,
    now: nat,
) -> Option<MailMessageView> {
    q.swept(topic, timeout, now).head(topic)
}

/// The state after a leased fetch on `topic` at the reading `now`: the
/// expired leases of the topic are back in its queue, and the head of the
/// queue, if there is one, is in flight under its own id.
pub open spec fn after_leased_fetch(
    q: QueueState<MailMessageView>,
    topic: Seq<char>,
    timeout: Option<u64>,
    now: nat,
) -> QueueState<MailMessageView> {
    let swept = q.swept(topic, timeout, now);
    match swept.head(topic) {
        Some(message) => swept.dequeue(topic).grant(
            Lease { id: message.id, message, topic, leased_at: now },
        ),
        None => swept,
    }
}

/// The id that a message carries.
pub open spec fn mail_id() -> spec_fn(MailMessageView) -> Seq<char> {
    |message: MailMessageView| message.id
}

/// A leased fetch as an operation of the queue: the lease keeps the message
/// that is handed out.
pub open spec fn leased_fetch_op(
    q: QueueState<MailMessageView>,
    topic: Seq<char>,
    timeout: Option<u64>,
    now: nat,
) -> Op<MailMessageView> {
    Op::LeasedFetch {
        topic,
        timeout,
        now,
        fetched: match leased_head(q, topic, timeout, now) {
            Some(message) => Some((message, message)),
            None => None,
        },
    }
}

/// A leased fetch on mail is a step of the queue, and respects identity.
pub proof fn lemma_leased_fetch_steps(
    q: QueueState<MailMessageView>,
    topic: Seq<char>,
    timeout: Option<u64>,
    now: nat,
)
    ensures
        q.step(
            mail_id(),
            leased_fetch_op(q, topic, timeout, now),
            after_leased_fetch(q, topic, timeout, now),
        ),
        q.respects_ids(mail_id(), leased_fetch_op(q, topic, timeout, now)),
{
}

pub proof fn lemma_view_queued(q: QueueState<MailMessage>, topic: Seq<char>)
    ensures
        queue_view(q).queued(topic) == message_views(q.queued(topic)),
        queue_view(q).queued(topic).len() == q.queued(topic).len(),
        queue_view(q).head(topic) == match q.head(topic) {
            Some(message) => Some(message@),
            None => None,
        },
{
    assert(queue_view(q).queued(topic) =~= message_views(q.queued(topic)));
}

pub proof fn lemma_view_enqueue(q: QueueState<MailMessage>, topic: Seq<char>, message: MailMessage)
    ensures
        queue_view(q.enqueue(topic, message)) == queue_view(q).enqueue(topic, message@),
        queue_view(q.requeue(topic, message)) == queue_view(q).requeue(topic, message@),
{
    lemma_view_queued(q, topic);
    assert(message_views(q.queued(topic).push(message)) =~= message_views(q.queued(topic)).push(
        message@,
    ));
    assert(message_views(seq![message] + q.queued(topic)) =~= seq![message@] + message_views(
        q.queued(topic),
    ));
    assert(queue_view(q.enqueue(topic, message)).pending =~= queue_view(q).enqueue(
        topic,
        message@,
    ).pending);
    assert(queue_view(q.requeue(topic, message)).pending =~= queue_view(q).requeue(
        topic,
        message@,
    ).pending);
}

pub proof fn lemma_view_dequeue(q: QueueState<MailMessage>, topic: Seq<char>)
    ensures
        queue_view(q.dequeue(topic)) == queue_view(q).dequeue(topic),
{
    lemma_view_queued(q, topic);
    if q.queued(topic).len() > 0 {
        assert(message_views(q.queued(topic).drop_first()) =~= message_views(
            q.queued(topic),
        ).drop_first());
        assert(queue_view(q.dequeue(topic)).pending =~= queue_view(q).dequeue(topic).pending);
    }
}

/// The views keep the ids, and so the places, of the leases.
pub proof fn lemma_view_lease(q: QueueState<MailMessage>, id: Seq<char>)
    requires
        q.wf(),
    ensures
        queue_view(q).wf(),
        queue_view(q).has_lease(id) == q.has_lease(id),
        q.has_lease(id) ==> queue_view(q).lease_slot(id) == q.lease_slot(id) && queue_view(q).lease(
            id,
        ) == lease_view(q.lease(id)),
{
    let v = queue_view(q);
    if q.has_lease(id) {
        let k = q.lease_slot(id);
        assert(v.leases[k].id == id);
        lemma_lease_at(v, k);
    }
    if v.has_lease(id) {
        let k = v.lease_slot(id);
        assert(q.leases[k].id == id);
    }
}

pub proof fn lemma_view_release(q: QueueState<MailMessage>, id: Seq<char>)
    requires
        q.wf(),
    ensures
        queue_view(q.release(id)) == queue_view(q).release(id),
        queue_view(q.nack(id, true)) == queue_view(q).nack(id, true),
        queue_view(q.nack(id, false)) == queue_view(q).nack(id, false),
{
    lemma_view_lease(q, id);
    if q.has_lease(id) {
        let k = q.lease_slot(id);
        assert(lease_views(q.leases.remove(k)) =~= lease_views(q.leases).remove(k));
        lemma_view_enqueue(q.release(id), q.lease(id).topic, q.lease(id).message);
    }
}

pub proof fn lemma_view_grant(q: QueueState<MailMessage>, lease: Lease<MailMessage>)
    requires
        q.wf(),
    ensures
        queue_view(q.grant(lease)) == queue_view(q).grant(lease_view(lease)),
{
    lemma_view_lease(q, lease.id);
    if q.has_lease(lease.id) {
        let k = q.lease_slot(lease.id);
        assert(lease_views(q.leases.update(k, lease)) =~= lease_views(q.leases).update(
            k,
            lease_view(lease),
        ));
    } else {
        assert(lease_views(q.leases.push(lease)) =~= lease_views(q.leases).push(lease_view(lease)));
    }
}

/// Whether a lease has expired does not depend on what its message holds.
proof fn lemma_view_filter(
    leases: Seq<Lease<MailMessage>>,
    topic: Seq<char>,
    timeout_ms: nat,
    now: nat,
)
    ensures
        lease_views(leases.filter(Lease::expired_on(topic, timeout_ms, now))) == lease_views(
            leases,
        ).filter(Lease::expired_on(topic, timeout_ms, now)),
        lease_views(leases.filter(Lease::live_on(topic, timeout_ms, now))) == lease_views(
            leases,
        ).filter(Lease::live_on(topic, timeout_ms, now)),
    decreases leases.len(),
{
    reveal(Seq::filter);
    if leases.len() > 0 {
        let front = leases.drop_last();
        lemma_view_filter(front, topic, timeout_ms, now);
        assert(lease_views(leases).drop_last() =~= lease_views(front));
        assert(lease_views(leases).last() == lease_view(leases.last()));
        let gone = Lease::<MailMessage>::expired_on(topic, timeout_ms, now);
        let stays = Lease::<MailMessage>::live_on(topic, timeout_ms, now);
        assert(lease_views(front.filter(gone).push(leases.last())) =~= lease_views(
            front.filter(gone),
        ).push(lease_view(leases.last())));
        assert(lease_views(front.filter(stays).push(leases.last())) =~= lease_views(
            front.filter(stays),
        ).push(lease_view(leases.last())));
    } else {
        assert(lease_views(leases) =~= Seq::empty());
    }
}

pub proof fn lemma_view_sweep(
    q: QueueState<MailMessage>,
    topic: Seq<char>,
    timeout: Option<u64>,
    now: nat,
)
    ensures
        queue_view(q.swept(topic, timeout, now)) == queue_view(q).swept(topic, timeout, now),
{
    if let Some(ms) = timeout {
        lemma_view_filter(q.leases, topic, ms as nat, now);
        lemma_view_queued(q, topic);
        let gone = q.expired_leases(topic, ms as nat, now);
        assert(message_views(messages_of(gone)) =~= messages_of(lease_views(gone)));
        assert(message_views(messages_of(gone) + q.queued(topic)) =~= messages_of(
            lease_views(gone),
        ) + message_views(q.queued(topic)));
        assert(queue_view(q.sweep(topic, ms as nat, now)).pending =~= queue_view(q).sweep(
            topic,
            ms as nat,
            now,
        ).pending);
    }
}

/// A leased fetch on a queue of mail, said over views: what it hands out and
/// the state it leaves are functions of the state before, the topic, the
/// timeout and the reading of the clock.
pub proof fn lemma_view_leased_fetch(
    pre: QueueState<MailMessage>,
    topic: Seq<char>,
    timeout: Option<u64>,
    now: nat,
    post: QueueState<MailMessage>,
    fetched: Option<MailMessage>,
)
    requires
        pre.wf(),
        pre.leased_fetch(topic, timeout, now, post, fetched),
    ensures
        queue_view(post) == after_leased_fetch(queue_view(pre), topic, timeout, now),
        leased_head(queue_view(pre), topic, timeout, now) == match fetched {
            Some(message) => Some(message@),
            None => None,
        },
{
    let swept = pre.swept(topic, timeout, now);
    lemma_view_sweep(pre, topic, timeout, now);
    lemma_view_queued(swept, topic);
    if let Some(message) = fetched {
        lemma_view_dequeue(swept, topic);
        let lease = Lease {
            id: message.spec_id(),
            message: post.lease(message.spec_id()).message,
            topic,
            leased_at: now,
        };
        if let Some(ms) = timeout {
            crate::providers::queue_proofs::lemma_sweep_lease(pre, topic, ms as nat, now, topic);
        }
        lemma_view_grant(swept.dequeue(topic), lease);
    }
}

} // verus!
