//! What every transport offers, and the handles it gives out.

use vstd::prelude::*;
use crate::address::Address;
use crate::address::AddressView;
use crate::error::MailboxError;
use crate::message::FetchOptions;
use crate::message::MailMessage;
use crate::message::MailboxStatus;

verus! {

/// A message on its way to one subscriber: the transport has started the
/// delivery, whoever takes it over hands the message to the subscriber.
pub struct Delivery {
    pub listener: u64,
    pub message: MailMessage,
}

/// A transport for one address scheme. Each operation comes with a relation
/// between the transport before it, its arguments, the transport after it and
/// its outcome, which the implementation defines and meets.
pub trait MailboxProvider: Sized {
    /// What `subscribe` hands out.
    type Handle;

    /// The transport is in good order.
    spec fn wf(&self) -> bool;

    /// The scheme that this transport serves.
    spec fn spec_protocol(&self) -> Seq<char>;

    spec fn sent(
        pre: Self,
        message: MailMessage,
        post: Self,
        outcome: Result<MailMessage, MailboxError>,
    ) -> bool;

    spec fn subscribed(
        pre: Self,
        address: AddressView,
        post: Self,
        outcome: Result<Self::Handle, MailboxError>,
    ) -> bool;

    spec fn fetched(
        pre: Self,
        address: AddressView,
        options: FetchOptions,
        post: Self,
        outcome: Result<Option<AckableMessage>, MailboxError>,
    ) -> bool;

    spec fn reported(&self, address: AddressView, outcome: Result<MailboxStatus, MailboxError>) -> bool;

    /// The lease of `id` is settled: acknowledged where `requeue` is `None`,
    /// rejected otherwise.
    spec fn settled(pre: Self, id: Seq<char>, requeue: Option<bool>, post: Self) -> bool;

    /// The started deliveries are handed over.
    spec fn drained(pre: Self, post: Self, deliveries: Seq<Delivery>) -> bool;

    fn protocol(&self) -> (scheme: &str)
        requires
            self.wf(),
        ensures
            scheme@ == self.spec_protocol(),
    ;

    /// Delivers `message` and hands it back, under a new id where it came without one.
    fn send(&mut self, message: MailMessage) -> (outcome: Result<MailMessage, MailboxError>)
        requires
            old(self).wf(),
        ensures
            final(self).wf(),
            final(self).spec_protocol() == old(self).spec_protocol(),
            Self::sent(*old(self), message, *final(self), outcome),
    ;

    fn subscribe(&mut self, address: &Address) -> (outcome: Result<Self::Handle, MailboxError>)
        requires
            old(self).wf(),
        ensures
            final(self).wf(),
            final(self).spec_protocol() == old(self).spec_protocol(),
            Self::subscribed(*old(self), address@, *final(self), outcome),
    ;

    fn fetch(&mut self, address: &Address, options: FetchOptions) -> (outcome: Result<
        Option<AckableMessage>,
        MailboxError,
    >)
        requires
            old(self).wf(),
        ensures
            final(self).wf(),
            final(self).spec_protocol() == old(self).spec_protocol(),
            Self::fetched(*old(self), address@, options, *final(self), outcome),
    ;

    fn status(&self, address: &Address) -> (outcome: Result<MailboxStatus, MailboxError>)
        requires
            self.wf(),
        ensures
            self.reported(address@, outcome),
    ;

    /// A new id; it is never empty.
    fn generate_id(&self) -> (id: String)
        ensures
            id@.len() > 0,
    ;

    fn ack(&mut self, message_id: &str) -> (outcome: Result<(), MailboxError>)
        requires
            old(self).wf(),
        ensures
            final(self).wf(),
            final(self).spec_protocol() == old(self).spec_protocol(),
            outcome is Ok,
            Self::settled(*old(self), message_id@, None, *final(self)),
    ;

    fn nack(&mut self, message_id: &str, requeue: bool) -> (outcome: Result<(), MailboxError>)
        requires
            old(self).wf(),
        ensures
            final(self).wf(),
            final(self).spec_protocol() == old(self).spec_protocol(),
            outcome is Ok,
            Self::settled(*old(self), message_id@, Some(requeue), *final(self)),
    ;

    /// Hands over the deliveries that `send` has started since the last call,
    /// in the order in which they were started.
    fn take_deliveries(&mut self) -> (deliveries: Vec<Delivery>)
        requires
            old(self).wf(),
        ensures
            final(self).wf(),
            final(self).spec_protocol() == old(self).spec_protocol(),
            Self::drained(*old(self), *final(self), deliveries@),
    ;
}

/// A standing subscription with a transport of type `P`.
pub trait Subscription<P: MailboxProvider> {
    /// The subscription has been ended with `pre`, which left `post`.
    spec fn ended(&self, pre: P, post: P) -> bool;

    /// Ends the subscription. Ending it twice is no error.
    fn unsubscribe(&mut self, provider: &mut P) -> (outcome: Result<(), MailboxError>)
        requires
            old(provider).wf(),
        ensures
            final(provider).wf(),
            final(provider).spec_protocol() == old(provider).spec_protocol(),
            outcome is Ok,
            old(self).ended(*old(provider), *final(provider)),
    ;
}

/// A fetched message together with what is owed for it: a message fetched
/// under a lease is to be acknowledged or rejected, one fetched without is
/// final as it is.
pub struct AckableMessage {
    pub message: MailMessage,
    /// Whether the message is held under a lease.
    pub leased: bool,
}

impl AckableMessage {
    /// Acknowledges the message: its lease, if it has one, is settled for good.
    pub fn ack<P: MailboxProvider>(self, provider: &mut P) -> (outcome: Result<(), MailboxError>)
        requires
            old(provider).wf(),
        ensures
            final(provider).wf(),
            final(provider).spec_protocol() == old(provider).spec_protocol(),
            outcome is Ok,
            if self.leased {
                P::settled(*old(provider), self.message.id@, None, *final(provider))
            } else {
                *final(provider) == *old(provider)
            },
    {
        if self.leased {
            provider.ack(self.message.id.as_str())
        } else {
            Ok(())
        }
    }

    /// Rejects the message: with `requeue` it returns to the head of its
    /// queue. A message that was fetched without a lease is not touched.
    pub fn nack<P: MailboxProvider>(self, provider: &mut P, requeue: bool) -> (outcome: Result<
        (),
        MailboxError,
    >)
        requires
            old(provider).wf(),
        ensures
            final(provider).wf(),
            final(provider).spec_protocol() == old(provider).spec_protocol(),
            outcome is Ok,
            if self.leased {
                P::settled(*old(provider), self.message.id@, Some(requeue), *final(provider))
            } else {
                *final(provider) == *old(provider)
            },
    {
        if self.leased {
            provider.nack(self.message.id.as_str(), requeue)
        } else {
            Ok(())
        }
    }
}

} // verus!
