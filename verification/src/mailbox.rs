//! The router: one transport per address scheme, and each call handed to the
//! transport of the scheme of its address.

use vstd::prelude::*;
use vstd::string::StrSliceExecFns;
use vstd::string::StringExecFns;
use crate::address::Address;
use crate::error::MailboxError;
use crate::message::FetchOptions;
use crate::message::MailMessage;
use crate::message::MailboxStatus;
use crate::message::OutgoingMail;
use crate::provider::AckableMessage;
use crate::provider::Delivery;
use crate::provider::Subscription;
use crate::provider::MailboxProvider;
use crate::table::Table;

verus! {

/// The key under which the transport of `protocol` is registered: the
/// protocol without the colon that may end it.
pub open spec fn provider_key(protocol: Seq<char>) -> Seq<char> {
    if protocol.len() > 0 && protocol.last() == ':' {
        protocol.drop_last()
    } else {
        protocol
    }
}

/// Computes `provider_key`.
pub fn protocol_key(protocol: &str) -> (key: &str)
    ensures
        key@ == provider_key(protocol@),
{
    let n = protocol.unicode_len();
    if n > 0 && protocol.get_char(n - 1) == ':' {
        let key = protocol.substring_char(0, n - 1);
        assert(key@ =~= protocol@.drop_last());
        key
    } else {
        protocol
    }
}

pub struct Mailbox<P> {
    providers: Table<P>,
}

impl<P: MailboxProvider> View for Mailbox<P> {
    type V = Map<Seq<char>, P>;

    /// The registered transports by the scheme they serve.
    closed spec fn view(&self) -> Map<Seq<char>, P> {
        self.providers.map()
    }
}

impl<P: MailboxProvider> Mailbox<P> {
    /// Each transport is in good order and registered under its own scheme.
    pub closed spec fn wf(&self) -> bool {
        &&& self.providers.wf()
        &&& forall|i: int|
            0 <= i < self.providers.entries@.len() ==> {
                &&& (#[trigger] self.providers.entries@[i]).value.wf()
                &&& self.providers.entries@[i].value.spec_protocol()
                    == self.providers.entries@[i].key@
            }
    }

    pub proof fn lemma_registered(&self, scheme: Seq<char>)
        requires
            self.wf(),
            self@.contains_key(scheme),
        ensures
            self@[scheme].wf(),
            self@[scheme].spec_protocol() == scheme,
    {
        let i = self.providers.slot(scheme);
        assert(self.providers.entries@[i].value.wf());
    }

    pub fn new() -> (mailbox: Self)
        ensures
            mailbox.wf(),
            mailbox@ == Map::<Seq<char>, P>::empty(),
    {
        Mailbox { providers: Table::new() }
    }

    /// Registers `provider` for its scheme, in the place of the transport
    /// that served the scheme before, if there was one.
    pub fn register_provider(&mut self, provider: P)
        requires
            old(self).wf(),
            provider.wf(),
        ensures
            final(self).wf(),
            final(self)@ == old(self)@.insert(provider.spec_protocol(), provider),
    {
        let key = String::from_str(provider.protocol());
        let _ = self.providers.set(key, provider);
        proof {
            assert forall|i: int| 0 <= i < self.providers.entries@.len() implies {
                &&& (#[trigger] self.providers.entries@[i]).value.wf()
                &&& self.providers.entries@[i].value.spec_protocol()
                    == self.providers.entries@[i].key@
            } by {
                if i < old(self).providers.entries@.len() {
                    assert(old(self).providers.entries@[i].value.wf());
                    if old(self).providers.has(key@) {
                        old(self).providers.lemma_slot(old(self).providers.slot(key@));
                    }
                }
            }
        }
    }

    /// The place of the transport of `protocol`.
    fn get_provider(&self, protocol: &str) -> (found: Result<usize, MailboxError>)
        requires
            self.wf(),
        ensures
            match found {
                Ok(i) => {
                    &&& self@.contains_key(provider_key(protocol@))
                    &&& i < self.providers.entries@.len()
                    &&& self.providers.entries@[i as int].key@ == provider_key(protocol@)
                    &&& self.providers.slot(provider_key(protocol@)) == i
                },
                Err(error) => {
                    &&& !self@.contains_key(provider_key(protocol@))
                    &&& error matches MailboxError::ProviderNotFound(scheme)
                    &&& scheme@ == provider_key(protocol@)
                },
            },
    {
        let key = protocol_key(protocol);
        match self.providers.find(key) {
            Some(i) => {
                proof {
                    self.providers.lemma_slot(i as int);
                }
                Ok(i)
            },
            None => Err(MailboxError::ProviderNotFound(String::from_str(key))),
        }
    }

    /// Whether `outcome` says that no transport serves `scheme`.
    pub open spec fn not_found<A>(scheme: Seq<char>, outcome: Result<A, MailboxError>) -> bool {
        outcome matches Err(MailboxError::ProviderNotFound(named)) && named@ == provider_key(scheme)
    }

    /// Only the transport of `scheme` may differ between `self` and `post`.
    pub open spec fn only_changed(&self, scheme: Seq<char>, post: &Self) -> bool {
        post@ == self@.insert(provider_key(scheme), post@[provider_key(scheme)])
    }

    /// Sends `mail` through the transport of the scheme of its destination.
    /// Mail without an id, or with an empty one, gets a new id first.
    pub fn post(&mut self, mail: OutgoingMail) -> (outcome: Result<MailMessage, MailboxError>)
        requires
            old(self).wf(),
        ensures
            final(self).wf(),
            if old(self)@.contains_key(provider_key(mail@.to.scheme)) {
                &&& old(self).only_changed(mail@.to.scheme, final(self))
                &&& exists|message: MailMessage|
                    {
                        &&& message@ == mail@.message().with_id(message@.id)
                        &&& message@.id.len() > 0
                        &&& mail@.message().id.len() > 0 ==> message@.id == mail@.message().id
                        &&& #[trigger] P::sent(
                            old(self)@[provider_key(mail@.to.scheme)],
                            message,
                            final(self)@[provider_key(mail@.to.scheme)],
                            outcome,
                        )
                    }
            } else {
                final(self)@ == old(self)@ && Self::not_found(mail@.to.scheme, outcome)
            },
    {
        let i = match self.get_provider(mail.to.scheme.as_str()) {
            Ok(i) => i,
            Err(error) => {
                return Err(error);
            },
        };
        let ghost given = mail@;
        let mut message = MailMessage::from(mail);
        if message.id.as_str().is_empty() {
            message.id = self.providers.entries[i].value.generate_id();
        }
        let ghost handed = message;
        let ghost key = provider_key(given.to.scheme);
        proof {
            assert(old(self).providers.entries@[i as int].value.wf());
            assert(handed@ == given.message().with_id(handed@.id));
            assert(handed@.id.len() > 0);
        }
        let outcome = self.providers.entries[i].value.send(message);
        proof {
            Table::lemma_map_update(old(self).providers, self.providers, i as int);
            self.lemma_kept(old(self), i as int);
            assert(old(self)@[key] == old(self).providers.entries@[i as int].value);
            assert(self@[key] == self.providers.entries@[i as int].value);
            assert(P::sent(old(self)@[key], handed, self@[key], outcome));
        }
        outcome
    }

    /// After a change to the transport at one place, the others are as they were.
    proof fn lemma_kept(&self, before: &Self, i: int)
        requires
            before.wf(),
            0 <= i < before.providers.entries@.len(),
            self.providers.entries@.len() == before.providers.entries@.len(),
            forall|j: int|
                0 <= j < before.providers.entries@.len() ==> self.providers.entries@[j].key@
                    == before.providers.entries@[j].key@,
            forall|j: int|
                0 <= j < before.providers.entries@.len() && j != i
                    ==> self.providers.entries@[j].value == before.providers.entries@[j].value,
            self.providers.entries@[i].value.wf(),
            self.providers.entries@[i].value.spec_protocol()
                == before.providers.entries@[i].value.spec_protocol(),
            self.providers.wf(),
        ensures
            self.wf(),
    {
        assert forall|j: int| 0 <= j < self.providers.entries@.len() implies {
            &&& (#[trigger] self.providers.entries@[j]).value.wf()
            &&& self.providers.entries@[j].value.spec_protocol() == self.providers.entries@[j].key@
        } by {
            assert(before.providers.entries@[j].value.wf());
        }
    }

    /// Subscribes with the transport of the scheme of `address`.
    pub fn subscribe(&mut self, address: &Address) -> (outcome: Result<P::Handle, MailboxError>)
        requires
            old(self).wf(),
        ensures
            final(self).wf(),
            if old(self)@.contains_key(provider_key(address@.scheme)) {
                &&& old(self).only_changed(address@.scheme, final(self))
                &&& P::subscribed(
                    old(self)@[provider_key(address@.scheme)],
                    address@,
                    final(self)@[provider_key(address@.scheme)],
                    outcome,
                )
            } else {
                final(self)@ == old(self)@ && Self::not_found(address@.scheme, outcome)
            },
    {
        let i = match self.get_provider(address.scheme.as_str()) {
            Ok(i) => i,
            Err(error) => {
                return Err(error);
            },
        };
        let outcome = self.providers.entries[i].value.subscribe(address);
        proof {
            assert(old(self).providers.entries@[i as int].value.wf());
            Table::lemma_map_update(old(self).providers, self.providers, i as int);
            self.lemma_kept(old(self), i as int);
        }
        outcome
    }

    /// Fetches from the transport of the scheme of `address`.
    pub fn fetch(&mut self, address: &Address, options: FetchOptions) -> (outcome: Result<
        Option<AckableMessage>,
        MailboxError,
    >)
        requires
            old(self).wf(),
        ensures
            final(self).wf(),
            if old(self)@.contains_key(provider_key(address@.scheme)) {
                &&& old(self).only_changed(address@.scheme, final(self))
                &&& P::fetched(
                    old(self)@[provider_key(address@.scheme)],
                    address@,
                    options,
                    final(self)@[provider_key(address@.scheme)],
                    outcome,
                )
            } else {
                final(self)@ == old(self)@ && Self::not_found(address@.scheme, outcome)
            },
    {
        let i = match self.get_provider(address.scheme.as_str()) {
            Ok(i) => i,
            Err(error) => {
                return Err(error);
            },
        };
        let outcome = self.providers.entries[i].value.fetch(address, options);
        proof {
            assert(old(self).providers.entries@[i as int].value.wf());
            Table::lemma_map_update(old(self).providers, self.providers, i as int);
            self.lemma_kept(old(self), i as int);
        }
        outcome
    }

    /// Ends `subscription` with the transport of the scheme of `address`.
    pub fn unsubscribe<S: Subscription<P>>(&mut self, address: &Address, subscription: &mut S) -> (outcome:
        Result<(), MailboxError>)
        requires
            old(self).wf(),
        ensures
            final(self).wf(),
            if old(self)@.contains_key(provider_key(address@.scheme)) {
                &&& old(self).only_changed(address@.scheme, final(self))
                &&& outcome is Ok
                &&& old(subscription).ended(
                    old(self)@[provider_key(address@.scheme)],
                    final(self)@[provider_key(address@.scheme)],
                )
            } else {
                &&& final(self)@ == old(self)@
                &&& Self::not_found(address@.scheme, outcome)
                &&& *final(subscription) == *old(subscription)
            },
    {
        let i = match self.get_provider(address.scheme.as_str()) {
            Ok(i) => i,
            Err(error) => {
                return Err(error);
            },
        };
        proof {
            assert(old(self).providers.entries@[i as int].value.wf());
        }
        let outcome = subscription.unsubscribe(&mut self.providers.entries[i].value);
        proof {
            Table::lemma_map_update(old(self).providers, self.providers, i as int);
            self.lemma_kept(old(self), i as int);
        }
        outcome
    }

    /// Acknowledges `fetched` with the transport of the scheme of its destination.
    pub fn ack(&mut self, fetched: AckableMessage) -> (outcome: Result<(), MailboxError>)
        requires
            old(self).wf(),
        ensures
            final(self).wf(),
            old(self).settles(fetched, None, final(self), outcome),
    {
        if !fetched.leased {
            return Ok(());
        }
        let i = match self.get_provider(fetched.message.to.scheme.as_str()) {
            Ok(i) => i,
            Err(error) => {
                return Err(error);
            },
        };
        proof {
            assert(old(self).providers.entries@[i as int].value.wf());
        }
        let outcome = fetched.ack(&mut self.providers.entries[i].value);
        proof {
            Table::lemma_map_update(old(self).providers, self.providers, i as int);
            self.lemma_kept(old(self), i as int);
        }
        outcome
    }

    /// Rejects `fetched` with the transport of the scheme of its destination.
    pub fn nack(&mut self, fetched: AckableMessage, requeue: bool) -> (outcome: Result<
        (),
        MailboxError,
    >)
        requires
            old(self).wf(),
        ensures
            final(self).wf(),
            old(self).settles(fetched, Some(requeue), final(self), outcome),
    {
        if !fetched.leased {
            return Ok(());
        }
        let i = match self.get_provider(fetched.message.to.scheme.as_str()) {
            Ok(i) => i,
            Err(error) => {
                return Err(error);
            },
        };
        proof {
            assert(old(self).providers.entries@[i as int].value.wf());
        }
        let outcome = fetched.nack(&mut self.providers.entries[i].value, requeue);
        proof {
            Table::lemma_map_update(old(self).providers, self.providers, i as int);
            self.lemma_kept(old(self), i as int);
        }
        outcome
    }

    /// What `ack` (`requeue` is `None`) and `nack` do: the lease of a leased
    /// message is settled with the transport of the scheme of its
    /// destination; a message that was fetched without a lease changes nothing.
    pub open spec fn settles(
        &self,
        fetched: AckableMessage,
        requeue: Option<bool>,
        post: &Self,
        outcome: Result<(), MailboxError>,
    ) -> bool {
        let scheme = fetched.message@.to.scheme;
        if !fetched.leased {
            outcome is Ok && post@ == self@
        } else if !self@.contains_key(provider_key(scheme)) {
            post@ == self@ && Self::not_found(scheme, outcome)
        } else {
            &&& outcome is Ok
            &&& self.only_changed(scheme, post)
            &&& P::settled(
                self@[provider_key(scheme)],
                fetched.message@.id,
                requeue,
                post@[provider_key(scheme)],
            )
        }
    }

    /// Takes over the deliveries that the transport of `protocol` has started.
    pub fn take_deliveries(&mut self, protocol: &str) -> (outcome: Result<Vec<Delivery>, MailboxError>)
        requires
            old(self).wf(),
        ensures
            final(self).wf(),
            if old(self)@.contains_key(provider_key(protocol@)) {
                &&& old(self).only_changed(protocol@, final(self))
                &&& outcome matches Ok(deliveries)
                &&& P::drained(
                    old(self)@[provider_key(protocol@)],
                    final(self)@[provider_key(protocol@)],
                    deliveries@,
                )
            } else {
                final(self)@ == old(self)@ && Self::not_found(protocol@, outcome)
            },
    {
        let i = match self.get_provider(protocol) {
            Ok(i) => i,
            Err(error) => {
                return Err(error);
            },
        };
        proof {
            assert(old(self).providers.entries@[i as int].value.wf());
        }
        let deliveries = self.providers.entries[i].value.take_deliveries();
        proof {
            Table::lemma_map_update(old(self).providers, self.providers, i as int);
            self.lemma_kept(old(self), i as int);
        }
        Ok(deliveries)
    }

    /// Asks the transport of the scheme of `address` for the status of the mailbox.
    pub fn status(&self, address: &Address) -> (outcome: Result<MailboxStatus, MailboxError>)
        requires
            self.wf(),
        ensures
            if self@.contains_key(provider_key(address@.scheme)) {
                self@[provider_key(address@.scheme)].reported(address@, outcome)
            } else {
                Self::not_found(address@.scheme, outcome)
            },
    {
        let i = match self.get_provider(address.scheme.as_str()) {
            Ok(i) => i,
            Err(error) => {
                return Err(error);
            },
        };
        proof {
            assert(self.providers.entries@[i as int].value.wf());
        }
        self.providers.entries[i].value.status(address)
    }
}

impl<P: MailboxProvider> Default for Mailbox<P> {
    fn default() -> (mailbox: Self)
        ensures
            mailbox.wf(),
            mailbox@ == Map::<Seq<char>, P>::empty(),
    {
        Mailbox::new()
    }
}

} // verus!
