//! The message data model.

use vstd::prelude::*;
use vstd::std_specs::convert::FromSpecImpl;
use std::collections::HashMap;
use serde_json::Value;
use crate::address::Address;
use crate::address::AddressView;

verus! {

#[verifier::external_type_specification]
#[verifier::external_body]
pub struct ExJsonValue(Value);

/// `<serde_json::Value as Clone>::clone`: the derived clone, a value equal to the one it
/// was made of.
#[verifier::external_body]
fn clone_value(value: &Value) -> (copy: Value)
    ensures
        copy == *value,
{
    value.clone()
}

/// Something that carries a textual identity.
pub trait Identifiable {
    /// The identity as a sequence of characters.
    spec fn spec_id(&self) -> Seq<char>;

    fn id(&self) -> (id: &str)
        ensures
            id@ == self.spec_id(),
    ;
}

/// Mail as its sender hands it in: the id may still be missing.
#[derive(Debug)]
pub struct OutgoingMail {
    pub id: Option<String>,
    pub from: Address,
    pub to: Address,
    pub body: Value,
    pub headers: HashMap<String, String>,
    pub meta: HashMap<String, Value>,
}

/// Mail on its way. It is never changed, only cloned, as it moves on.
#[derive(Debug)]
pub struct MailMessage {
    pub id: String,
    pub from: Address,
    pub to: Address,
    pub body: Value,
    pub headers: HashMap<String, String>,
    pub meta: HashMap<String, Value>,
}

pub struct MailMessageView {
    pub id: Seq<char>,
    pub from: AddressView,
    pub to: AddressView,
    pub body: Value,
    pub headers: Map<String, String>,
    pub meta: Map<String, Value>,
}

pub struct OutgoingMailView {
    pub id: Option<Seq<char>>,
    pub from: AddressView,
    pub to: AddressView,
    pub body: Value,
    pub headers: Map<String, String>,
    pub meta: Map<String, Value>,
}

impl View for MailMessage {
    type V = MailMessageView;

    open spec fn view(&self) -> MailMessageView {
        MailMessageView {
            id: self.id@,
            from: self.from@,
            to: self.to@,
            body: self.body,
            headers: self.headers@,
            meta: self.meta@,
        }
    }
}

impl View for OutgoingMail {
    type V = OutgoingMailView;

    open spec fn view(&self) -> OutgoingMailView {
        OutgoingMailView {
            id: match self.id {
                Some(id) => Some(id@),
                None => None,
            },
            from: self.from@,
            to: self.to@,
            body: self.body,
            headers: self.headers@,
            meta: self.meta@,
        }
    }
}

impl OutgoingMailView {
    /// The message that this mail becomes: its id, or the empty id where it has none.
    pub open spec fn message(self) -> MailMessageView {
        MailMessageView {
            id: match self.id {
                Some(id) => id,
                None => Seq::empty(),
            },
            from: self.from,
            to: self.to,
            body: self.body,
            headers: self.headers,
            meta: self.meta,
        }
    }
}

impl MailMessageView {
    /// This message under another id.
    pub open spec fn with_id(self, id: Seq<char>) -> MailMessageView {
        MailMessageView { id, ..self }
    }
}

impl Clone for MailMessage {
    fn clone(&self) -> (copy: Self)
        ensures
            copy@ == self@,
    {
        MailMessage {
            id: self.id.clone(),
            from: self.from.clone(),
            to: self.to.clone(),
            body: clone_value(&self.body),
            headers: self.headers.clone(),
            meta: self.meta.clone(),
        }
    }
}

impl Identifiable for MailMessage {
    open spec fn spec_id(&self) -> Seq<char> {
        self.id@
    }

    fn id(&self) -> (id: &str) {
        self.id.as_str()
    }
}

impl From<OutgoingMail> for MailMessage {
    fn from(mail: OutgoingMail) -> (message: MailMessage)
        ensures
            message@ == mail@.message(),
    {
        MailMessage {
            id: match mail.id {
                Some(id) => id,
                None => String::new(),
            },
            from: mail.from,
            to: mail.to,
            body: mail.body,
            headers: mail.headers,
            meta: mail.meta,
        }
    }
}

impl FromSpecImpl<OutgoingMail> for MailMessage {
    /// The conversion is stated over views, on `from` itself.
    open spec fn obeys_from_spec() -> bool {
        false
    }

    open spec fn from_spec(mail: OutgoingMail) -> MailMessage {
        arbitrary()
    }
}

/// What a provider reports of a mailbox.
#[derive(Debug)]
pub struct MailboxStatus {
    pub state: String,
    /// The messages that wait in the queue; those in flight do not count.
    pub unread_count: Option<usize>,
    pub last_activity_time: Option<String>,
    pub extra: HashMap<String, Value>,
}

/// How to fetch: with `manual_ack` the message is leased until it is
/// acknowledged or rejected, and `ack_timeout` is the age in milliseconds
/// beyond which an unsettled lease is taken back.
#[derive(Debug, Clone, Copy)]
pub struct FetchOptions {
    pub manual_ack: bool,
    pub ack_timeout: Option<u64>,
}

impl Default for FetchOptions {
    fn default() -> (options: Self)
        ensures
            !options.manual_ack,
            options.ack_timeout is None,
    {
        FetchOptions { manual_ack: false, ack_timeout: None }
    }
}

} // verus!
