//! The canonical form of an address: the key under which its mail is routed.

use vstd::prelude::*;
use vstd::string::StringExecFns;
use crate::address::Address;
use crate::address::AddressView;

verus! {

/// The topic of an address: `scheme:principal@host/path` where the address
/// names a principal, `scheme:host/path` where it names none. An address
/// without a host contributes no host text.
pub open spec fn canonical_topic(address: AddressView) -> Seq<char> {
    let host = match address.host {
        Some(host) => host,
        None => Seq::empty(),
    };
    if address.username.len() > 0 {
        address.scheme + seq![':'] + address.username + seq!['@'] + host + address.path
    } else {
        address.scheme + seq![':'] + host + address.path
    }
}

pub fn get_canonical_mailbox_address_identifier(address: &Address) -> (topic: String)
    ensures
        topic@ == canonical_topic(address@),
{
    proof {
        reveal_strlit(":");
        reveal_strlit("@");
        assert(":"@ =~= seq![':']);
        assert("@"@ =~= seq!['@']);
    }
    let mut topic = String::from_str(address.scheme.as_str());
    topic.append(":");
    if !address.username.as_str().is_empty() {
        topic.append(address.username.as_str());
        topic.append("@");
    }
    match &address.host {
        Some(host) => {
            topic.append(host.as_str());
        },
        None => {
            assert(topic@ + Seq::<char>::empty() =~= topic@);
        },
    }
    topic.append(address.path.as_str());
    topic
}

/// Addresses with the same components have the same topic, however they
/// were written.
pub proof fn lemma_equal_components_equal_topic(a: Address, b: Address)
    requires
        a@.components() == b@.components(),
    ensures
        canonical_topic(a@) == canonical_topic(b@),
{
}

} // verus!
