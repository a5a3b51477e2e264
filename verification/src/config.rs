//! From what an operator configures to the zones the resolver is given.

use crate::dns::zone::{Zone, ZoneView};
use crate::server::zone_views;
use vstd::prelude::*;
use vstd::string::*;
use vstd::utf8::encode_utf8;

verus! {

/// The mailbox that is responsible for a server where none is configured:
/// `hostmaster` at the server's name.
pub open spec fn default_mailbox_of(fqdn: Seq<char>) -> Seq<char> {
    "hostmaster."@ + fqdn
}

/// The zone that is configured for `name` on the server `fqdn` with the
/// mailbox `mailbox`.
pub open spec fn configured_zone(name: Seq<char>, fqdn: Seq<char>, mailbox: Seq<char>) -> ZoneView {
    ZoneView {
        domain: encode_utf8(name),
        mname: encode_utf8(fqdn),
        rname: encode_utf8(mailbox),
    }
}

/// The mailbox that is responsible for the server `fqdn` where none is
/// configured.
pub fn default_mailbox(fqdn: &str) -> (mailbox: String)
    ensures
        mailbox@ == default_mailbox_of(fqdn@),
{
    String::from_str("hostmaster.").concat(fqdn)
}

/// One zone for each configured name, in the order of the names. Each has
/// the server's name as its primary server and the configured mailbox, or
/// the default one where none is configured.
pub fn configure_zones(names: &Vec<String>, fqdn: &str, email: Option<String>) -> (zones: Vec<Zone>)
    ensures
        zones@.len() == names@.len(),
        forall|i: int|
            0 <= i < names@.len() ==> (#[trigger] zones@[i])@ == configured_zone(
                names@[i]@,
                fqdn@,
                match email {
                    Some(mailbox) => mailbox@,
                    None => default_mailbox_of(fqdn@),
                },
            ),
{
    let mailbox = match email {
        Some(mailbox) => mailbox,
        None => default_mailbox(fqdn),
    };
    let mut zones: Vec<Zone> = Vec::new();
    let mut i: usize = 0;
    while i < names.len()
        invariant
            i <= names@.len(),
            zones@.len() == i,
            forall|j: int|
                0 <= j < i ==> (#[trigger] zones@[j])@ == configured_zone(
                    names@[j]@,
                    fqdn@,
                    mailbox@,
                ),
        decreases names@.len() - i,
    {
        zones.push(Zone::new(names[i].as_str(), fqdn, mailbox.as_str()));
        i = i + 1;
    }
    zones
}

} // verus!
