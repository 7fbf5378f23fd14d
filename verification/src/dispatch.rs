//! What is done with each received frame: decode it, offer the name to the
//! register, and tell the caller of a name that was not heard before.

use crate::decoder::{bytes_of, decode, decoded};
use crate::name::NetworkName;
use crate::register::{with_name, DiscoverySet};
use crate::shared::SharedRegister;
use vstd::prelude::*;
use vstd::string::StringExecFns;

verus! {

/// The name to tell of after a frame was handled: the decoded name, where
/// there is one and the register did not hold it before.
pub open spec fn newly_heard(names: Seq<Seq<u8>>, found: Option<Seq<u8>>) -> Option<Seq<u8>> {
    match found {
        Some(x) => if names.contains(x) {
            None
        } else {
            Some(x)
        },
        None => None,
    }
}

/// The names of the register after a frame was handled: with the decoded
/// name, where there is one, and unchanged where there is none.
pub open spec fn names_after(names: Seq<Seq<u8>>, found: Option<Seq<u8>>) -> Seq<Seq<u8>> {
    match found {
        Some(x) => with_name(names, x),
        None => names,
    }
}

/// Offers a decoded name to the register. Gives the name back where it was
/// new, for the caller to tell of it, and nothing where it was known, or
/// where the frame held no name.
pub fn note(set: &mut DiscoverySet, found: Option<NetworkName>) -> (heard: Option<NetworkName>)
    ensures
        final(set).names() == names_after(old(set).names(), bytes_of(found)),
        bytes_of(heard) == newly_heard(old(set).names(), bytes_of(found)),
        heard matches Some(n) ==> found matches Some(f) && n.chars() == f.chars(),
{
    match found {
        Some(name) => {
            let copy = name.clone();
            if set.insert_if_absent(name) {
                Some(copy)
            } else {
                None
            }
        },
        None => None,
    }
}

/// Handles one received frame against a register that the caller owns.
/// The register gains the name that the frame carries, if it carries one,
/// and keeps every name that it held; the name comes back where it was new.
pub fn record(set: &mut DiscoverySet, raw: &[u8]) -> (heard: Option<NetworkName>)
    ensures
        final(set).names() == names_after(old(set).names(), decoded(raw@)),
        bytes_of(heard) == newly_heard(old(set).names(), decoded(raw@)),
{
    note(set, decode(raw))
}

/// What to tell of once the register has answered: the name where the
/// register said that it was new, and nothing where it was known.
pub fn notice(fresh: bool, name: NetworkName) -> (heard: Option<NetworkName>)
    ensures
        heard == if fresh {
            Some(name)
        } else {
            None::<NetworkName>
        },
{
    if fresh {
        Some(name)
    } else {
        None
    }
}

/// The characters with which the line that tells of a new name begins.
pub open spec fn announcement_prefix() -> Seq<char> {
    "Found new AP with SSID: "@
}

/// The line that tells of a new name: the prefix, and then the name.
pub fn announcement(name: &NetworkName) -> (line: String)
    ensures
        line@ == announcement_prefix() + name.chars(),
{
    let mut line = String::from_str("Found new AP with SSID: ");
    line.append(name.as_str());
    line
}

/// Handles one received frame against the shared register. The frame is
/// decoded outside the critical section; only the insertion runs inside
/// it. Whether a decoded name is new depends on what the register holds,
/// so the result is either that name or nothing; a frame without a name
/// gives nothing and does not touch the register.
pub fn receive(register: &SharedRegister, raw: &[u8]) -> (heard: Option<NetworkName>)
    ensures
        decoded(raw@) is None ==> heard is None,
        heard matches Some(n) ==> decoded(raw@) == Some(n@),
{
    match decode(raw) {
        Some(name) => {
            let copy = name.clone();
            notice(register.insert_if_absent(name), copy)
        },
        None => None,
    }
}

} // verus!
