//! From a raw management frame to the network name that it advertises.

use crate::name::{valid_name_bytes, NetworkName};
use vstd::prelude::*;
use vstd::utf8::encode_utf8;

verus! {

/// The number of bytes of the frame control field, with which every frame
/// begins.
pub const FRAME_CONTROL_BYTES: usize = 2;

/// The frame type of management frames.
pub const TYPE_MANAGEMENT: u8 = 0;

/// The subtype of beacons among the management frames.
pub const SUBTYPE_BEACON: u8 = 8;

/// The frame type in the first byte of the frame control field: its bits 2
/// and 3.
pub open spec fn frame_type(control: u8) -> u8 {
    (control >> 2) & 3
}

/// The frame subtype in the first byte of the frame control field: its
/// upper four bits.
pub open spec fn frame_subtype(control: u8) -> u8 {
    control >> 4
}

/// Whether `raw` begins with the frame control field of a beacon: a whole
/// field whose type is management and whose subtype is beacon. The protocol
/// version and the flags are not looked at.
pub open spec fn is_beacon_type(raw: Seq<u8>) -> bool {
    &&& raw.len() >= FRAME_CONTROL_BYTES
    &&& frame_type(raw[0]) == TYPE_MANAGEMENT
    &&& frame_subtype(raw[0]) == SUBTYPE_BEACON
}

/// What the `ieee80211` crate reads out of the bytes of a frame as the
/// name of the network that a beacon advertises: the text of the first
/// name element that it can read, or nothing where the bytes are no beacon,
/// are cut short, or hold no such element.
pub uninterp spec fn beacon_ssid(raw: Seq<u8>) -> Option<Seq<char>>;

/// The characters of a text that may be missing.
pub open spec fn chars_of(found: Option<String>) -> Option<Seq<char>> {
    match found {
        Some(text) => Some(text@),
        None => None,
    }
}

/// The bytes of a name that may be missing.
pub open spec fn bytes_of(name: Option<NetworkName>) -> Option<Seq<u8>> {
    match name {
        Some(n) => Some(n@),
        None => None,
    }
}

/// The name that is taken from what was read out of a beacon: the bytes of
/// the text, where there is a text and its length is one that a name may
/// have. An empty text, as a hidden network sends it, gives no name.
pub open spec fn accepted(found: Option<Seq<char>>) -> Option<Seq<u8>> {
    match found {
        Some(text) => if valid_name_bytes(encode_utf8(text)) {
            Some(encode_utf8(text))
        } else {
            None
        },
        None => None,
    }
}

/// The name that a frame yields: none unless the frame is of beacon type,
/// and else what is accepted of the name read out of it.
pub open spec fn decoded(raw: Seq<u8>) -> Option<Seq<u8>> {
    if is_beacon_type(raw) {
        accepted(beacon_ssid(raw))
    } else {
        None
    }
}

/// Whether `raw` begins with the frame control field of a beacon.
pub fn is_beacon(raw: &[u8]) -> (beacon: bool)
    ensures
        beacon == is_beacon_type(raw@),
{
    if raw.len() < FRAME_CONTROL_BYTES {
        return false;
    }
    let control: u8 = raw[0];
    (control >> 2) & 3 == TYPE_MANAGEMENT && control >> 4 == SUBTYPE_BEACON
}

/// Calls `ieee80211::GenericFrame::new` on the bytes, without a frame check
/// sequence, then `GenericFrame::parse_to_typed` for a
/// `ieee80211::mgmt_frame::BeaconFrame`, then `ssid` on the beacon's body,
/// and copies the text that comes out. Nothing is proved of this: the
/// result is taken to be a function of the bytes alone, named
/// [`beacon_ssid`].
#[verifier::external_body]
fn read_beacon_ssid(raw: &[u8]) -> (found: Option<String>)
    ensures
        chars_of(found) == beacon_ssid(raw@),
{
    let frame = ieee80211::GenericFrame::new(raw, false).ok()?;
    let beacon = frame.parse_to_typed::<ieee80211::mgmt_frame::BeaconFrame>()?.ok()?;
    Some(beacon.ssid()?.to_string())
}

/// Takes the name out of what was read from a beacon: the text itself where
/// it has between one and 32 bytes, and nothing otherwise.
pub fn accept(found: Option<String>) -> (name: Option<NetworkName>)
    ensures
        bytes_of(name) == accepted(chars_of(found)),
        name matches Some(n) ==> found matches Some(text) && n.chars() == text@,
{
    match found {
        Some(text) => NetworkName::from_string(text),
        None => None,
    }
}

/// Decodes one received frame. Gives the advertised name where the frame is
/// a beacon that carries a name of one to 32 bytes, and nothing for every
/// other input: a frame of another type, a frame cut short, a beacon
/// without a name element, an empty or oversized name.
pub fn decode(raw: &[u8]) -> (name: Option<NetworkName>)
    ensures
        bytes_of(name) == decoded(raw@),
        !is_beacon_type(raw@) ==> name is None,
        beacon_ssid(raw@) is None ==> name is None,
        beacon_ssid(raw@) matches Some(text) ==> (is_beacon_type(raw@) && valid_name_bytes(
            encode_utf8(text),
        ) ==> (name matches Some(n) && n@ == encode_utf8(text) && n.chars() == text)),
{
    if !is_beacon(raw) {
        return None;
    }
    accept(read_beacon_ssid(raw))
}

} // verus!
