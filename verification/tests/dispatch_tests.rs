use beacon_register::decoder::decode;
use beacon_register::dispatch::{announcement, note, notice, receive, record};
use beacon_register::name::NetworkName;
use beacon_register::register::DiscoverySet;
use beacon_register::shared::SharedRegister;

fn name(text: &str) -> NetworkName {
    NetworkName::new(text).expect("a valid name")
}

fn texts(names: &[NetworkName]) -> Vec<String> {
    names.iter().map(|n| n.as_str().to_string()).collect()
}

/// A frame of the given management subtype whose first element carries
/// `name`.
fn frame(subtype: u8, name: &[u8]) -> Vec<u8> {
    let mut raw: Vec<u8> = vec![subtype << 4, 0x00, 0x00, 0x00];
    raw.extend_from_slice(&[0xff; 6]);
    raw.extend_from_slice(&[0x0a, 0x0b, 0x0c, 0x0d, 0x0e, 0x0f]);
    raw.extend_from_slice(&[0x0a, 0x0b, 0x0c, 0x0d, 0x0e, 0x0f]);
    raw.extend_from_slice(&[0x00, 0x00]);
    raw.extend_from_slice(&[0x00; 8]);
    raw.extend_from_slice(&[0x64, 0x00, 0x11, 0x04]);
    raw.push(0x00);
    raw.push(name.len() as u8);
    raw.extend_from_slice(name);
    raw.extend_from_slice(&[0x01, 0x04, 0x82, 0x84, 0x8b, 0x96]);
    raw
}

#[test]
fn an_empty_register_gives_an_empty_snapshot() {
    let set = DiscoverySet::new();
    assert!(set.snapshot().is_empty());
    let register = SharedRegister::new();
    assert!(register.snapshot().is_empty());
}

#[test]
fn a_beacon_is_decoded_and_inserted() {
    let mut set = DiscoverySet::new();
    let decoded = decode(&frame(8, b"CafeWifi")).expect("a name");
    assert_eq!(decoded.as_str(), "CafeWifi");
    assert!(set.insert_if_absent(decoded));
    assert_eq!(texts(&set.snapshot()), vec!["CafeWifi"]);
}

#[test]
fn the_same_beacon_again_changes_nothing() {
    let mut set = DiscoverySet::new();
    let raw = frame(8, b"CafeWifi");
    assert!(set.insert_if_absent(decode(&raw).expect("a name")));
    let before = texts(&set.snapshot());
    assert!(!set.insert_if_absent(decode(&raw).expect("a name")));
    assert_eq!(texts(&set.snapshot()), before);
    assert_eq!(set.len(), 1);
}

#[test]
fn a_hidden_network_leaves_the_register_alone() {
    let mut set = DiscoverySet::new();
    set.insert_if_absent(name("Known"));
    let raw = frame(8, b"");
    assert!(decode(&raw).is_none());
    assert!(record(&mut set, &raw).is_none());
    assert_eq!(texts(&set.snapshot()), vec!["Known"]);
}

#[test]
fn a_probe_request_leaves_the_register_alone() {
    let mut set = DiscoverySet::new();
    set.insert_if_absent(name("Known"));
    let raw = frame(4, b"CafeWifi");
    assert!(decode(&raw).is_none());
    assert!(record(&mut set, &raw).is_none());
    assert_eq!(texts(&set.snapshot()), vec!["Known"]);
}

#[test]
fn record_tells_of_a_name_once() {
    let mut set = DiscoverySet::new();
    let raw = frame(8, b"CafeWifi");
    let heard = record(&mut set, &raw).expect("a new name");
    assert_eq!(heard.as_str(), "CafeWifi");
    assert!(record(&mut set, &raw).is_none());
    assert!(record(&mut set, &frame(8, b"Library")).is_some());
    assert_eq!(texts(&set.snapshot()), vec!["CafeWifi", "Library"]);
}

#[test]
fn note_gives_back_what_was_new() {
    let mut set = DiscoverySet::new();
    assert!(note(&mut set, None).is_none());
    assert!(set.is_empty());
    assert_eq!(note(&mut set, Some(name("one"))).expect("a new name").as_str(), "one");
    assert!(note(&mut set, Some(name("one"))).is_none());
    assert_eq!(set.len(), 1);
}

#[test]
fn notice_follows_the_answer_of_the_register() {
    assert_eq!(notice(true, name("one")).expect("a name").as_str(), "one");
    assert!(notice(false, name("one")).is_none());
}

#[test]
fn receive_tells_of_a_name_once() {
    let register = SharedRegister::new();
    let raw = frame(8, b"CafeWifi");
    assert_eq!(receive(&register, &raw).expect("a new name").as_str(), "CafeWifi");
    assert!(receive(&register, &raw).is_none());
    assert_eq!(texts(&register.snapshot()), vec!["CafeWifi"]);
}

#[test]
fn receive_passes_over_frames_without_a_name() {
    let register = SharedRegister::new();
    assert!(receive(&register, &[]).is_none());
    assert!(receive(&register, &frame(4, b"CafeWifi")).is_none());
    assert!(receive(&register, &frame(8, b"")).is_none());
    assert!(receive(&register, &frame(8, &[b'x'; 33])).is_none());
    assert!(register.snapshot().is_empty());
}

#[test]
fn receive_keeps_the_names_in_order() {
    let register = SharedRegister::new();
    for text in ["delta", "alpha", "charlie", "alpha", "bravo", "delta"] {
        receive(&register, &frame(8, text.as_bytes()));
    }
    assert_eq!(texts(&register.snapshot()), vec!["alpha", "bravo", "charlie", "delta"]);
}

#[test]
fn announcement_names_the_network() {
    assert_eq!(announcement(&name("CafeWifi")), "Found new AP with SSID: CafeWifi");
    assert_eq!(announcement(&name("\u{e9}")), "Found new AP with SSID: \u{e9}");
}
