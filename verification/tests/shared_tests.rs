use beacon_register::name::NetworkName;
use beacon_register::shared::SharedRegister;

fn name(text: &str) -> NetworkName {
    NetworkName::new(text).expect("a valid name")
}

fn texts(names: &[NetworkName]) -> Vec<String> {
    names.iter().map(|n| n.as_str().to_string()).collect()
}

#[test]
fn a_new_shared_register_is_empty() {
    let register = SharedRegister::new();
    assert!(register.snapshot().is_empty());
}

#[test]
fn a_shared_insert_is_new_once() {
    let register = SharedRegister::new();
    assert!(register.insert_if_absent(name("CafeWifi")));
    assert!(!register.insert_if_absent(name("CafeWifi")));
    assert_eq!(texts(&register.snapshot()), vec!["CafeWifi"]);
}

#[test]
fn shared_inserts_of_two_names_are_both_new() {
    let register = SharedRegister::new();
    assert!(register.insert_if_absent(name("beta")));
    assert!(register.insert_if_absent(name("alpha")));
    assert_eq!(texts(&register.snapshot()), vec!["alpha", "beta"]);
}

#[test]
fn a_shared_register_serves_two_holders() {
    let register = SharedRegister::new();
    let reception = &register;
    let reporting = &register;
    assert!(reception.insert_if_absent(name("one")));
    assert_eq!(texts(&reporting.snapshot()), vec!["one"]);
    assert!(reception.insert_if_absent(name("two")));
    assert!(!reception.insert_if_absent(name("one")));
    assert_eq!(texts(&reporting.snapshot()), vec!["one", "two"]);
}

#[test]
fn two_shared_registers_do_not_mix() {
    let one = SharedRegister::new();
    let other = SharedRegister::new();
    assert!(one.insert_if_absent(name("CafeWifi")));
    assert!(other.snapshot().is_empty());
    assert!(other.insert_if_absent(name("CafeWifi")));
}

/// A holder of the kind that a callback without captures needs.
static HOLDER: critical_section::Mutex<std::cell::Cell<Option<&'static SharedRegister>>> =
    critical_section::Mutex::new(std::cell::Cell::new(None));

#[test]
fn a_shared_register_is_reached_through_a_static() {
    let register: &'static SharedRegister = Box::leak(Box::new(SharedRegister::new()));
    critical_section::with(|cs| HOLDER.borrow(cs).set(Some(register)));
    let found = critical_section::with(|cs| HOLDER.borrow(cs).get()).expect("a register");
    assert!(found.insert_if_absent(name("CafeWifi")));
    assert_eq!(texts(&register.snapshot()), vec!["CafeWifi"]);
}
