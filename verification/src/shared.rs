//! The register behind a guard, for use from the reception path and from
//! the main loop at once.

use crate::name::NetworkName;
use crate::register::{all_valid, names_of, strictly_increasing, DiscoverySet};
use core::cell::RefCell;
use critical_section::Mutex;
use vstd::prelude::*;

verus! {

/// `critical_section::Mutex`: a cell whose content can be reached only
/// inside a critical section. Nothing is known of what it holds.
#[verifier::external_type_specification]
#[verifier::external_body]
#[verifier::reject_recursive_types(T)]
pub struct ExMutex<T>(Mutex<T>);

/// `core::cell::RefCell`: a cell that lends its content out, to one writer
/// or to readers. Nothing is known of what it holds.
#[verifier::external_type_specification]
#[verifier::external_body]
#[verifier::reject_recursive_types(T)]
pub struct ExRefCell<T: ?Sized>(RefCell<T>);

/// A register that the reception path and the main loop share. Each
/// operation is carried out as a whole inside one critical section, so the
/// operations of both follow one another in some order, and none sees a
/// register that another is about to change.
pub struct SharedRegister {
    guarded: Mutex<RefCell<DiscoverySet>>,
}

/// `critical_section::Mutex::new` puts a value behind the guard. It always
/// returns; nothing is claimed of the result.
pub assume_specification<T>[ critical_section::Mutex::<T>::new ](value: T) -> (guarded: Mutex<T>);

/// `core::cell::RefCell::new` puts a value into a cell. It always returns;
/// nothing is claimed of the result.
pub assume_specification<T>[ core::cell::RefCell::<T>::new ](value: T) -> (cell: RefCell<T>);

/// Runs [`DiscoverySet::insert_if_absent`] on the guarded register inside
/// `critical_section::with`, on what `Mutex::borrow_ref_mut` lends out. The
/// answer depends on what the register held, which no contract can speak
/// of: nothing is claimed of it. The cell is lent out only here and in
/// [`locked_copy`], each time for no longer than the critical section
/// lasts, so it is never on loan when it is asked for.
#[verifier::external_body]
fn locked_insert(guarded: &Mutex<RefCell<DiscoverySet>>, name: NetworkName) -> (fresh: bool) {
    critical_section::with(|cs| guarded.borrow_ref_mut(cs).insert_if_absent(name))
}

/// Runs the `clone` of [`DiscoverySet`] on the guarded register inside
/// `critical_section::with`, on what `Mutex::borrow_ref` lends out. Which
/// names the copy holds depends on what the register held: nothing is
/// claimed of it.
#[verifier::external_body]
fn locked_copy(guarded: &Mutex<RefCell<DiscoverySet>>) -> (copy: DiscoverySet) {
    critical_section::with(|cs| guarded.borrow_ref(cs).clone())
}

impl SharedRegister {
    /// A guarded register that holds no name yet.
    pub fn new() -> (register: SharedRegister) {
        SharedRegister { guarded: Mutex::new(RefCell::new(DiscoverySet::new())) }
    }

    /// Puts `name` into the register unless it is there already, and says
    /// whether it was new. Of two calls with the same name that no other
    /// call has come before, exactly one is told that the name was new.
    pub fn insert_if_absent(&self, name: NetworkName) -> (fresh: bool) {
        locked_insert(&self.guarded, name)
    }

    /// The names in the register at one moment, each copied, in byte-wise
    /// order and none twice. The copy is made inside the critical section,
    /// so it shows the register between two insertions, never within one.
    pub fn snapshot(&self) -> (names: Vec<NetworkName>)
        ensures
            strictly_increasing(names_of(names@)),
            all_valid(names_of(names@)),
    {
        locked_copy(&self.guarded).into_names()
    }
}

} // verus!
