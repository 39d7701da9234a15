//! The one-byte register through which a suspended computation hands its
//! output to whoever drives it.

use vstd::cell::invcell::InvCell;
use vstd::predicate::Predicate;
use vstd::prelude::*;

verus! {

/// The register accepts every byte.
pub struct AnyByte;

impl Predicate<u8> for AnyByte {
    open spec fn predicate(&self, value: u8) -> bool {
        true
    }
}

/// A single-slot register shared between a computation, which writes it, and
/// a driver, which reads it.
///
/// A write replaces what the register held; nothing is queued. Both sides
/// reach the register through a shared reference, so a reader learns nothing
/// about the value from the contract: it is whatever was stored last.
pub struct ByteRegister {
    cell: InvCell<u8, AnyByte>,
}

impl ByteRegister {
    /// Creates a register that holds zero.
    pub fn new() -> (register: Self) {
        ByteRegister { cell: InvCell::new(0u8, Ghost(AnyByte)) }
    }

    /// Replaces the register's value.
    pub fn store(&self, value: u8) {
        self.cell.set(value);
    }

    /// Reads the register's value and leaves it in place.
    pub fn load(&self) -> (value: u8) {
        self.cell.get()
    }
}

} // verus!
