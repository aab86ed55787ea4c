//! x86_64 architecture support: the interrupt-state capability the
//! critical-section lock relies on, modeled over an explicit copy of the
//! core's flags register, and the architecture-specific boot configuration.

use crate::sync::InterruptControl;
use vstd::prelude::*;

verus! {

/// The interrupt-enable bit of the x86_64 flags register.
pub const RFLAGS_IF: u64 = 0x200;

/// x86_64 architecture support for the kernel.  Holds the model of the
/// core's flags register through which interrupts are fetched, disabled and
/// restored; in the running kernel these are single instructions on the
/// core itself.
pub struct X86_64 {
    /// The core's flags register.
    rflags: u64,
}

impl X86_64 {
    /// A core whose flags register currently reads `rflags`.
    pub fn new(rflags: u64) -> (r: X86_64)
        ensures
            r.spec_state() == rflags,
    {
        X86_64 { rflags }
    }
}

impl InterruptControl for X86_64 {
    closed spec fn spec_state(&self) -> u64 {
        self.rflags
    }

    open spec fn spec_enabled(&self) -> bool {
        self.spec_state() & RFLAGS_IF != 0
    }

    fn fetch_interrupts(&self) -> (r: u64) {
        self.rflags
    }

    fn disable_interrupts(&mut self) {
        let prev = self.rflags;
        self.rflags = prev & !RFLAGS_IF;
        proof {
            assert((prev & !0x200u64) & 0x200u64 == 0) by (bit_vector);
        }
    }

    fn restore_interrupts(&mut self, state: u64) {
        self.rflags = state;
    }
}

/// x86_64-specific boot configuration.
pub struct Config {
    /// The physical address of the RSDP table.  A bootloader that hands the
    /// table over as a mapped virtual address must un-apply its linear
    /// offset before filling this field.
    pub rdsp_phys: u64,
}

} // verus!
