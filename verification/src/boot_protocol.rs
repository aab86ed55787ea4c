//! Data types of the boot protocol's responses that the kernel keeps using
//! after boot: the physical memory map and the secondary-CPU descriptions.
//! The tag-scanning handshake itself happens before the kernel proper runs
//! and stays outside this crate.

use vstd::prelude::*;

verus! {

use core::cmp::Ordering;

/// The type of a memory map entry.  For any unknown type the bootloader
/// reports [`MemoryMapEntryType::Unknown`].
#[derive(Debug, Clone, Copy, PartialEq, Eq, Hash, Structural)]
pub enum MemoryMapEntryType {
    /// Memory that is unusable, reserved, or of no type usable by the
    /// kernel.
    Unknown,
    /// General memory immediately usable by the kernel.
    Usable,
    /// Memory used by the bootloader that the kernel can reclaim.
    BootloaderReclaim,
    /// Memory holding the kernel itself, root ring modules, or other
    /// boot-time binary data; never reclaimed nor written.
    Modules,
    /// Memory known to be bad, broken or malfunctioning.
    Bad,
}

/// A memory map entry: one chunk of physical memory available to the
/// system.  Entries compare and order by their base address alone.
#[derive(Debug, Clone)]
pub struct MemoryMapEntry {
    /// The base address of the memory region.
    pub base: u64,
    /// The length of the memory region.
    pub length: usize,
    /// The type of the memory region.
    pub ty: MemoryMapEntryType,
}

impl PartialEq for MemoryMapEntry {
    fn eq(&self, other: &MemoryMapEntry) -> (r: bool) {
        self.base == other.base
    }
}

impl vstd::std_specs::cmp::PartialEqSpecImpl for MemoryMapEntry {
    open spec fn obeys_eq_spec() -> bool {
        true
    }

    open spec fn eq_spec(&self, other: &MemoryMapEntry) -> bool {
        self.base == other.base
    }
}

impl PartialOrd for MemoryMapEntry {
    fn partial_cmp(&self, other: &MemoryMapEntry) -> (r: Option<Ordering>) {
        if self.base < other.base {
            Some(Ordering::Less)
        } else if self.base == other.base {
            Some(Ordering::Equal)
        } else {
            Some(Ordering::Greater)
        }
    }
}

impl vstd::std_specs::cmp::PartialOrdSpecImpl for MemoryMapEntry {
    open spec fn obeys_partial_cmp_spec() -> bool {
        true
    }

    open spec fn partial_cmp_spec(&self, other: &MemoryMapEntry) -> Option<Ordering> {
        if self.base < other.base {
            Some(Ordering::Less)
        } else if self.base == other.base {
            Some(Ordering::Equal)
        } else {
            Some(Ordering::Greater)
        }
    }
}

/// A secondary CPU core: its id (the interrupt-controller id of the core)
/// and the entry point the kernel writes to wake it.
#[derive(Debug, Clone)]
pub struct SecondaryCpu {
    /// The id of the CPU core.
    pub id: u64,
    /// The entry point of the core; the kernel performs a volatile write
    /// to this address to wake it.
    pub entry: usize,
}

} // verus!
