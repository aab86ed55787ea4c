//! Physical-address translation: maps a physical frame to a virtual
//! address for direct CPU access, used wherever kernel structures are
//! written through the direct map.

use vstd::prelude::*;

verus! {

/// Translates a physical frame address to a virtual address.  Implementors
/// must be aware that physical addresses may not be page aligned.
pub trait PhysicalAddressTranslator {
    /// The virtual address assigned to `physical_addr`.
    spec fn spec_virt(&self, physical_addr: u64) -> usize;

    /// Whether the translator covers `physical_addr`.
    spec fn spec_covers(&self, physical_addr: u64) -> bool;

    /// Translates a physical frame address to a virtual address.
    fn to_virtual_addr(&self, physical_addr: u64) -> (r: usize)
        requires
            self.spec_covers(physical_addr),
        ensures
            r == self.spec_virt(physical_addr),
    ;
}

/// An offset-based translator, for platforms where all memory has been
/// direct-mapped at a fixed offset.
pub struct OffsetPhysicalAddressTranslator {
    /// The offset of the direct map.
    offset: usize,
}

impl OffsetPhysicalAddressTranslator {
    /// The offset of the direct map.
    pub closed spec fn spec_offset(self) -> usize {
        self.offset
    }

    /// Creates a new offset translator.  The caller must ensure the offset
    /// is correct and that all memory is direct mapped.
    pub fn new(offset: usize) -> (r: OffsetPhysicalAddressTranslator)
        ensures
            r.spec_offset() == offset,
    {
        OffsetPhysicalAddressTranslator { offset }
    }
}

impl PhysicalAddressTranslator for OffsetPhysicalAddressTranslator {
    open spec fn spec_virt(&self, physical_addr: u64) -> usize {
        (physical_addr + self.spec_offset()) as usize
    }

    open spec fn spec_covers(&self, physical_addr: u64) -> bool {
        physical_addr + self.spec_offset() <= usize::MAX
    }

    fn to_virtual_addr(&self, physical_addr: u64) -> (r: usize) {
        physical_addr as usize + self.offset
    }
}

} // verus!
