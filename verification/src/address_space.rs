//! The overall address-space description the kernel proper uses on x86_64:
//! a handle to an address space, and the supervisor segments — including
//! the exclusive carve-outs that back the object registries.

use crate::layout::{
    PageTableEntry, PTE_GLOBAL, PTE_NO_EXEC, PTE_PRESENT, PTE_USER, PTE_WRITABLE,
    PTE_WRITE_THROUGH,
};
use vstd::prelude::*;

verus! {

/// The paging depth a core runs with.
#[derive(Debug, Clone, Copy, PartialEq, Eq, Structural)]
pub enum PagingLevel {
    /// Four levels of page tables.
    Level4,
    /// Five levels of page tables.
    Level5,
}

/// A handle to an address space: one is created for each process, and once
/// for the kernel.
pub struct AddressSpaceHandle {
    /// The physical base address of the top-level table; the value loaded
    /// into the page-table base register.
    pub base_phys: u64,
    /// The paging level of this address space, cached to avoid repeated
    /// register lookups.
    pub paging_level: PagingLevel,
}

/// An address-space segment: the valid range of top-level indices plus the
/// entry templates for leaf and intermediate mappings.
pub struct AddressSegment {
    /// The valid range of top-level indices for this segment.
    pub valid_range: (usize, usize),
    /// A template for the leaf page-table entries of this segment.
    pub entry_template: PageTableEntry,
    /// A template for the intermediate page-table entries of this segment.
    pub intermediate_entry_template: PageTableEntry,
}

/// The main layout description for the x86_64 architecture: the top-level
/// page-table indices of every logical kernel segment and the flags each
/// uses.
pub struct AddressSpaceLayout;

impl AddressSpaceLayout {
    /// The recursive index for the page table.
    pub const RECURSIVE_IDX: usize = 256;

    /// The stack space index.
    pub const KERNEL_STACK_IDX: usize = 257;

    /// The index for the kernel core-local segment.
    pub const KERNEL_CORE_LOCAL_IDX: usize = 350;

    /// The segment for the ring registry.
    pub const KERNEL_RING_REGISTRY_IDX: usize = 400;

    /// The segment for the module instance registry.
    pub const KERNEL_MODULE_INSTANCE_REGISTRY_IDX: usize = 401;

    /// The segment for the port registry.
    pub const KERNEL_PORT_REGISTRY_IDX: usize = 402;

    /// The kernel executable index, shared by the code, rodata and data
    /// segments.
    pub const KERNEL_EXE_IDX: usize = 511;

    /// The linear map of physical memory for the supervisor space.
    pub fn linear_map() -> (r: AddressSegment)
        ensures
            r.valid_range == (259usize, 320usize),
            r.entry_template.spec_bits() == PTE_GLOBAL | PTE_PRESENT | PTE_NO_EXEC | PTE_WRITABLE
                | PTE_WRITE_THROUGH,
            r.intermediate_entry_template.spec_bits() == PTE_PRESENT | PTE_NO_EXEC | PTE_WRITABLE,
    {
        proof {
            crate::layout::lemma_or_zero_u64(PTE_GLOBAL); crate::layout::lemma_or_zero_u64(PTE_PRESENT);
        }
        AddressSegment {
            valid_range: (259, 320),
            entry_template: PageTableEntry::new()
                .with_global()
                .with_present()
                .with_no_exec()
                .with_writable()
                .with_write_through(),
            intermediate_entry_template: PageTableEntry::new()
                .with_present()
                .with_no_exec()
                .with_writable(),
        }
    }

    /// The kernel code segment.
    pub fn kernel_code() -> (r: AddressSegment)
        ensures
            r.valid_range == (AddressSpaceLayout::KERNEL_EXE_IDX, AddressSpaceLayout::KERNEL_EXE_IDX),
            r.entry_template.spec_bits() == PTE_USER | PTE_GLOBAL | PTE_PRESENT,
            r.intermediate_entry_template.spec_bits() == PTE_USER | PTE_GLOBAL | PTE_PRESENT
                | PTE_WRITABLE,
    {
        proof {
            crate::layout::lemma_or_zero_u64(PTE_USER);
        }
        AddressSegment {
            valid_range: (
                AddressSpaceLayout::KERNEL_EXE_IDX,
                AddressSpaceLayout::KERNEL_EXE_IDX,
            ),
            entry_template: PageTableEntry::new().with_user().with_global().with_present(),
            intermediate_entry_template: PageTableEntry::new()
                .with_user()
                .with_global()
                .with_present()
                .with_writable(),
        }
    }

    /// The kernel data segment.
    pub fn kernel_data() -> (r: AddressSegment)
        ensures
            r.valid_range == (AddressSpaceLayout::KERNEL_EXE_IDX, AddressSpaceLayout::KERNEL_EXE_IDX),
            r.entry_template.spec_bits() == PTE_GLOBAL | PTE_PRESENT | PTE_NO_EXEC | PTE_WRITABLE,
            r.intermediate_entry_template.spec_bits() == PTE_USER | PTE_GLOBAL | PTE_PRESENT
                | PTE_WRITABLE,
    {
        proof {
            crate::layout::lemma_or_zero_u64(PTE_GLOBAL); crate::layout::lemma_or_zero_u64(PTE_USER);
        }
        AddressSegment {
            valid_range: (
                AddressSpaceLayout::KERNEL_EXE_IDX,
                AddressSpaceLayout::KERNEL_EXE_IDX,
            ),
            entry_template: PageTableEntry::new()
                .with_global()
                .with_present()
                .with_no_exec()
                .with_writable(),
            intermediate_entry_template: PageTableEntry::new()
                .with_user()
                .with_global()
                .with_present()
                .with_writable(),
        }
    }

    /// The kernel read-only data segment.
    pub fn kernel_rodata() -> (r: AddressSegment)
        ensures
            r.valid_range == (AddressSpaceLayout::KERNEL_EXE_IDX, AddressSpaceLayout::KERNEL_EXE_IDX),
            r.entry_template.spec_bits() == PTE_GLOBAL | PTE_PRESENT | PTE_NO_EXEC,
            r.intermediate_entry_template.spec_bits() == PTE_USER | PTE_GLOBAL | PTE_PRESENT
                | PTE_WRITABLE,
    {
        proof {
            crate::layout::lemma_or_zero_u64(PTE_GLOBAL); crate::layout::lemma_or_zero_u64(PTE_USER);
        }
        AddressSegment {
            valid_range: (
                AddressSpaceLayout::KERNEL_EXE_IDX,
                AddressSpaceLayout::KERNEL_EXE_IDX,
            ),
            entry_template: PageTableEntry::new().with_global().with_present().with_no_exec(),
            intermediate_entry_template: PageTableEntry::new()
                .with_user()
                .with_global()
                .with_present()
                .with_writable(),
        }
    }

    /// The kernel stack segment.
    pub fn kernel_stack() -> (r: AddressSegment)
        ensures
            r.valid_range == (
                AddressSpaceLayout::KERNEL_STACK_IDX,
                AddressSpaceLayout::KERNEL_STACK_IDX,
            ),
            r.entry_template.spec_bits() == PTE_PRESENT | PTE_WRITABLE | PTE_NO_EXEC,
            r.intermediate_entry_template.spec_bits() == PTE_PRESENT | PTE_WRITABLE | PTE_NO_EXEC,
    {
        proof {
            crate::layout::lemma_or_zero_u64(PTE_PRESENT);
        }
        AddressSegment {
            valid_range: (
                AddressSpaceLayout::KERNEL_STACK_IDX,
                AddressSpaceLayout::KERNEL_STACK_IDX,
            ),
            entry_template: PageTableEntry::new().with_present().with_writable().with_no_exec(),
            intermediate_entry_template: PageTableEntry::new()
                .with_present()
                .with_writable()
                .with_no_exec(),
        }
    }

    /// The exclusive segment backing the ring registry.
    pub fn kernel_ring_registry() -> (r: AddressSegment)
        ensures
            r.valid_range == (
                AddressSpaceLayout::KERNEL_RING_REGISTRY_IDX,
                AddressSpaceLayout::KERNEL_RING_REGISTRY_IDX,
            ),
            r.entry_template.spec_bits() == PTE_GLOBAL | PTE_PRESENT | PTE_NO_EXEC | PTE_WRITABLE,
            r.intermediate_entry_template.spec_bits() == PTE_PRESENT | PTE_NO_EXEC | PTE_WRITABLE,
    {
        AddressSpaceLayout::registry_segment(AddressSpaceLayout::KERNEL_RING_REGISTRY_IDX)
    }

    /// The exclusive segment backing the port registry.
    pub fn kernel_port_registry() -> (r: AddressSegment)
        ensures
            r.valid_range == (
                AddressSpaceLayout::KERNEL_PORT_REGISTRY_IDX,
                AddressSpaceLayout::KERNEL_PORT_REGISTRY_IDX,
            ),
            r.entry_template.spec_bits() == PTE_GLOBAL | PTE_PRESENT | PTE_NO_EXEC | PTE_WRITABLE,
            r.intermediate_entry_template.spec_bits() == PTE_PRESENT | PTE_NO_EXEC | PTE_WRITABLE,
    {
        AddressSpaceLayout::registry_segment(AddressSpaceLayout::KERNEL_PORT_REGISTRY_IDX)
    }

    /// The exclusive segment backing the module instance registry.
    pub fn kernel_module_instance_registry() -> (r: AddressSegment)
        ensures
            r.valid_range == (
                AddressSpaceLayout::KERNEL_MODULE_INSTANCE_REGISTRY_IDX,
                AddressSpaceLayout::KERNEL_MODULE_INSTANCE_REGISTRY_IDX,
            ),
            r.entry_template.spec_bits() == PTE_GLOBAL | PTE_PRESENT | PTE_NO_EXEC | PTE_WRITABLE,
            r.intermediate_entry_template.spec_bits() == PTE_PRESENT | PTE_NO_EXEC | PTE_WRITABLE,
    {
        AddressSpaceLayout::registry_segment(
            AddressSpaceLayout::KERNEL_MODULE_INSTANCE_REGISTRY_IDX,
        )
    }

    /// The kernel core-local segment.
    pub fn kernel_core_local() -> (r: AddressSegment)
        ensures
            r.valid_range == (
                AddressSpaceLayout::KERNEL_CORE_LOCAL_IDX,
                AddressSpaceLayout::KERNEL_CORE_LOCAL_IDX,
            ),
            r.entry_template.spec_bits() == PTE_GLOBAL | PTE_PRESENT | PTE_NO_EXEC | PTE_WRITABLE,
            r.intermediate_entry_template.spec_bits() == PTE_PRESENT | PTE_NO_EXEC | PTE_WRITABLE,
    {
        AddressSpaceLayout::registry_segment(AddressSpaceLayout::KERNEL_CORE_LOCAL_IDX)
    }

    /// The common shape of the global, writable, non-executable one-index
    /// kernel segments.
    fn registry_segment(idx: usize) -> (r: AddressSegment)
        ensures
            r.valid_range == (idx, idx),
            r.entry_template.spec_bits() == PTE_GLOBAL | PTE_PRESENT | PTE_NO_EXEC | PTE_WRITABLE,
            r.intermediate_entry_template.spec_bits() == PTE_PRESENT | PTE_NO_EXEC | PTE_WRITABLE,
    {
        proof {
            crate::layout::lemma_or_zero_u64(PTE_GLOBAL);
            crate::layout::lemma_or_zero_u64(PTE_PRESENT);
        }
        AddressSegment {
            valid_range: (idx, idx),
            entry_template: PageTableEntry::new()
                .with_global()
                .with_present()
                .with_no_exec()
                .with_writable(),
            intermediate_entry_template: PageTableEntry::new()
                .with_present()
                .with_no_exec()
                .with_writable(),
        }
    }
}

/// The registry carve-outs are pairwise distinct, so each registry claims
/// its segment exclusively.
pub proof fn lemma_registry_segments_disjoint()
    ensures
        AddressSpaceLayout::KERNEL_RING_REGISTRY_IDX
            != AddressSpaceLayout::KERNEL_MODULE_INSTANCE_REGISTRY_IDX,
        AddressSpaceLayout::KERNEL_RING_REGISTRY_IDX
            != AddressSpaceLayout::KERNEL_PORT_REGISTRY_IDX,
        AddressSpaceLayout::KERNEL_MODULE_INSTANCE_REGISTRY_IDX
            != AddressSpaceLayout::KERNEL_PORT_REGISTRY_IDX,
{
}

} // verus!
