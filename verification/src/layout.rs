//! The kernel's address-space layout on x86_64, as segment descriptors:
//! which top-level page-table indices each logical segment may use, and the
//! page-table entry template its mappings are stamped from.

use vstd::prelude::*;

verus! {

/// The present bit of a page-table entry.
pub const PTE_PRESENT: u64 = 0x1;

/// The writable bit of a page-table entry.
pub const PTE_WRITABLE: u64 = 0x2;

/// The user-accessible bit of a page-table entry.
pub const PTE_USER: u64 = 0x4;

/// The write-through bit of a page-table entry.
pub const PTE_WRITE_THROUGH: u64 = 0x8;

/// The global bit of a page-table entry.
pub const PTE_GLOBAL: u64 = 0x100;

/// The no-execute bit of a page-table entry.
pub const PTE_NO_EXEC: u64 = 0x8000000000000000;

/// Bitwise or with zero is the identity; ties the flag chains the segment
/// constructors build to the flag unions their contracts state.
pub(crate) proof fn lemma_or_zero_u64(x: u64)
    ensures
        0u64 | x == x,
{
    assert(0u64 | x == x) by (bit_vector);
}

/// An x86_64 page-table entry, built up flag by flag from zero.
#[derive(Debug, Clone, Copy, PartialEq, Eq, Structural)]
pub struct PageTableEntry {
    /// The raw bits of the entry.
    bits: u64,
}

impl PageTableEntry {
    /// The raw bits of the entry.
    pub closed spec fn spec_bits(self) -> u64 {
        self.bits
    }

    /// An empty entry.
    pub fn new() -> (r: PageTableEntry)
        ensures
            r.spec_bits() == 0,
    {
        PageTableEntry { bits: 0 }
    }

    /// The entry with the present bit raised.
    pub fn with_present(self) -> (r: PageTableEntry)
        ensures
            r.spec_bits() == self.spec_bits() | PTE_PRESENT,
    {
        PageTableEntry { bits: self.bits | PTE_PRESENT }
    }

    /// The entry with the writable bit raised.
    pub fn with_writable(self) -> (r: PageTableEntry)
        ensures
            r.spec_bits() == self.spec_bits() | PTE_WRITABLE,
    {
        PageTableEntry { bits: self.bits | PTE_WRITABLE }
    }

    /// The entry with the user-accessible bit raised.
    pub fn with_user(self) -> (r: PageTableEntry)
        ensures
            r.spec_bits() == self.spec_bits() | PTE_USER,
    {
        PageTableEntry { bits: self.bits | PTE_USER }
    }

    /// The entry with the write-through bit raised.
    pub fn with_write_through(self) -> (r: PageTableEntry)
        ensures
            r.spec_bits() == self.spec_bits() | PTE_WRITE_THROUGH,
    {
        PageTableEntry { bits: self.bits | PTE_WRITE_THROUGH }
    }

    /// The entry with the global bit raised.
    pub fn with_global(self) -> (r: PageTableEntry)
        ensures
            r.spec_bits() == self.spec_bits() | PTE_GLOBAL,
    {
        PageTableEntry { bits: self.bits | PTE_GLOBAL }
    }

    /// The entry with the no-execute bit raised.
    pub fn with_no_exec(self) -> (r: PageTableEntry)
        ensures
            r.spec_bits() == self.spec_bits() | PTE_NO_EXEC,
    {
        PageTableEntry { bits: self.bits | PTE_NO_EXEC }
    }

    /// The raw bits of the entry.
    pub fn bits(&self) -> (r: u64)
        ensures
            r == self.spec_bits(),
    {
        self.bits
    }
}

/// Initialization and range information for one address-space segment: the
/// valid range of top-level page-table indices, and the template for the
/// entries mapped into it.
pub struct Descriptor {
    /// The valid range of top-level indices for this segment.
    pub valid_range: (usize, usize),
    /// A template for the page-table entry to use for this segment.
    pub entry_template: PageTableEntry,
}

/// The layout of the address space for the x86_64 architecture.
pub struct Layout;

impl Layout {
    /// The kernel executable index, shared by the code, rodata and data
    /// segments.
    pub const KERNEL_EXE_IDX: usize = 511;

    /// The stack space index.
    pub const KERNEL_STACK_IDX: usize = 257;

    /// The recursive index for the page table.
    pub const RECURSIVE_IDX: usize = 256;

    /// The index for kernel transfer stubs.
    pub const STUBS_IDX: usize = 255;

    /// The segment holding the kernel transfer stubs: present and
    /// writable.
    pub fn stubs() -> (r: Descriptor)
        ensures
            r.valid_range == (Layout::STUBS_IDX, Layout::STUBS_IDX),
            r.entry_template.spec_bits() == PTE_PRESENT | PTE_WRITABLE,
    {
        proof {
            lemma_or_zero_u64(PTE_PRESENT);
        }
        Descriptor {
            valid_range: (Layout::STUBS_IDX, Layout::STUBS_IDX),
            entry_template: PageTableEntry::new().with_present().with_writable(),
        }
    }

    /// The kernel stack segment: present, writable, never executable.
    pub fn kernel_stack() -> (r: Descriptor)
        ensures
            r.valid_range == (Layout::KERNEL_STACK_IDX, Layout::KERNEL_STACK_IDX),
            r.entry_template.spec_bits() == PTE_PRESENT | PTE_WRITABLE | PTE_NO_EXEC,
    {
        proof {
            lemma_or_zero_u64(PTE_PRESENT);
        }
        Descriptor {
            valid_range: (Layout::KERNEL_STACK_IDX, Layout::KERNEL_STACK_IDX),
            entry_template: PageTableEntry::new().with_present().with_writable().with_no_exec(),
        }
    }

    /// The kernel code segment: executable, global, present.
    pub fn kernel_code() -> (r: Descriptor)
        ensures
            r.valid_range == (Layout::KERNEL_EXE_IDX, Layout::KERNEL_EXE_IDX),
            r.entry_template.spec_bits() == PTE_USER | PTE_GLOBAL | PTE_PRESENT,
    {
        proof {
            lemma_or_zero_u64(PTE_USER);
        }
        Descriptor {
            valid_range: (Layout::KERNEL_EXE_IDX, Layout::KERNEL_EXE_IDX),
            entry_template: PageTableEntry::new().with_user().with_global().with_present(),
        }
    }

    /// The kernel data segment: writable, never executable.
    pub fn kernel_data() -> (r: Descriptor)
        ensures
            r.valid_range == (Layout::KERNEL_EXE_IDX, Layout::KERNEL_EXE_IDX),
            r.entry_template.spec_bits() == PTE_GLOBAL | PTE_PRESENT | PTE_NO_EXEC | PTE_WRITABLE,
    {
        proof {
            lemma_or_zero_u64(PTE_GLOBAL);
        }
        Descriptor {
            valid_range: (Layout::KERNEL_EXE_IDX, Layout::KERNEL_EXE_IDX),
            entry_template: PageTableEntry::new()
                .with_global()
                .with_present()
                .with_no_exec()
                .with_writable(),
        }
    }

    /// The kernel read-only data segment: never writable or executable.
    pub fn kernel_rodata() -> (r: Descriptor)
        ensures
            r.valid_range == (Layout::KERNEL_EXE_IDX, Layout::KERNEL_EXE_IDX),
            r.entry_template.spec_bits() == PTE_GLOBAL | PTE_PRESENT | PTE_NO_EXEC,
    {
        proof {
            lemma_or_zero_u64(PTE_GLOBAL);
        }
        Descriptor {
            valid_range: (Layout::KERNEL_EXE_IDX, Layout::KERNEL_EXE_IDX),
            entry_template: PageTableEntry::new().with_global().with_present().with_no_exec(),
        }
    }

    /// The direct map of physical memory.
    pub fn direct_map() -> (r: Descriptor)
        ensures
            r.valid_range == (258usize, 300usize),
            r.entry_template.spec_bits() == PTE_GLOBAL | PTE_PRESENT | PTE_NO_EXEC | PTE_WRITABLE,
    {
        proof {
            lemma_or_zero_u64(PTE_GLOBAL);
        }
        Descriptor {
            valid_range: (258, 300),
            entry_template: PageTableEntry::new()
                .with_global()
                .with_present()
                .with_no_exec()
                .with_writable(),
        }
    }
}

} // verus!
