use oro_kernel::address_space::AddressSpaceLayout;
use oro_kernel::boot_protocol::{MemoryMapEntry, MemoryMapEntryType, SecondaryCpu};
use oro_kernel::layout::{
    Layout, PageTableEntry, PTE_GLOBAL, PTE_NO_EXEC, PTE_PRESENT, PTE_USER, PTE_WRITABLE,
    PTE_WRITE_THROUGH,
};

#[test]
fn page_table_entry_accumulates_flags() {
    let e = PageTableEntry::new();
    assert_eq!(e.bits(), 0);
    let e = e.with_present().with_writable().with_user().with_write_through();
    assert_eq!(
        e.bits(),
        PTE_PRESENT | PTE_WRITABLE | PTE_USER | PTE_WRITE_THROUGH
    );
    let e = e.with_global().with_no_exec();
    assert_eq!(
        e.bits(),
        PTE_PRESENT | PTE_WRITABLE | PTE_USER | PTE_WRITE_THROUGH | PTE_GLOBAL | PTE_NO_EXEC
    );
}

#[test]
fn layout_descriptors_pin_indices_and_flags() {
    let stubs = Layout::stubs();
    assert_eq!(stubs.valid_range, (Layout::STUBS_IDX, Layout::STUBS_IDX));
    assert_eq!(stubs.entry_template.bits(), PTE_PRESENT | PTE_WRITABLE);
    let stack = Layout::kernel_stack();
    assert_eq!(
        stack.valid_range,
        (Layout::KERNEL_STACK_IDX, Layout::KERNEL_STACK_IDX)
    );
    assert_eq!(
        stack.entry_template.bits(),
        PTE_PRESENT | PTE_WRITABLE | PTE_NO_EXEC
    );
    let code = Layout::kernel_code();
    assert_eq!(code.entry_template.bits(), PTE_USER | PTE_GLOBAL | PTE_PRESENT);
    let data = Layout::kernel_data();
    assert_eq!(
        data.entry_template.bits(),
        PTE_GLOBAL | PTE_PRESENT | PTE_NO_EXEC | PTE_WRITABLE
    );
    let rodata = Layout::kernel_rodata();
    assert_eq!(
        rodata.entry_template.bits(),
        PTE_GLOBAL | PTE_PRESENT | PTE_NO_EXEC
    );
    let direct = Layout::direct_map();
    assert_eq!(direct.valid_range, (258, 300));
}

#[test]
fn supervisor_segments_pin_indices_and_flags() {
    let lin = AddressSpaceLayout::linear_map();
    assert_eq!(lin.valid_range, (259, 320));
    assert_eq!(
        lin.entry_template.bits(),
        PTE_GLOBAL | PTE_PRESENT | PTE_NO_EXEC | PTE_WRITABLE | PTE_WRITE_THROUGH
    );
    let ring = AddressSpaceLayout::kernel_ring_registry();
    assert_eq!(
        ring.valid_range,
        (
            AddressSpaceLayout::KERNEL_RING_REGISTRY_IDX,
            AddressSpaceLayout::KERNEL_RING_REGISTRY_IDX
        )
    );
    let port = AddressSpaceLayout::kernel_port_registry();
    let inst = AddressSpaceLayout::kernel_module_instance_registry();
    // The registry carve-outs are pairwise distinct.
    assert_ne!(ring.valid_range.0, port.valid_range.0);
    assert_ne!(ring.valid_range.0, inst.valid_range.0);
    assert_ne!(port.valid_range.0, inst.valid_range.0);
    let local = AddressSpaceLayout::kernel_core_local();
    assert_eq!(
        local.valid_range.0,
        AddressSpaceLayout::KERNEL_CORE_LOCAL_IDX
    );
    let stack = AddressSpaceLayout::kernel_stack();
    assert_eq!(
        stack.entry_template.bits(),
        PTE_PRESENT | PTE_WRITABLE | PTE_NO_EXEC
    );
    let code = AddressSpaceLayout::kernel_code();
    let data = AddressSpaceLayout::kernel_data();
    let rodata = AddressSpaceLayout::kernel_rodata();
    assert_eq!(code.valid_range, data.valid_range);
    assert_eq!(data.valid_range, rodata.valid_range);
    // The kernel executable segments share one intermediate template, so
    // overlapping mappings agree.
    assert_eq!(
        code.intermediate_entry_template.bits(),
        data.intermediate_entry_template.bits()
    );
    assert_eq!(
        data.intermediate_entry_template.bits(),
        rodata.intermediate_entry_template.bits()
    );
}

#[test]
fn memory_map_entries_compare_by_base_alone() {
    let a = MemoryMapEntry { base: 0x1000, length: 4096, ty: MemoryMapEntryType::Usable };
    let b = MemoryMapEntry { base: 0x1000, length: 8192, ty: MemoryMapEntryType::Bad };
    let c = MemoryMapEntry { base: 0x2000, length: 4096, ty: MemoryMapEntryType::Usable };
    assert!(a == b);
    assert!(a != c);
    assert_eq!(
        a.partial_cmp(&c),
        Some(std::cmp::Ordering::Less)
    );
    assert_eq!(
        a.partial_cmp(&b),
        Some(std::cmp::Ordering::Equal)
    );
    assert_eq!(
        c.partial_cmp(&a),
        Some(std::cmp::Ordering::Greater)
    );
}

#[test]
fn memory_map_entry_types_are_distinct() {
    assert_ne!(MemoryMapEntryType::Unknown, MemoryMapEntryType::Usable);
    assert_ne!(
        MemoryMapEntryType::BootloaderReclaim,
        MemoryMapEntryType::Modules
    );
    assert_ne!(MemoryMapEntryType::Bad, MemoryMapEntryType::Unknown);
    let t = MemoryMapEntryType::Usable;
    let u = t;
    assert_eq!(t, u);
}

#[test]
fn secondary_cpu_carries_id_and_entry() {
    let cpu = SecondaryCpu { id: 3, entry: 0x8000 };
    let copy = cpu.clone();
    assert_eq!(copy.id, 3);
    assert_eq!(copy.entry, 0x8000);
}
