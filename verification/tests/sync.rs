use oro_kernel::arch::{Config, X86_64, RFLAGS_IF};
use oro_kernel::sync::{InterruptControl, UnfairSpinlock};
use oro_kernel::translate::{OffsetPhysicalAddressTranslator, PhysicalAddressTranslator};

#[test]
fn lock_disables_interrupts_and_unlock_restores_them_exactly() {
    // The flags register carries more than the interrupt bit; release must
    // restore the prior state exactly, not unconditionally re-enable.
    let mut ctl = X86_64::new(RFLAGS_IF | 0x2);
    let mut lock = UnfairSpinlock::new(5u32);
    let guard = lock.lock(&mut ctl);
    assert_eq!(ctl.fetch_interrupts(), 0x2);
    assert_eq!(*lock.value(&guard), 5);
    *lock.value_mut(&guard) = 7;
    lock.unlock(&mut ctl, guard);
    assert_eq!(ctl.fetch_interrupts(), RFLAGS_IF | 0x2);
    // The update through the guard persisted.
    let mut ctl2 = X86_64::new(0);
    let guard = lock.lock(&mut ctl2);
    assert_eq!(*lock.value(&guard), 7);
    lock.unlock(&mut ctl2, guard);
}

#[test]
fn try_lock_fails_on_a_held_lock_without_touching_interrupts() {
    let mut ctl = X86_64::new(RFLAGS_IF);
    let mut lock = UnfairSpinlock::new(0u8);
    let first = lock.try_lock(&mut ctl);
    assert!(first.is_some());
    let state_while_held = ctl.fetch_interrupts();
    let second = lock.try_lock(&mut ctl);
    assert!(second.is_none());
    assert_eq!(ctl.fetch_interrupts(), state_while_held);
    lock.unlock(&mut ctl, first.unwrap());
    assert_eq!(ctl.fetch_interrupts(), RFLAGS_IF);
}

#[test]
fn interrupt_state_save_and_restore_round_trips() {
    let mut ctl = X86_64::new(0xABCD | RFLAGS_IF);
    let saved = ctl.fetch_interrupts();
    ctl.disable_interrupts();
    assert_eq!(ctl.fetch_interrupts() & RFLAGS_IF, 0);
    ctl.restore_interrupts(saved);
    assert_eq!(ctl.fetch_interrupts(), 0xABCD | RFLAGS_IF);
}

#[test]
fn offset_translator_applies_its_offset() {
    let pat = OffsetPhysicalAddressTranslator::new(0xFFFF_0000);
    assert_eq!(pat.to_virtual_addr(0x1234), 0xFFFF_1234);
}

#[test]
fn config_carries_the_rsdp_address() {
    let config = Config { rdsp_phys: 0xE_0000 };
    assert_eq!(config.rdsp_phys, 0xE_0000);
}
