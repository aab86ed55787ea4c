//! The critical-section lock: an unfair spinlock that disables interrupts
//! for the duration of the hold and restores the prior interrupt state
//! exactly on release.
//!
//! In the running kernel the lock spins on an atomic flag shared by all
//! cores; acquiring blocks by busy-waiting, with no queueing or fairness.
//! In this sequential model the flag is an ordinary field and mutual
//! exclusion is carried by `&mut` exclusivity, so [`UnfairSpinlock::lock`]
//! asks that the lock is not already held — the spin that the running
//! kernel would perform can never finish here.  Code running under the
//! lock must not fault, as no unwinding path releases it.

use vstd::prelude::*;

verus! {

/// The interrupt-control capability of a core: fetch, disable and restore
/// the interrupt-enable state.  Used exclusively by the lock primitive;
/// each architecture implements it against what the platform exposes.
pub trait InterruptControl {
    /// The core's current interrupt state.
    spec fn spec_state(&self) -> u64;

    /// Whether interrupts are currently enabled.
    spec fn spec_enabled(&self) -> bool;

    /// Fetches the current interrupt state, to be restored later.
    fn fetch_interrupts(&self) -> (r: u64)
        ensures
            r == self.spec_state(),
    ;

    /// Disables interrupts on the core.
    fn disable_interrupts(&mut self)
        ensures
            !final(self).spec_enabled(),
    ;

    /// Restores a previously fetched interrupt state exactly — not
    /// unconditionally re-enabling.
    fn restore_interrupts(&mut self, state: u64)
        ensures
            final(self).spec_state() == state,
    ;
}

/// A lock held by an [`UnfairSpinlock`]; holds the interrupt state to
/// restore on release.  The guard is linear: it cannot be duplicated, and
/// giving it back through [`UnfairSpinlock::unlock`] is the only way to
/// release the lock.
pub struct UnfairSpinlockGuard {
    /// The interrupt state fetched when the lock was acquired.
    interrupt_state: u64,
}

impl UnfairSpinlockGuard {
    /// The interrupt state fetched when the lock was acquired.
    pub closed spec fn spec_saved(self) -> u64 {
        self.interrupt_state
    }
}

/// The primary unfair spinlock of the kernel: simple, low-overhead, and
/// with no fairness guarantee — a core may be indefinitely delayed under
/// contention.  Acquiring puts the core into a critical section by
/// disabling interrupts; releasing restores the prior interrupt state.
pub struct UnfairSpinlock<T> {
    /// Whether some core currently owns the lock.
    owned: bool,
    /// The protected value.
    value: T,
}

impl<T> UnfairSpinlock<T> {
    /// Whether some core currently owns the lock.
    pub closed spec fn spec_owned(self) -> bool {
        self.owned
    }

    /// The protected value.
    pub closed spec fn spec_value(self) -> T {
        self.value
    }

    /// Creates a new, unowned spinlock around `value`.
    pub fn new(value: T) -> (r: UnfairSpinlock<T>)
        ensures
            !r.spec_owned(),
            r.spec_value() == value,
    {
        UnfairSpinlock { owned: false, value }
    }

    /// Attempts to acquire the lock.  If it is currently owned this returns
    /// `None` and touches nothing; otherwise it fetches the interrupt
    /// state, disables interrupts, and hands out the guard.
    pub fn try_lock<C: InterruptControl>(&mut self, ctl: &mut C) -> (r: Option<
        UnfairSpinlockGuard,
    >)
        ensures
            r is Some <==> !old(self).spec_owned(),
            final(self).spec_value() == old(self).spec_value(),
            match r {
                Some(g) => {
                    &&& final(self).spec_owned()
                    &&& g.spec_saved() == old(ctl).spec_state()
                    &&& !final(ctl).spec_enabled()
                },
                None => final(self).spec_owned() && *final(ctl) == *old(ctl),
            },
    {
        if self.owned {
            None
        } else {
            self.owned = true;
            let interrupt_state = ctl.fetch_interrupts();
            ctl.disable_interrupts();
            Some(UnfairSpinlockGuard { interrupt_state })
        }
    }

    /// Acquires the lock.  In the running kernel this spins until the lock
    /// is free; in this sequential model the lock must not already be held,
    /// since no other core exists to release it.
    pub fn lock<C: InterruptControl>(&mut self, ctl: &mut C) -> (g: UnfairSpinlockGuard)
        requires
            !old(self).spec_owned(),
        ensures
            final(self).spec_owned(),
            final(self).spec_value() == old(self).spec_value(),
            g.spec_saved() == old(ctl).spec_state(),
            !final(ctl).spec_enabled(),
    {
        let interrupt_state = ctl.fetch_interrupts();
        ctl.disable_interrupts();
        match self.try_lock_with_interrupt_state(interrupt_state) {
            Some(g) => g,
            None => vstd::pervasive::unreached(),
        }
    }

    /// Tries to acquire the lock with an interrupt state that was already
    /// fetched (and interrupts already disabled).
    fn try_lock_with_interrupt_state(&mut self, interrupt_state: u64) -> (r: Option<
        UnfairSpinlockGuard,
    >)
        ensures
            r is Some <==> !old(self).spec_owned(),
            final(self).spec_owned(),
            final(self).spec_value() == old(self).spec_value(),
            r matches Some(g) ==> g.spec_saved() == interrupt_state,
    {
        if self.owned {
            None
        } else {
            self.owned = true;
            Some(UnfairSpinlockGuard { interrupt_state })
        }
    }

    /// Releases the lock, consuming the guard: the lock is freed first and
    /// the interrupt state restored after, so an interrupt arriving in
    /// between cannot starve other cores for the handler's duration.
    pub fn unlock<C: InterruptControl>(&mut self, ctl: &mut C, guard: UnfairSpinlockGuard)
        requires
            old(self).spec_owned(),
        ensures
            !final(self).spec_owned(),
            final(self).spec_value() == old(self).spec_value(),
            final(ctl).spec_state() == guard.spec_saved(),
    {
        self.owned = false;
        ctl.restore_interrupts(guard.interrupt_state);
    }

    /// Shared access to the protected value while the lock is held.
    pub fn value(&self, _guard: &UnfairSpinlockGuard) -> (r: &T)
        requires
            self.spec_owned(),
        ensures
            *r == self.spec_value(),
    {
        &self.value
    }

    /// Exclusive access to the protected value while the lock is held.
    pub fn value_mut(&mut self, _guard: &UnfairSpinlockGuard) -> (r: &mut T)
        requires
            old(self).spec_owned(),
        ensures
            *r == old(self).spec_value(),
            final(self).spec_owned() == old(self).spec_owned(),
            final(self).spec_value() == *final(r),
    {
        &mut self.value
    }
}

} // verus!
