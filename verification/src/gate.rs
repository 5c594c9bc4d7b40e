//! The daemon's upgrade gate: a single mutual-exclusion flag that serializes
//! the long-running full-upgrade operation. At most one upgrade may be in
//! flight at any time; acquiring the flag succeeds exactly once per idle
//! period, and the background operation releases it unconditionally when it
//! finishes.

use vstd::prelude::*;

verus! {

/// Mutual-exclusion flag guarding the daemon's full-upgrade operation.
///
/// The abstract state (the view) is a single boolean: `true` while an
/// upgrade is in flight, `false` when the daemon is idle.
pub struct UpgradeGate {
    upgrading: bool,
}

impl View for UpgradeGate {
    type V = bool;

    closed spec fn view(&self) -> bool {
        self.upgrading
    }
}

impl UpgradeGate {
    /// A fresh gate starts idle.
    pub fn new() -> (g: UpgradeGate)
        ensures
            !g@,
    {
        UpgradeGate { upgrading: false }
    }

    /// Compare-and-swap acquisition: succeeds if and only if the flag was
    /// idle, and the flag is set afterwards in either case (on failure it
    /// was already held and is left untouched).
    pub fn try_acquire(&mut self) -> (ok: bool)
        ensures
            ok == !old(self)@,
            final(self)@,
    {
        if self.upgrading {
            false
        } else {
            self.upgrading = true;
            true
        }
    }

    /// Unconditional release: whatever the upgrade operation's outcome, the
    /// gate returns to idle.
    pub fn release(&mut self)
        ensures
            !final(self)@,
    {
        self.upgrading = false;
    }

    /// Pure read of the flag, as the status endpoint performs it.
    pub fn is_upgrading(&self) -> (b: bool)
        ensures
            b == self@,
    {
        self.upgrading
    }
}

} // verus!
