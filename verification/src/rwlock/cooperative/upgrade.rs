//! An upgradable reader that becomes a writer for good.
//!
//! This is apart from the guards themselves. What is here has no way to the lock
//! but a guard, and gives a place back only by parting with the guard that stands
//! for it: an upgradable reader that does not become a writer gives back nothing.

use vstd::prelude::*;

use crate::cell;
use crate::cell::WordCell;
use crate::rwlock::cooperative::rwlock::{UpgradableReaderGuard, UpgradeTry};
use crate::rwlock::cooperative::state;
use crate::rwlock::cooperative::state::CoopStep;

verus! {

impl<'a, C: WordCell> UpgradableReaderGuard<'a, C> {
    /// The upgradable reader tries to become a writer, and gives up its place
    /// as an upgradable reader if it does and the place is its own.
    pub fn try_upgrade(self) -> (r: UpgradeTry<'a, C>)
        ensures
            cell::attempt_on(r.upgrade, self.lock().heart().source(), CoopStep::Upgrade),
            r.guard is Ok <==> r.upgrade.swapped(),
            r.guard matches Ok(g) ==> g.lock() == self.lock() && g.lent() == (
            self.place() is Lent),
            r.guard matches Err(g) ==> g == self,
            r.left is Some <==> r.upgrade.swapped() && self.place() is Own,
            r.left matches Some(l) ==> l.holds(
                self.lock().heart().source(),
                CoopStep::ReleaseUpgradable,
            ),
        opens_invariants [
            state::step_name(CoopStep::Upgrade),
            cell::name_if(
                self.place() is Own,
                state::step_name(CoopStep::ReleaseUpgradable),
            ),
        ]
    {
        let upgrade = self.attempt_upgrade_();
        if !upgrade.is_succ() {
            return UpgradeTry { guard: Err(self), upgrade, left: None };
        }
        let writer = self.writer_by_(&upgrade);
        let left = self.release();
        UpgradeTry { guard: Ok(writer), upgrade, left }
    }
}

} // verus!
