//! Task exclusivity guard: a single-slot, non-blocking admission flag.
//!
//! Exactly one logical slot exists for the whole process: a media download
//! and a component repair cannot run concurrently, nor can two downloads.
//! The embedding application owns one `TaskGuard` behind its own mutual
//! exclusion primitive and holds the slot for the entire guarded operation,
//! releasing it unconditionally on every exit path.

use vstd::prelude::*;

verus! {

/// One process-wide admission slot. `try_acquire` never blocks: a second
/// caller while the slot is held is turned away immediately.
pub struct TaskGuard {
    held: bool,
}

impl TaskGuard {
    /// Whether the slot is currently held.
    pub closed spec fn is_held(&self) -> bool {
        self.held
    }

    /// A fresh guard starts available.
    pub fn new() -> (g: TaskGuard)
        ensures
            !g.is_held(),
    {
        TaskGuard { held: false }
    }

    /// Non-blocking acquire: succeeds exactly when the slot was free,
    /// and leaves the slot held either way (a failed attempt leaves the
    /// previous holder in place).
    pub fn try_acquire(&mut self) -> (acquired: bool)
        ensures
            acquired == !old(self).is_held(),
            final(self).is_held(),
    {
        if self.held {
            false
        } else {
            self.held = true;
            true
        }
    }

    /// Unconditional release: the slot is free afterwards, whatever
    /// happened to the guarded operation.
    pub fn release(&mut self)
        ensures
            !final(self).is_held(),
    {
        self.held = false;
    }

    /// Read the slot without acquiring it (the window-close check).
    pub fn peek(&self) -> (held: bool)
        ensures
            held == self.is_held(),
    {
        self.held
    }
}

} // verus!
