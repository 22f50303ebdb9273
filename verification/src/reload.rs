//! Reopen-on-change: a store that is read through a handle is opened again
//! when the time at which its marker file was last modified has changed.

use vstd::prelude::*;

verus! {

/// Seconds to wait before a failed reopening is tried again.
pub const RETRY_DELAY: u64 = 3;

/// Remembers when the marker file was last seen modified.
pub struct ReloadWatch {
    last_modified: u64,
}

impl ReloadWatch {
    /// The modification time that was seen last.
    pub closed spec fn seen(&self) -> u64 {
        self.last_modified
    }

    /// A watch that has seen the modification time `now`.
    pub fn new(now: u64) -> (w: Self)
        ensures
            w.seen() == now,
    {
        ReloadWatch { last_modified: now }
    }

    /// Takes the modification time of the marker file, as far as it could be
    /// read, and tells whether the store is to be opened again: it is when
    /// the time differs from the one seen last, which is then remembered.
    pub fn check_for_reload(&mut self, modified: Option<u64>) -> (reload: bool)
        ensures
            reload == (modified matches Some(t) && t != old(self).seen()),
            final(self).seen() == (match modified {
                Some(t) => t,
                None => old(self).seen(),
            }),
    {
        match modified {
            Some(t) => {
                if t != self.last_modified {
                    self.last_modified = t;
                    true
                } else {
                    false
                }
            },
            None => false,
        }
    }
}

} // verus!
