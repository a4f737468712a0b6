use vstd::prelude::*;

verus! {

/// Snapshot of the navigator handed to session persistence: the depth the
/// user was browsing at.  It is read back on the next start and applied as
/// an initial depth override, clamped to the store's maximum depth.
pub struct Session {
    pub depth: u16,
}

impl Session {
    /// The depth this session asks for, clamped to `max_depth`.
    pub fn clamped_depth(&self, max_depth: u16) -> (d: u16)
        ensures
            d == if self.depth <= max_depth {
                self.depth
            } else {
                max_depth
            },
    {
        if self.depth <= max_depth {
            self.depth
        } else {
            max_depth
        }
    }
}

} // verus!
