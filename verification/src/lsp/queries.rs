//! What the query database records of each query.
use vstd::prelude::*;

verus! {

/// When a query's value was last verified and when it last changed, by revision.
#[derive(Debug)]
pub struct Revision {
    verified_at: usize,
    changed_at: usize,
}

impl Revision {
    /// The revision at which the value was last verified.
    pub closed spec fn verified_at(&self) -> int {
        self.verified_at as int
    }

    /// The revision at which the value last changed.
    pub closed spec fn changed_at(&self) -> int {
        self.changed_at as int
    }
}

impl Default for Revision {
    /// A value verified and changed at the first revision.
    fn default() -> (r: Self)
        ensures
            r.verified_at() == 0,
            r.changed_at() == 0,
    {
        Revision { verified_at: 0, changed_at: 0 }
    }
}

} // verus!
