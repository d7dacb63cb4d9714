//! The capability an external spatial-partitioning structure (for instance a
//! bounding-volume hierarchy) needs of a key, so the arena's handles can
//! double as its keys without a second indirection table.

use vstd::prelude::*;

use crate::space::Index;

verus! {

/// A key an external acceleration structure can index its nodes by: a dense
/// zero-based `usize`, plus a well-defined sentinel usable as a tombstone.
pub trait SpatialKey: Sized {
    /// The dense key this value exposes.
    spec fn spec_key(self) -> int;

    /// The sentinel value.
    spec fn spec_sentinel() -> Self;

    /// The dense key, for indexing into the external structure.
    fn key(&self) -> (r: usize)
        ensures
            r as int == self.spec_key(),
    ;

    /// The sentinel ("no object") value.
    fn sentinel() -> (r: Self)
        ensures
            r == Self::spec_sentinel(),
    ;
}

impl SpatialKey for Index {
    /// A handle's dense key is its slot position.
    open spec fn spec_key(self) -> int {
        self.pos() as int
    }

    /// The arena's sentinel handle.
    open spec fn spec_sentinel() -> Self {
        Index::invalid_spec()
    }

    fn key(&self) -> (r: usize) {
        self.into_raw_parts().0 as usize
    }

    fn sentinel() -> (r: Self) {
        let r = Index::from_raw_parts(u32::MAX, u32::MAX);
        proof {
            Index::lemma_sentinel_parts();
            Index::lemma_parts_determine_index(r, Index::invalid_spec());
        }
        r
    }
}

} // verus!
