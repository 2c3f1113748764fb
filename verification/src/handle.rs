//! Object handles: stable identifiers into the world's handle table.

use vstd::prelude::*;

verus! {

/// An opaque, comparable, hashable identifier of a stored object. The
/// generation survives slot reuse, so a handle of a removed object is
/// detectably invalid rather than silently naming its successor.
#[derive(Clone, Copy, Debug, PartialEq, Eq, Hash, PartialOrd, Ord, Structural)]
pub struct Handle {
    pub(crate) index: usize,
    pub(crate) generation: u64,
}

} // verus!
