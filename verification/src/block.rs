//! Block identifiers.

use vstd::prelude::*;

verus! {

/// What occupies one voxel.
#[derive(Clone, Copy, Debug, PartialEq, Eq, Structural, Hash)]
pub enum BlockId {
    Air,
    Grass,
    Dirt,
    Stone,
    Bedrock,
}

impl BlockId {
    /// Every block but air stops movement and rays.
    pub open spec fn solid(self) -> bool {
        self != BlockId::Air
    }

    /// Decides `solid`.
    pub fn is_solid(&self) -> (b: bool)
        ensures
            b == self.solid(),
    {
        match self {
            BlockId::Air => false,
            _ => true,
        }
    }
}

} // verus!
