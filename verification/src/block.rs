use vstd::prelude::*;

verus! {

/// A block's matter identifier: one byte.
pub type BlockId = u8;

/// Identifier of air, the empty block.
pub const AIR_ID: BlockId = 0;

/// Identifier of the dark stone laid below the basalt height.
pub const DARK_STONE_ID: BlockId = 1;

/// Identifier of water, filling open space below sea level.
pub const WATER_ID: BlockId = 2;

/// Identifier of the light stone laid below the granite height.
pub const LIGHT_STONE_ID: BlockId = 3;

/// One voxel of matter, identified by a one-byte id.
#[derive(Copy, Clone, Debug, PartialEq, Eq, Structural)]
pub struct Block {
    pub matter: BlockId,
}

impl Block {
    /// True when this block is air.
    pub open spec fn is_air(self) -> bool {
        self.matter == AIR_ID
    }

    pub fn new(id: BlockId) -> (r: Block)
        ensures
            r.matter == id,
    {
        Block { matter: id }
    }

    /// The empty block.
    pub fn air() -> (r: Block)
        ensures
            r.matter == AIR_ID,
            r.is_air(),
    {
        Block { matter: AIR_ID }
    }
}

} // verus!
