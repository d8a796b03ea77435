use crate::block::{Block, AIR_ID, DARK_STONE_ID, LIGHT_STONE_ID, WATER_ID};
use crate::coords::Coords;
use vstd::arithmetic::div_mod::lemma_fundamental_div_mod;
use vstd::prelude::*;

verus! {

/// Sea level, in fifths of a block (the terrain model works on a
/// five-times-scaled vertical axis).
pub const SEA_LEVEL: i64 = 800;

/// Largest chunk coordinate the generator accepts on any axis, so that
/// the scaled block heights stay inside `i64`.
pub const CHUNK_COORD_LIMIT: i64 = 0x0080_0000_0000_0000;

/// Largest world coordinate on any axis whose owning chunk the generator
/// accepts: `CHUNK_COORD_LIMIT * 32`.
pub const WORLD_COORD_LIMIT: i64 = 0x1000_0000_0000_0000;

/// The two terrain heights of one (x, z) column, in fifths of a block:
/// the basalt floor and the granite surface. They are sampled from the
/// seeded noise fields by the caller; everything below is a pure
/// function of them.
#[derive(Copy, Clone, Debug, PartialEq, Eq, Structural)]
pub struct ColumnHeights {
    pub basalt: i64,
    pub granite: i64,
}

/// How many columns a chunk spans: 32 * 32.
pub const COLUMNS_PER_CHUNK: usize = 1024;

/// The terrain height of a column in blocks: the highest of sea level,
/// basalt floor and granite surface, scaled back down from fifths.
pub open spec fn spec_height(h: ColumnHeights) -> int {
    max3(SEA_LEVEL as int, h.basalt as int, h.granite as int) / 5
}

pub open spec fn max3(a: int, b: int, c: int) -> int {
    if a >= b && a >= c {
        a
    } else if b >= c {
        b
    } else {
        c
    }
}

/// The block generated at scaled height `y5 == 5 * y` in a column:
/// dark stone below the basalt floor, light stone below the granite
/// surface, water below sea level, air above.
pub open spec fn spec_default_block(y5: int, h: ColumnHeights) -> Block {
    if y5 < h.basalt {
        Block { matter: DARK_STONE_ID }
    } else if y5 < h.granite {
        Block { matter: LIGHT_STONE_ID }
    } else if y5 < SEA_LEVEL {
        Block { matter: WATER_ID }
    } else {
        Block { matter: AIR_ID }
    }
}

/// The column of the linear block index `i`: x is `i % 32`, z is
/// `i / 1024`, and the column table is ordered x-major.
pub open spec fn spec_column_of_index(i: int) -> int {
    (i % 32) * 32 + i / 1024
}

/// The scaled height of the block at linear index `i` in a chunk whose
/// lowest block sits at `first_y`: `5 * (first_y + (i / 32) % 32)`.
pub open spec fn spec_y5_of_index(first_y: int, i: int) -> int {
    5 * (first_y + (i / 32) % 32)
}

/// The block at linear index `i` of the chunk generated over `heights`,
/// whose lowest corner block has y-coordinate `first_y`.
pub open spec fn spec_gen_block(first_y: int, heights: Seq<ColumnHeights>, i: int) -> Block {
    spec_default_block(spec_y5_of_index(first_y, i), heights[spec_column_of_index(i)])
}

/// The full grid of generated blocks of the chunk at chunk
/// coordinate `cc`, in linear layout order.
pub open spec fn gen_blocks(cc: Coords, heights: Seq<ColumnHeights>) -> Seq<Block> {
    Seq::new(32768, |i: int| spec_gen_block(32 * cc.1 as int, heights, i))
}

/// True when the terrain of every column stays below the chunk that
/// starts at height `first_y`: the whole chunk is guaranteed air.
pub open spec fn spec_air_chunk(first_y: int, heights: Seq<ColumnHeights>) -> bool {
    forall|c: int| 0 <= c < 1024 ==> spec_height(#[trigger] heights[c]) < first_y
}

/// The generator accepts this chunk coordinate.
pub open spec fn spec_chunk_in_range(c: Coords) -> bool {
    &&& -CHUNK_COORD_LIMIT <= c.0 <= CHUNK_COORD_LIMIT
    &&& -CHUNK_COORD_LIMIT <= c.1 <= CHUNK_COORD_LIMIT
    &&& -CHUNK_COORD_LIMIT <= c.2 <= CHUNK_COORD_LIMIT
}

/// The block generated at scaled height `y5` over column heights `h`.
pub fn default_block(y5: i64, h: ColumnHeights) -> (r: Block)
    ensures
        r == spec_default_block(y5 as int, h),
{
    if y5 < h.basalt {
        Block { matter: DARK_STONE_ID }
    } else if y5 < h.granite {
        Block { matter: LIGHT_STONE_ID }
    } else if y5 < SEA_LEVEL {
        Block { matter: WATER_ID }
    } else {
        Block { matter: AIR_ID }
    }
}

/// The terrain height of a column in blocks.
pub fn height(h: ColumnHeights) -> (r: i64)
    ensures
        r as int == spec_height(h),
{
    let mut m: i64 = SEA_LEVEL;
    if h.basalt > m {
        m = h.basalt;
    }
    if h.granite > m {
        m = h.granite;
    }
    // m >= SEA_LEVEL > 0, so truncating division is floor division.
    proof {
        lemma_fundamental_div_mod(m as int, 5);
    }
    let q: i64 = m / 5;
    proof {
        assert(q as int == m as int / 5);
    }
    q
}

/// True when every column's terrain stays below the chunk whose lowest
/// block has y-coordinate `first_y`: generating it would yield only air.
pub fn air_chunk(first_y: i64, heights: &Vec<ColumnHeights>) -> (r: bool)
    requires
        heights@.len() == 1024,
    ensures
        r == spec_air_chunk(first_y as int, heights@),
{
    let mut c: usize = 0;
    while c < 1024
        invariant
            0 <= c <= 1024,
            heights@.len() == 1024,
            forall|k: int| 0 <= k < c ==> spec_height(#[trigger] heights@[k]) < first_y,
        decreases 1024 - c,
    {
        if height(heights[c]) >= first_y {
            return false;
        }
        c = c + 1;
    }
    true
}

/// Fills the 32768 blocks of the chunk whose lowest corner block is
/// `first`, in the fixed linear layout `x + 32 * y + 1024 * z`, taking
/// the generated default block of every position. When the air
/// predicate holds the per-block work is skipped, which
/// `lemma_air_chunk_all_air` shows changes nothing.
pub fn whole_chunk(first_y: i64, heights: &Vec<ColumnHeights>) -> (r: Vec<Block>)
    requires
        heights@.len() == 1024,
        -WORLD_COORD_LIMIT <= first_y as int,
        first_y as int + 32 <= WORLD_COORD_LIMIT as int + 32,
    ensures
        r@.len() == 32768,
        forall|i: int| 0 <= i < 32768 ==> r@[i] == spec_gen_block(first_y as int, heights@, i),
{
    let mut out: Vec<Block> = Vec::new();
    if air_chunk(first_y, heights) {
        let mut i: usize = 0;
        while i < 32768
            invariant
                0 <= i <= 32768,
                out@.len() == i,
                heights@.len() == 1024,
                spec_air_chunk(first_y as int, heights@),
                -WORLD_COORD_LIMIT <= first_y as int,
                first_y as int + 32 <= WORLD_COORD_LIMIT as int + 32,
                forall|k: int|
                    0 <= k < i ==> out@[k] == spec_gen_block(first_y as int, heights@, k),
            decreases 32768 - i,
        {
            proof {
                lemma_air_block(first_y as int, heights@, i as int);
            }
            out.push(Block { matter: AIR_ID });
            i = i + 1;
        }
        out
    } else {
        let mut i: usize = 0;
        while i < 32768
            invariant
                0 <= i <= 32768,
                out@.len() == i,
                heights@.len() == 1024,
                -WORLD_COORD_LIMIT <= first_y as int,
                first_y as int + 32 <= WORLD_COORD_LIMIT as int + 32,
                forall|k: int|
                    0 <= k < i ==> out@[k] == spec_gen_block(first_y as int, heights@, k),
            decreases 32768 - i,
        {
            let x: usize = i % 32;
            let y: usize = (i / 32) % 32;
            let z: usize = i / 1024;
            let col: usize = x * 32 + z;
            let y5: i64 = 5 * (first_y + y as i64);
            let b = default_block(y5, heights[col]);
            proof {
                assert(col as int == spec_column_of_index(i as int));
                assert(y5 as int == spec_y5_of_index(first_y as int, i as int));
            }
            out.push(b);
            i = i + 1;
        }
        out
    }
}

/// When the air predicate holds of a chunk's columns, the generated
/// block at every linear index of that chunk is air.
pub proof fn lemma_air_block(first_y: int, heights: Seq<ColumnHeights>, i: int)
    requires
        heights.len() == 1024,
        spec_air_chunk(first_y, heights),
        0 <= i < 32768,
    ensures
        spec_gen_block(first_y, heights, i) == (Block { matter: AIR_ID }),
{
    let c = spec_column_of_index(i);
    assert(0 <= i % 32 < 32 && 0 <= i / 1024 < 32);
    assert(0 <= c < 1024);
    let h = heights[c];
    let m = max3(SEA_LEVEL as int, h.basalt as int, h.granite as int);
    assert(spec_height(h) < first_y);
    lemma_fundamental_div_mod(m, 5);
    assert(m < 5 * first_y);
    let y5 = spec_y5_of_index(first_y, i);
    assert(0 <= (i / 32) % 32 < 32);
    assert(y5 >= 5 * first_y);
    assert(y5 >= SEA_LEVEL && y5 >= h.basalt && y5 >= h.granite);
}

/// If the air predicate holds of a chunk's columns, every block the
/// generator produces for that chunk is air.
pub proof fn lemma_air_chunk_all_air(first_y: int, heights: Seq<ColumnHeights>)
    requires
        heights.len() == 1024,
        spec_air_chunk(first_y, heights),
    ensures
        forall|i: int|
            0 <= i < 32768 ==> spec_gen_block(first_y, heights, i) == (Block { matter: AIR_ID }),
{
    assert forall|i: int| 0 <= i < 32768 implies spec_gen_block(first_y, heights, i) == (Block {
        matter: AIR_ID,
    }) by {
        lemma_air_block(first_y, heights, i);
    }
}

} // verus!
