use vstd::arithmetic::div_mod::{lemma_fundamental_div_mod, lemma_fundamental_div_mod_converse};
use vstd::prelude::*;

verus! {

/// An integer triple. Depending on context it is an absolute block
/// position (unbounded), a chunk position, or a position inside a chunk.
#[derive(Copy, Clone, Debug, PartialEq, Eq, Structural)]
pub struct Coords(pub i64, pub i64, pub i64);

/// Width of a chunk along each axis, in blocks.
pub const CHUNK_SIZE: usize = 32;

/// Half the `i64` range, used to shift a signed coordinate into `u64`
/// so that division rounds the same way for negative coordinates.
const BIAS: u64 = 0x8000_0000_0000_0000;

/// `BIAS / 32`.
const BIAS_32: i64 = 0x0400_0000_0000_0000;

/// Floor division of a coordinate by the chunk width. Spec-mode `/` on
/// `int` is Euclidean, which for a positive divisor is floor division.
fn div32(a: i64) -> (r: i64)
    ensures
        r as int == (a as int) / 32,
{
    let b: u64 = ((a as i128) + (BIAS as i128)) as u64;
    let q: u64 = b / 32;
    let rem: u64 = b % 32;
    proof {
        lemma_fundamental_div_mod(b as int, 32);
        assert(a as int == 32 * (q as int - BIAS_32 as int) + rem as int);
        lemma_fundamental_div_mod_converse(
            a as int,
            32,
            q as int - BIAS_32 as int,
            rem as int,
        );
    }
    (q as i64) - BIAS_32
}

/// Euclidean remainder of a coordinate by the chunk width: always in `[0, 32)`.
fn mod32(a: i64) -> (r: i64)
    ensures
        r as int == (a as int) % 32,
        0 <= r < 32,
{
    let b: u64 = ((a as i128) + (BIAS as i128)) as u64;
    let q: u64 = b / 32;
    let rem: u64 = b % 32;
    proof {
        lemma_fundamental_div_mod(b as int, 32);
        assert(a as int == 32 * (q as int - BIAS_32 as int) + rem as int);
        lemma_fundamental_div_mod_converse(
            a as int,
            32,
            q as int - BIAS_32 as int,
            rem as int,
        );
    }
    rem as i64
}

impl Coords {
    /// The chunk that owns this world coordinate, as mathematical integers.
    pub open spec fn chunk_coord(self) -> Coords {
        Coords(
            ((self.0 as int) / 32) as i64,
            ((self.1 as int) / 32) as i64,
            ((self.2 as int) / 32) as i64,
        )
    }

    /// The position of this world coordinate inside its chunk.
    pub open spec fn local_coord(self) -> Coords {
        Coords(
            ((self.0 as int) % 32) as i64,
            ((self.1 as int) % 32) as i64,
            ((self.2 as int) % 32) as i64,
        )
    }

    /// True when every component lies in `[0, 32)`, i.e. the triple is a
    /// valid position inside a chunk.
    pub open spec fn is_local(self) -> bool {
        &&& 0 <= self.0 < 32
        &&& 0 <= self.1 < 32
        &&& 0 <= self.2 < 32
    }

    /// The chunk owning this world coordinate; floor semantics, so negative
    /// coordinates round toward negative infinity.
    pub fn chunk(&self) -> (r: Coords)
        ensures
            r == self.chunk_coord(),
    {
        Coords(div32(self.0), div32(self.1), div32(self.2))
    }

    /// This world coordinate's position inside its owning chunk; Euclidean
    /// remainder, so every component lands in `[0, 32)`.
    pub fn in_chunk(&self) -> (r: Coords)
        ensures
            r == self.local_coord(),
            r.is_local(),
    {
        Coords(mod32(self.0), mod32(self.1), mod32(self.2))
    }
}

/// Splitting a world coordinate into its chunk and local parts loses
/// nothing: `chunk * 32 + local` recomposes the coordinate on every axis.
pub proof fn lemma_chunk_local_recompose(w: Coords)
    ensures
        32 * (w.chunk_coord().0 as int) + w.local_coord().0 as int == w.0 as int,
        32 * (w.chunk_coord().1 as int) + w.local_coord().1 as int == w.1 as int,
        32 * (w.chunk_coord().2 as int) + w.local_coord().2 as int == w.2 as int,
        w.local_coord().is_local(),
{
    lemma_fundamental_div_mod(w.0 as int, 32);
    lemma_fundamental_div_mod(w.1 as int, 32);
    lemma_fundamental_div_mod(w.2 as int, 32);
}

} // verus!
