use crate::block::{Block, AIR_ID};
use crate::coords::Coords;
use crate::deflate::{deflate_of, inflate_of};
use crate::wire::push_bytes;
use crate::worldgen;
use crate::worldgen::ColumnHeights;
use vstd::arithmetic::div_mod::{lemma_div_denominator, lemma_fundamental_div_mod};
use vstd::prelude::*;

verus! {

/// Number of blocks in a chunk: 32 * 32 * 32.
pub const BLOCKS_PER_CHUNK: usize = 32768;

/// A persisted chunk payload whose decompressed form does not have
/// exactly 32768 bytes, or does not decompress at all.
#[derive(Copy, Clone, Debug, PartialEq, Eq, Structural)]
pub struct CorruptChunk;

/// Relies on flate2's `write::DeflateEncoder` with the default level:
/// the stream it produces is a function of the input bytes alone, and
/// flate2's own decoder losslessly inverts it (DEFLATE, RFC 1951).
#[verifier::external_body]
fn deflate_compress(data: &Vec<u8>) -> (r: Vec<u8>)
    ensures
        r@ == deflate_of(data@),
        inflate_of(r@) == Some(data@),
{
    let mut enc = flate2::write::DeflateEncoder::new(
        Vec::new(),
        flate2::Compression::default(),
    );
    std::io::Write::write_all(&mut enc, data.as_slice()).unwrap();
    enc.finish().unwrap()
}

/// Relies on flate2's `read::DeflateDecoder`: decoding is a function of
/// the input bytes alone; an invalid stream gives an error.
#[verifier::external_body]
fn deflate_decompress(data: &Vec<u8>) -> (r: Option<Vec<u8>>)
    ensures
        match r {
            Some(v) => inflate_of(data@) == Some(v@),
            None => inflate_of(data@) is None,
        },
{
    let mut dec = flate2::read::DeflateDecoder::new(data.as_slice());
    let mut out = Vec::new();
    match std::io::Read::read_to_end(&mut dec, &mut out) {
        Ok(_) => Some(out),
        Err(_) => None,
    }
}

/// The all-air flag after a write: cleared for good by any non-air
/// block, and never re-derived from contents.
pub open spec fn air_flag_after(air: bool, b: Block) -> bool {
    air && b.is_air()
}

/// Once a non-air block has been written, the all-air flag can never
/// return to true, even if that block is later overwritten with air.
pub proof fn lemma_all_air_one_way(air: bool, b: Block, later: Block)
    requires
        !b.is_air(),
    ensures
        !air_flag_after(air_flag_after(air, b), later),
{
}

/// Serialization is a function of the block ids alone: two chunks with
/// the same contents serialize to identical bytes.
pub proof fn lemma_serialize_deterministic(c1: Chunk, c2: Chunk)
    requires
        c1.ids() == c2.ids(),
    ensures
        deflate_of(c1.ids()) == deflate_of(c2.ids()),
{
}

/// The linear index of a local position: `x + 32 * y + 1024 * z`.
pub open spec fn spec_lin(l: Coords) -> int {
    l.0 + 32 * l.1 + 1024 * l.2
}

/// The local position of a linear block index, inverse of `spec_lin`.
pub open spec fn spec_chunk_coords(b: int) -> Coords {
    Coords((b % 32) as i64, ((b / 32) % 32) as i64, (b / 1024) as i64)
}

/// The local position of linear block index `b` in the fixed layout
/// `x + 32 * y + 1024 * z`.
pub fn chunk_coords(b: usize) -> (r: Coords)
    requires
        b < 32768,
    ensures
        r == spec_chunk_coords(b as int),
        r.is_local(),
        spec_lin(r) == b as int,
{
    proof {
        lemma_fundamental_div_mod(b as int, 32);
        lemma_fundamental_div_mod(b as int / 32, 32);
        lemma_div_denominator(b as int, 32, 32);
    }
    Coords((b % 32) as i64, ((b / 32) % 32) as i64, (b / 1024) as i64)
}

/// A cubic grid of 32 * 32 * 32 blocks: the unit of storage, generation
/// and persistence.
pub struct Chunk {
    blocks: Vec<Block>,
    unchanged: bool,
    air: bool,
    cache: Option<Vec<u8>>,
}

/// Walks a chunk's blocks in linear order, yielding each local
/// position with its block.
pub struct Iter<'a> {
    chunk: &'a Chunk,
    block: usize,
}

impl Chunk {
    /// The blocks in linear order.
    pub closed spec fn blocks_seq(self) -> Seq<Block> {
        self.blocks@
    }

    /// The block ids in linear order: what serialization encodes.
    pub open spec fn ids(self) -> Seq<u8> {
        self.blocks_seq().map_values(|b: Block| b.matter)
    }

    /// True until a block has been overwritten; gates persistence.
    pub closed spec fn spec_unchanged(self) -> bool {
        self.unchanged
    }

    /// The all-air summary flag; one-way across the chunk's lifetime.
    pub closed spec fn spec_air(self) -> bool {
        self.air
    }

    /// The cached compressed serialization, if it is currently valid.
    pub closed spec fn cache_seq(self) -> Option<Seq<u8>> {
        match self.cache {
            Some(v) => Some(v@),
            None => None,
        }
    }

    /// Every block is air.
    pub open spec fn all_air(self) -> bool {
        forall|i: int| 0 <= i < self.blocks_seq().len() ==> self.blocks_seq()[i].is_air()
    }

    /// Well-formedness: full grid, a truthful all-air flag, and a cache
    /// that, when present, holds exactly the compressed block ids.
    pub open spec fn wf(self) -> bool {
        &&& self.blocks_seq().len() == 32768
        &&& (self.spec_air() ==> self.all_air())
        &&& match self.cache_seq() {
            Some(c) => c == deflate_of(self.ids()) && inflate_of(c) == Some(self.ids()),
            None => true,
        }
    }

    /// Generates the chunk at chunk coordinate `c` from the terrain
    /// heights of its 1024 columns, short-circuiting to all air when
    /// the air predicate holds of the columns.
    pub fn new(c: Coords, heights: &Vec<ColumnHeights>) -> (r: Chunk)
        requires
            worldgen::spec_chunk_in_range(c),
            heights@.len() == 1024,
        ensures
            r.wf(),
            r.spec_unchanged(),
            r.spec_air() == worldgen::spec_air_chunk(32 * c.1 as int, heights@),
            r.blocks_seq().len() == 32768,
            forall|i: int|
                0 <= i < 32768 ==> r.blocks_seq()[i] == worldgen::spec_gen_block(
                    32 * c.1 as int,
                    heights@,
                    i,
                ),
            r.cache_seq() is None,
    {
        let first_y: i64 = c.1 * 32;
        let blocks = worldgen::whole_chunk(first_y, heights);
        let air = worldgen::air_chunk(first_y, heights);
        proof {
            if worldgen::spec_air_chunk(first_y as int, heights@) {
                worldgen::lemma_air_chunk_all_air(first_y as int, heights@);
            }
        }
        Chunk { blocks, unchanged: true, air, cache: None }
    }

    /// Reconstructs a chunk from a persisted compressed payload. Fails
    /// with `CorruptChunk` exactly when the payload does not decompress
    /// to exactly 32768 bytes.
    pub fn load(data: &Vec<u8>) -> (r: Result<Chunk, CorruptChunk>)
        ensures
            match r {
                Ok(c) => {
                    &&& inflate_of(data@) matches Some(s) && c.ids() == s && s.len() == 32768
                    &&& c.wf()
                    &&& c.spec_unchanged()
                    &&& c.spec_air() == c.all_air()
                    &&& c.cache_seq() is None
                },
                Err(_) => !(inflate_of(data@) matches Some(s) && s.len() == 32768),
            },
    {
        let raw = match deflate_decompress(data) {
            Some(v) => v,
            None => {
                return Err(CorruptChunk);
            },
        };
        if raw.len() != 32768 {
            return Err(CorruptChunk);
        }
        let mut blocks: Vec<Block> = Vec::new();
        let mut air = true;
        let mut i: usize = 0;
        while i < 32768
            invariant
                0 <= i <= 32768,
                raw@.len() == 32768,
                blocks@.len() == i,
                forall|k: int| 0 <= k < i ==> #[trigger] blocks@[k].matter == raw@[k],
                air == (forall|k: int| 0 <= k < i ==> #[trigger] blocks@[k].is_air()),
            decreases 32768 - i,
        {
            let id = raw[i];
            let ghost air0 = air;
            let ghost prior = blocks@;
            if id != AIR_ID {
                air = false;
            }
            blocks.push(Block { matter: id });
            proof {
                assert(blocks@[i as int].matter == id);
                if air0 && id == AIR_ID {
                    assert forall|k: int| 0 <= k < i + 1 implies #[trigger] blocks@[k].is_air() by {
                        if k < i {
                            assert(blocks@[k] == prior[k]);
                        }
                    }
                } else if id != AIR_ID {
                    assert(!blocks@[i as int].is_air());
                } else {
                    assert(!(forall|k: int| 0 <= k < i ==> #[trigger] prior[k].is_air()));
                    if forall|k: int| 0 <= k < i + 1 ==> #[trigger] blocks@[k].is_air() {
                        assert forall|k: int| 0 <= k < i implies #[trigger] prior[k].is_air() by {
                            assert(blocks@[k] == prior[k]);
                            assert(blocks@[k].is_air());
                        }
                        assert(false);
                    }
                }
            }
            i = i + 1;
        }
        let c = Chunk { blocks, unchanged: true, air, cache: None };
        proof {
            assert(c.ids() =~= raw@);
        }
        Ok(c)
    }

    /// A copy of this chunk's observable state, with no serialization
    /// cache; the map hands these out so the stored chunk stays the
    /// single authoritative instance.
    pub fn snapshot(&self) -> (r: Chunk)
        requires
            self.wf(),
        ensures
            r.wf(),
            r.blocks_seq() == self.blocks_seq(),
            r.spec_unchanged() == self.spec_unchanged(),
            r.spec_air() == self.spec_air(),
            r.cache_seq() is None,
    {
        let mut blocks: Vec<Block> = Vec::new();
        let mut i: usize = 0;
        while i < self.blocks.len()
            invariant
                0 <= i <= self.blocks@.len(),
                blocks@ == self.blocks@.take(i as int),
            decreases self.blocks@.len() - i,
        {
            blocks.push(self.blocks[i]);
            proof {
                assert(self.blocks@.take(i as int).push(self.blocks@[i as int]) =~= self.blocks@
                    .take(i + 1));
            }
            i = i + 1;
        }
        proof {
            assert(self.blocks@.take(i as int) =~= self.blocks@);
        }
        Chunk { blocks, unchanged: self.unchanged, air: self.air, cache: None }
    }

    /// Walks the blocks in linear order.
    pub fn iter<'a>(&'a self) -> (r: Iter<'a>)
        ensures
            r.chunk_ref() == self,
            r.position() == 0,
    {
        Iter { chunk: self, block: 0 }
    }

    /// The block at a local position.
    pub fn get_block(&self, c: Coords) -> (r: Block)
        requires
            self.wf(),
            c.is_local(),
        ensures
            r == self.blocks_seq()[spec_lin(c)],
    {
        let idx: usize = (c.0 as usize) + (c.1 as usize) * 32 + (c.2 as usize) * 1024;
        self.blocks[idx]
    }

    /// Overwrites the block at a local position: marks the chunk
    /// changed, clears the all-air flag one-way when the block is not
    /// air, and invalidates the serialization cache.
    pub fn replace_block(&mut self, c: Coords, block: Block)
        requires
            old(self).wf(),
            c.is_local(),
        ensures
            final(self).wf(),
            final(self).blocks_seq() == old(self).blocks_seq().update(spec_lin(c), block),
            !final(self).spec_unchanged(),
            final(self).spec_air() == air_flag_after(old(self).spec_air(), block),
            final(self).cache_seq() is None,
    {
        let idx: usize = (c.0 as usize) + (c.1 as usize) * 32 + (c.2 as usize) * 1024;
        self.unchanged = false;
        if block.matter != AIR_ID {
            self.air = false;
        }
        self.blocks.set(idx, block);
        self.cache = None;
        proof {
            if self.spec_air() {
                assert forall|i: int|
                    0 <= i < self.blocks_seq().len() implies self.blocks_seq()[i].is_air() by {
                    if i != idx as int {
                        assert(self.blocks_seq()[i] == old(self).blocks_seq()[i]);
                    }
                }
            }
        }
    }

    /// True until a block has been overwritten since load or generation.
    pub fn is_unchanged(&self) -> (r: bool)
        ensures
            r == self.spec_unchanged(),
    {
        self.unchanged
    }

    /// The all-air summary flag.
    pub fn is_air(&self) -> (r: bool)
        ensures
            r == self.spec_air(),
    {
        self.air
    }

    /// Compresses the block ids without touching the cache; used where
    /// only a snapshot of the serialized form is needed.
    pub fn compressed(&self) -> (r: Vec<u8>)
        requires
            self.wf(),
        ensures
            r@ == deflate_of(self.ids()),
            inflate_of(r@) == Some(self.ids()),
    {
        let mut ids: Vec<u8> = Vec::new();
        let mut i: usize = 0;
        while i < self.blocks.len()
            invariant
                0 <= i <= self.blocks@.len(),
                ids@.len() == i,
                forall|k: int| 0 <= k < i ==> #[trigger] ids@[k] == self.blocks@[k].matter,
            decreases self.blocks@.len() - i,
        {
            ids.push(self.blocks[i].matter);
            i = i + 1;
        }
        proof {
            assert(ids@ =~= self.ids());
        }
        deflate_compress(&ids)
    }

    /// The compressed serialization of the block ids: computed on first
    /// call after a mutation, then served from the cache, so repeated
    /// calls without mutation return identical bytes.
    pub fn write_to(&mut self) -> (r: Vec<u8>)
        requires
            old(self).wf(),
        ensures
            final(self).wf(),
            final(self).blocks_seq() == old(self).blocks_seq(),
            final(self).spec_unchanged() == old(self).spec_unchanged(),
            final(self).spec_air() == old(self).spec_air(),
            r@ == deflate_of(final(self).ids()),
            inflate_of(r@) == Some(final(self).ids()),
            final(self).cache_seq() == Some(r@),
    {
        if self.cache.is_none() {
            let z = self.compressed();
            self.cache = Some(z);
        }
        match &self.cache {
            Some(c) => {
                let mut out: Vec<u8> = Vec::new();
                push_bytes(&mut out, c.as_slice());
                proof {
                    assert(out@ =~= c@);
                }
                out
            },
            None => {
                proof {
                    assert(false);
                }
                Vec::new()
            },
        }
    }
}

impl<'a> Iter<'a> {
    /// The chunk being walked.
    pub closed spec fn chunk_ref(self) -> &'a Chunk {
        self.chunk
    }

    /// The next linear index to yield.
    pub closed spec fn position(self) -> int {
        self.block as int
    }

    /// Yields the local position and block at the current linear index,
    /// or nothing once all 32768 blocks have been yielded.
    pub fn next(&mut self) -> (r: Option<(Coords, Block)>)
        requires
            old(self).chunk_ref().wf(),
            0 <= old(self).position() <= 32768,
        ensures
            final(self).chunk_ref() == old(self).chunk_ref(),
            match r {
                Some(p) => {
                    &&& old(self).position() < 32768
                    &&& final(self).position() == old(self).position() + 1
                    &&& p.0 == spec_chunk_coords(old(self).position())
                    &&& p.1 == old(self).chunk_ref().blocks_seq()[old(self).position()]
                },
                None => {
                    &&& old(self).position() == 32768
                    &&& final(self).position() == old(self).position()
                },
            },
    {
        if self.block == 32768 {
            return None;
        }
        let b = self.block;
        self.block = b + 1;
        Some((chunk_coords(b), self.chunk.blocks[b]))
    }
}

} // verus!
