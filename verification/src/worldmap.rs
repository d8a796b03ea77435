use crate::assoc::{find_pair, keys_unique, lemma_find_at, lemma_find_char, lemma_find_push,
    lemma_find_update};
use crate::block::Block;
use crate::chunk::{spec_lin, Chunk};
use crate::deflate::{deflate_of, inflate_of};
use crate::coords::Coords;
use crate::worldgen;
use crate::worldgen::ColumnHeights;
use vstd::arithmetic::div_mod::lemma_add_mod_noop_right;
use vstd::prelude::*;

verus! {

/// Length of a day in ticks; the day counter wraps at this value.
pub const DAY_TICKS: u64 = 12000;

/// Finds the position of a chunk coordinate key, scanning from the front.
fn find_idx<T>(s: &Vec<(Coords, T)>, q: Coords) -> (r: Option<usize>)
    ensures
        match r {
            Some(i) => i < s@.len() && s@[i as int].0 == q,
            None => forall|k: int| 0 <= k < s@.len() ==> (#[trigger] s@[k]).0 != q,
        },
{
    let mut i: usize = 0;
    while i < s.len()
        invariant
            0 <= i <= s@.len(),
            forall|k: int| 0 <= k < i ==> (#[trigger] s@[k]).0 != q,
        decreases s@.len() - i,
    {
        if s[i].0 == q {
            return Some(i);
        }
        i = i + 1;
    }
    None
}

/// What a persisted chunk payload decodes to, when it is well formed:
/// the 32768 blocks, or nothing for a corrupt payload.
pub open spec fn decode_blob(b: Seq<u8>) -> Option<Seq<Block>> {
    match inflate_of(b) {
        Some(s) => if s.len() == 32768 {
            Some(s.map_values(|id: u8| Block { matter: id }))
        } else {
            None
        },
        None => None,
    }
}

/// The world store: a chunk cache keyed by chunk coordinate with lazy
/// load, dirty tracking, a model of the persisted chunk payloads, and
/// the day counter.
pub struct WorldMap {
    chunks: Vec<(Coords, Chunk)>,
    storage: Vec<(Coords, Vec<u8>)>,
    corrupt: Vec<Coords>,
    daytime: u64,
}

impl WorldMap {
    /// The materialized chunks.
    pub closed spec fn chunks_seq(self) -> Seq<(Coords, Chunk)> {
        self.chunks@
    }

    /// The persisted payloads handed in at construction, by coordinate.
    pub closed spec fn storage_seq(self) -> Seq<(Coords, Vec<u8>)> {
        self.storage@
    }

    /// The day counter.
    pub closed spec fn spec_time(self) -> u64 {
        self.daytime
    }

    /// Coordinates whose persisted payload was found corrupt.
    pub closed spec fn corrupt_seq(self) -> Seq<Coords> {
        self.corrupt@
    }

    /// The materialized chunk at a coordinate, if any.
    pub open spec fn mem_chunk(self, cc: Coords) -> Option<Chunk> {
        find_pair(self.chunks_seq(), cc)
    }

    /// True when the chunk at this coordinate is materialized.
    pub open spec fn has_chunk(self, cc: Coords) -> bool {
        self.mem_chunk(cc) is Some
    }

    /// The persisted payload at a coordinate, if any.
    pub open spec fn stored_blob(self, cc: Coords) -> Option<Seq<u8>> {
        match find_pair(self.storage_seq(), cc) {
            Some(v) => Some(v@),
            None => None,
        }
    }

    /// The blocks the store holds at a chunk coordinate: those of the
    /// materialized chunk, else of a well-formed persisted payload,
    /// else nothing (the chunk is unexplored).
    pub open spec fn blocks_at(self, cc: Coords) -> Option<Seq<Block>> {
        match self.mem_chunk(cc) {
            Some(c) => Some(c.blocks_seq()),
            None => match self.stored_blob(cc) {
                Some(b) => decode_blob(b),
                None => None,
            },
        }
    }

    /// The block at a world coordinate, when its chunk is materialized.
    pub open spec fn spec_block_at(self, w: Coords) -> Block
        recommends
            self.has_chunk(w.chunk_coord()),
    {
        self.mem_chunk(w.chunk_coord())->0.blocks_seq()[spec_lin(w.local_coord())]
    }

    /// Whether the materialized chunk at a coordinate is dirty.
    pub open spec fn dirty_at(self, cc: Coords) -> Option<bool> {
        match self.mem_chunk(cc) {
            Some(c) => Some(!c.spec_unchanged()),
            None => None,
        }
    }

    /// Well-formedness: unique keys on both tables, well-formed chunks,
    /// and a day counter that fits the persisted 32-bit time field.
    pub open spec fn wf(self) -> bool {
        &&& keys_unique(self.chunks_seq())
        &&& keys_unique(self.storage_seq())
        &&& forall|i: int|
            0 <= i < self.chunks_seq().len() ==> (#[trigger] self.chunks_seq()[i]).1.wf()
        &&& self.spec_time() <= u32::MAX
    }

    /// A fresh store over the persisted chunk payloads and the saved
    /// day counter; no chunk is materialized yet.
    pub fn new(time: u32, storage: Vec<(Coords, Vec<u8>)>) -> (r: WorldMap)
        requires
            keys_unique(storage@),
        ensures
            r.wf(),
            r.spec_time() == time,
            r.chunks_seq().len() == 0,
            r.storage_seq() == storage@,
            r.corrupt_seq().len() == 0,
    {
        WorldMap { chunks: Vec::new(), storage, corrupt: Vec::new(), daytime: time as u64 }
    }

    /// Materializes the chunk at `cc` from memory or from a well-formed
    /// persisted payload. Returns false when the chunk is unexplored or
    /// its payload is corrupt: the caller must then supply generated
    /// terrain through `insert_generated`. A corrupt payload is
    /// recorded in the corruption log and the chunk treated as absent.
    pub fn ensure_chunk(&mut self, cc: Coords) -> (r: bool)
        requires
            old(self).wf(),
        ensures
            final(self).wf(),
            r == (old(self).blocks_at(cc) is Some),
            r == final(self).has_chunk(cc),
            final(self).spec_time() == old(self).spec_time(),
            final(self).storage_seq() == old(self).storage_seq(),
            forall|c: Coords| #[trigger] final(self).blocks_at(c) == old(self).blocks_at(c),
            forall|c: Coords|
                old(self).has_chunk(c) ==> #[trigger] final(self).mem_chunk(c) == old(self).mem_chunk(c),
            final(self).has_chunk(cc) && !old(self).has_chunk(cc) ==> final(self).dirty_at(cc) == Some(false),
    {
        let idx = find_idx(&self.chunks, cc);
        match idx {
            Some(i) => {
                proof {
                    lemma_find_at(self.chunks@, i as int);
                }
                true
            },
            None => {
                proof {
                    lemma_find_char(self.chunks@, cc);
                }
                let bidx = find_idx(&self.storage, cc);
                match bidx {
                    Some(j) => {
                        proof {
                            lemma_find_at(self.storage@, j as int);
                        }
                        let blob = &self.storage[j].1;
                        match Chunk::load(blob) {
                            Ok(c) => {
                                proof {
                                    lemma_blocks_from_ids(c);
                                }
                                let ghost old_chunks = self.chunks@;
                                self.chunks.push((cc, c));
                                proof {
                                    lemma_find_push(old_chunks, cc, c);
                                }
                                true
                            },
                            Err(_) => {
                                self.corrupt.push(cc);
                                false
                            },
                        }
                    },
                    None => {
                        proof {
                            lemma_find_char(self.storage@, cc);
                        }
                        false
                    },
                }
            },
        }
    }

    /// Inserts the generated chunk at `cc` built from the supplied
    /// column heights, unless the store already holds blocks there;
    /// the existing instance then stays authoritative.
    pub fn insert_generated(&mut self, cc: Coords, heights: &Vec<ColumnHeights>)
        requires
            old(self).wf(),
            worldgen::spec_chunk_in_range(cc),
            heights@.len() == 1024,
        ensures
            final(self).wf(),
            final(self).spec_time() == old(self).spec_time(),
            final(self).storage_seq() == old(self).storage_seq(),
            forall|c: Coords|
                c != cc ==> #[trigger] final(self).blocks_at(c) == old(self).blocks_at(c),
            forall|c: Coords|
                old(self).has_chunk(c) ==> #[trigger] final(self).mem_chunk(c) == old(self).mem_chunk(c),
            old(self).blocks_at(cc) is Some ==> final(self).blocks_at(cc) == old(self).blocks_at(cc),
            old(self).blocks_at(cc) is None ==> {
                &&& final(self).has_chunk(cc)
                &&& final(self).blocks_at(cc) == Some(worldgen::gen_blocks(cc, heights@))
                &&& final(self).dirty_at(cc) == Some(false)
                &&& final(self).mem_chunk(cc)->0.spec_air() == worldgen::spec_air_chunk(
                    32 * cc.1 as int,
                    heights@,
                )
            },
            final(self).has_chunk(cc),
    {
        if self.ensure_chunk(cc) {
            return ;
        }
        let ghost mid = *self;
        let c = Chunk::new(cc, heights);
        let ghost old_chunks = self.chunks@;
        proof {
            lemma_find_char(self.chunks@, cc);
        }
        self.chunks.push((cc, c));
        proof {
            lemma_find_push(old_chunks, cc, c);
            assert(c.blocks_seq() =~= worldgen::gen_blocks(cc, heights@));
            assert forall|x: Coords| x != cc implies #[trigger] self.blocks_at(x) == old(
                self,
            ).blocks_at(x) by {
                assert(find_pair(self.chunks_seq(), x) == find_pair(mid.chunks_seq(), x));
                assert(self.blocks_at(x) == mid.blocks_at(x));
            }
            assert forall|x: Coords| old(self).has_chunk(x) implies #[trigger] self.mem_chunk(x)
                == old(self).mem_chunk(x) by {
                assert(mid.mem_chunk(x) == old(self).mem_chunk(x));
                assert(x != cc);
                assert(find_pair(self.chunks_seq(), x) == find_pair(mid.chunks_seq(), x));
            }
        }
    }

    /// A snapshot of the materialized chunk at `cc`.
    pub fn get_chunk(&self, cc: Coords) -> (r: Chunk)
        requires
            self.wf(),
            self.has_chunk(cc),
        ensures
            r.wf(),
            r.blocks_seq() == self.mem_chunk(cc)->0.blocks_seq(),
            r.spec_air() == self.mem_chunk(cc)->0.spec_air(),
            r.spec_unchanged() == self.mem_chunk(cc)->0.spec_unchanged(),
    {
        let idx = find_idx(&self.chunks, cc);
        match idx {
            Some(i) => {
                proof {
                    lemma_find_at(self.chunks@, i as int);
                }
                self.chunks[i].1.snapshot()
            },
            None => {
                proof {
                    lemma_find_char(self.chunks@, cc);
                    assert(false);
                }
                vstd::pervasive::unreached()
            },
        }
    }

    /// True when the materialized chunk at `cc` carries the all-air flag.
    pub fn chunk_is_air(&self, cc: Coords) -> (r: bool)
        requires
            self.wf(),
            self.has_chunk(cc),
        ensures
            r == self.mem_chunk(cc)->0.spec_air(),
    {
        let idx = find_idx(&self.chunks, cc);
        match idx {
            Some(i) => {
                proof {
                    lemma_find_at(self.chunks@, i as int);
                }
                self.chunks[i].1.is_air()
            },
            None => {
                proof {
                    lemma_find_char(self.chunks@, cc);
                    assert(false);
                }
                vstd::pervasive::unreached()
            },
        }
    }

    /// The block at a world coordinate whose chunk is materialized.
    pub fn get_block(&self, w: Coords) -> (r: Block)
        requires
            self.wf(),
            self.has_chunk(w.chunk_coord()),
        ensures
            r == self.spec_block_at(w),
    {
        let cc = w.chunk();
        let lc = w.in_chunk();
        let idx = find_idx(&self.chunks, cc);
        match idx {
            Some(i) => {
                proof {
                    lemma_find_at(self.chunks@, i as int);
                }
                self.chunks[i].1.get_block(lc)
            },
            None => {
                proof {
                    lemma_find_char(self.chunks@, cc);
                    assert(false);
                }
                vstd::pervasive::unreached()
            },
        }
    }

    /// Overwrites the block at a world coordinate whose chunk is
    /// materialized, routing through the owning chunk; marks that
    /// chunk dirty and updates its all-air flag one-way.
    pub fn replace_block(&mut self, w: Coords, block: Block)
        requires
            old(self).wf(),
            old(self).has_chunk(w.chunk_coord()),
        ensures
            final(self).wf(),
            final(self).spec_time() == old(self).spec_time(),
            final(self).storage_seq() == old(self).storage_seq(),
            final(self).has_chunk(w.chunk_coord()),
            forall|c: Coords|
                c != w.chunk_coord() ==> #[trigger] final(self).mem_chunk(c) == old(self).mem_chunk(c),
            forall|c: Coords|
                c != w.chunk_coord() ==> #[trigger] final(self).blocks_at(c) == old(self).blocks_at(c),
            final(self).mem_chunk(w.chunk_coord())->0.blocks_seq() == old(self).mem_chunk(
                w.chunk_coord(),
            )->0.blocks_seq().update(spec_lin(w.local_coord()), block),
            final(self).spec_block_at(w) == block,
            final(self).dirty_at(w.chunk_coord()) == Some(true),
            final(self).mem_chunk(w.chunk_coord())->0.spec_air() == (old(self).mem_chunk(
                w.chunk_coord(),
            )->0.spec_air() && block.is_air()),
    {
        let cc = w.chunk();
        let lc = w.in_chunk();
        let idx = find_idx(&self.chunks, cc);
        match idx {
            Some(i) => {
                proof {
                    lemma_find_at(self.chunks@, i as int);
                }
                let ghost prior = self.chunks@;
                let mut pair = self.chunks.remove(i);
                pair.1.replace_block(lc, block);
                let ghost newpair = pair;
                self.chunks.insert(i, pair);
                proof {
                    assert(self.chunks@ =~= prior.update(i as int, newpair));
                    lemma_find_update(prior, self.chunks@, i as int);
                    assert(self.spec_block_at(w) == block);
                }
            },
            None => {
                proof {
                    lemma_find_char(self.chunks@, cc);
                    assert(false);
                }
            },
        }
    }

    /// The serialized compressed form of the materialized chunk at
    /// `cc`, served from the chunk's cache when it is valid and cached
    /// for the next request otherwise.
    pub fn serialize_chunk(&mut self, cc: Coords) -> (r: Vec<u8>)
        requires
            old(self).wf(),
            old(self).has_chunk(cc),
        ensures
            final(self).wf(),
            final(self).spec_time() == old(self).spec_time(),
            final(self).storage_seq() == old(self).storage_seq(),
            final(self).has_chunk(cc),
            forall|c: Coords|
                c != cc ==> #[trigger] final(self).mem_chunk(c) == old(self).mem_chunk(c),
            forall|c: Coords| #[trigger] final(self).blocks_at(c) == old(self).blocks_at(c),
            forall|c: Coords| #[trigger] final(self).dirty_at(c) == old(self).dirty_at(c),
            final(self).mem_chunk(cc)->0.spec_air() == old(self).mem_chunk(cc)->0.spec_air(),
            r@ == deflate_of(old(self).mem_chunk(cc)->0.ids()),
            inflate_of(r@) == Some(old(self).mem_chunk(cc)->0.ids()),
    {
        let idx = find_idx(&self.chunks, cc);
        match idx {
            Some(i) => {
                proof {
                    lemma_find_at(self.chunks@, i as int);
                }
                let ghost prior = self.chunks@;
                let mut pair = self.chunks.remove(i);
                let blob = pair.1.write_to();
                let ghost newpair = pair;
                self.chunks.insert(i, pair);
                proof {
                    assert(self.chunks@ =~= prior.update(i as int, newpair));
                    lemma_find_update(prior, self.chunks@, i as int);
                }
                blob
            },
            None => {
                proof {
                    lemma_find_char(self.chunks@, cc);
                    assert(false);
                }
                vstd::pervasive::unreached()
            },
        }
    }

    /// The current day counter.
    pub fn get_time(&self) -> (r: u64)
        ensures
            r == self.spec_time(),
    {
        self.daytime
    }

    /// Advances the day counter by `nticks`, wrapping at the day length.
    pub fn tick(&mut self, nticks: u64)
        requires
            old(self).wf(),
        ensures
            final(self).wf(),
            final(self).spec_time() as int == (old(self).spec_time() as int + nticks as int) % (
            DAY_TICKS as int),
            final(self).chunks_seq() == old(self).chunks_seq(),
            final(self).storage_seq() == old(self).storage_seq(),
    {
        let step = nticks % DAY_TICKS;
        proof {
            lemma_add_mod_noop_right(
                old(self).spec_time() as int,
                nticks as int,
                DAY_TICKS as int,
            );
        }
        self.daytime = (self.daytime + step) % DAY_TICKS;
    }

    /// The coordinates whose persisted payloads were found corrupt: the
    /// diagnostic surfaced instead of silently overwriting such a file.
    pub fn corrupt_log(&self) -> (r: &Vec<Coords>)
        ensures
            r@ == self.corrupt_seq(),
    {
        &self.corrupt
    }

    /// What a persistence payload of this store must hold: uniquely
    /// keyed images of exactly the dirty materialized chunks, each the
    /// compressed form of that chunk's block ids.
    pub open spec fn save_matches(self, r: Seq<(Coords, Vec<u8>)>) -> bool {
        &&& keys_unique(r)
        &&& forall|k: int|
            0 <= k < r.len() ==> {
                let cc = (#[trigger] r[k]).0;
                &&& self.dirty_at(cc) == Some(true)
                &&& r[k].1@ == deflate_of(self.mem_chunk(cc)->0.ids())
                &&& inflate_of(r[k].1@) == Some(self.mem_chunk(cc)->0.ids())
            }
        &&& forall|c: Coords|
            self.dirty_at(c) == Some(true) ==> exists|k: int|
                0 <= k < r.len() && (#[trigger] r[k]).0 == c
    }

    /// The persistence payload: one compressed chunk image per dirty
    /// materialized chunk (dirtiness only gates what is written; no
    /// flag is cleared), paired with its chunk coordinate. The caller
    /// writes these out together with the day counter.
    pub fn save(&self) -> (r: Vec<(Coords, Vec<u8>)>)
        requires
            self.wf(),
        ensures
            self.save_matches(r@),
    {
        let mut out: Vec<(Coords, Vec<u8>)> = Vec::new();
        let mut i: usize = 0;
        while i < self.chunks.len()
            invariant
                self.wf(),
                0 <= i <= self.chunks@.len(),
                forall|k: int|
                    0 <= k < out@.len() ==> {
                        let cc = (#[trigger] out@[k]).0;
                        &&& self.dirty_at(cc) == Some(true)
                        &&& out@[k].1@ == deflate_of(self.mem_chunk(cc)->0.ids())
                        &&& inflate_of(out@[k].1@) == Some(self.mem_chunk(cc)->0.ids())
                    },
                forall|j: int|
                    0 <= j < i && !(#[trigger] self.chunks@[j]).1.spec_unchanged()
                        ==> exists|k: int|
                        0 <= k < out@.len() && (#[trigger] out@[k]).0 == self.chunks@[j].0,
                forall|k: int|
                    0 <= k < out@.len() ==> exists|j: int|
                        0 <= j < i && (#[trigger] out@[k]).0 == self.chunks@[j].0,
                keys_unique(out@),
            decreases self.chunks@.len() - i,
        {
            if !self.chunks[i].1.is_unchanged() {
                proof {
                    lemma_find_at(self.chunks@, i as int);
                }
                let blob = self.chunks[i].1.compressed();
                let cc = self.chunks[i].0;
                let ghost prior_out = out@;
                out.push((cc, blob));
                proof {
                    assert forall|a: int, b: int| 0 <= a < b < out@.len() implies (
                    #[trigger] out@[a]).0 != (#[trigger] out@[b]).0 by {
                        if b == out@.len() - 1 {
                            let ja = choose|j: int|
                                0 <= j < i && (#[trigger] prior_out[a]).0 == self.chunks@[j].0;
                            assert(out@[b].0 == self.chunks@[i as int].0);
                        }
                    }
                    assert forall|j: int|
                        0 <= j < i + 1 && !(#[trigger] self.chunks@[j]).1.spec_unchanged()
                            implies exists|k: int|
                            0 <= k < out@.len() && (#[trigger] out@[k]).0 == self.chunks@[j].0 by {
                        if j < i {
                            let k0 = choose|k: int|
                                0 <= k < prior_out.len() && (#[trigger] prior_out[k]).0
                                    == self.chunks@[j].0;
                            assert(out@[k0].0 == self.chunks@[j].0);
                        } else {
                            assert(out@[out@.len() - 1].0 == self.chunks@[j].0);
                        }
                    }
                }
            }
            i = i + 1;
        }
        proof {
            assert forall|c: Coords| self.dirty_at(c) == Some(true) implies exists|k: int|
                0 <= k < out@.len() && (#[trigger] out@[k]).0 == c by {
                lemma_find_char(self.chunks_seq(), c);
                match find_pair(self.chunks_seq(), c) {
                    Some(v) => {
                        let j = choose|j: int|
                            0 <= j < self.chunks@.len() && #[trigger] self.chunks@[j] == (c, v);
                        assert(!self.chunks@[j].1.spec_unchanged());
                    },
                    None => {},
                }
            }
        }
        out
    }
}

/// A chunk's blocks are determined by its ids: the block at every
/// position is the block of the id at that position.
pub proof fn lemma_blocks_from_ids(c: Chunk)
    ensures
        c.blocks_seq() =~= c.ids().map_values(|id: u8| Block { matter: id }),
{
    assert forall|i: int| 0 <= i < c.blocks_seq().len() implies c.blocks_seq()[i] == c.ids()
        .map_values(|id: u8| Block { matter: id })[i] by {
        assert(c.ids()[i] == c.blocks_seq()[i].matter);
    }
}


/// Writing a block and then reading the same world coordinate yields
/// exactly the written block.
pub proof fn lemma_replace_then_get(m0: WorldMap, m1: WorldMap, w: Coords, b: Block)
    requires
        m0.wf(),
        m0.has_chunk(w.chunk_coord()),
        m1.mem_chunk(w.chunk_coord()) matches Some(c) && c.blocks_seq() == m0.mem_chunk(
            w.chunk_coord(),
        )->0.blocks_seq().update(spec_lin(w.local_coord()), b),
    ensures
        m1.spec_block_at(w) == b,
{
    lemma_find_char(m0.chunks_seq(), w.chunk_coord());
    match find_pair(m0.chunks_seq(), w.chunk_coord()) {
        Some(c0) => {
            let k = choose|k: int|
                0 <= k < m0.chunks_seq().len() && #[trigger] m0.chunks_seq()[k] == (
                w.chunk_coord(),
                c0,
            );
            assert(m0.chunks_seq()[k].1.wf());
            let l = w.local_coord();
            crate::coords::lemma_chunk_local_recompose(w);
            assert(0 <= spec_lin(l) < 32768);
        },
        None => {},
    }
}

/// Persisting a store and reconstructing a fresh one over the saved
/// payloads restores every dirty chunk's blocks and the day counter
/// exactly.
pub proof fn lemma_save_reload(
    m: WorldMap,
    saved: Seq<(Coords, Vec<u8>)>,
    m2: WorldMap,
    cc: Coords,
)
    requires
        m.wf(),
        m.save_matches(saved),
        m2.chunks_seq().len() == 0,
        m2.storage_seq() == saved,
        m2.spec_time() == m.spec_time(),
        m.dirty_at(cc) == Some(true),
    ensures
        m2.blocks_at(cc) == m.blocks_at(cc),
        m2.spec_time() == m.spec_time(),
{
    let k = choose|k: int| 0 <= k < saved.len() && (#[trigger] saved[k]).0 == cc;
    lemma_find_at(saved, k);
    assert(find_pair(m2.chunks_seq(), cc) is None);
    let chunk = m.mem_chunk(cc)->0;
    lemma_find_char(m.chunks_seq(), cc);
    match find_pair(m.chunks_seq(), cc) {
        Some(c0) => {
            let j = choose|j: int|
                0 <= j < m.chunks_seq().len() && #[trigger] m.chunks_seq()[j] == (cc, c0);
            assert(m.chunks_seq()[j].1.wf());
        },
        None => {},
    }
    assert(chunk.ids().len() == 32768);
    assert(inflate_of(saved[k].1@) == Some(chunk.ids()));
    lemma_blocks_from_ids(chunk);
    assert(decode_blob(saved[k].1@) == Some(chunk.blocks_seq()));
    assert(m2.blocks_at(cc) == Some(chunk.blocks_seq()));
}

} // verus!
