//! The voxel store: every loaded chunk, found by its coordinate.

use std::collections::HashMap;
use vstd::prelude::*;
use crate::block::BlockId;
use crate::chunk::{Chunk, ChunkView};
use crate::coords::{world_to_chunk_and_local, BlockPosition, ChunkCoordinate};

verus! {

broadcast use vstd::std_specs::hash::group_hash_axioms;

/// A block was addressed whose chunk is not loaded.
#[derive(Clone, Copy, Debug, PartialEq, Eq, Structural)]
pub struct ChunkNotLoaded;

/// Mathematical content of the store: the loaded chunks by coordinate.
pub type StoreView = Map<ChunkCoordinate, ChunkView>;

/// The block at `pos` in `m`, or `None` where no loaded chunk holds `pos`.
pub open spec fn block_at(m: StoreView, pos: BlockPosition) -> Option<BlockId> {
    if pos.in_world() && m.contains_key(pos.chunk()) {
        Some(m[pos.chunk()].blocks[pos.local().index()])
    } else {
        None
    }
}

/// Whether a loaded chunk holds a solid block at `pos`.
pub open spec fn solid_at(m: StoreView, pos: BlockPosition) -> bool {
    block_at(m, pos) matches Some(b) && b.solid()
}

/// `m` after the block at `pos`, in a loaded chunk, became `block`.
pub open spec fn with_block(m: StoreView, pos: BlockPosition, block: BlockId) -> StoreView {
    m.insert(
        pos.chunk(),
        ChunkView {
            blocks: m[pos.chunk()].blocks.update(pos.local().index(), block),
            dirty: true,
        },
    )
}

struct Slot {
    coord: ChunkCoordinate,
    chunk: Chunk,
}

/// Owns every loaded chunk. Lookup goes through a hash index over packed coordinates.
pub struct VoxelStore {
    slots: Vec<Slot>,
    index: HashMap<u128, usize>,
}

spec fn key_of(c: ChunkCoordinate) -> u128 {
    ((c.x + 0x8000_0000) * 0x1_0000_0000_0000_0000 + (c.y + 0x8000_0000) * 0x1_0000_0000 + (c.z
        + 0x8000_0000)) as u128
}

proof fn lemma_key_injective(a: ChunkCoordinate, b: ChunkCoordinate)
    requires
        key_of(a) == key_of(b),
    ensures
        a == b,
{
}

fn pack(c: ChunkCoordinate) -> (k: u128)
    ensures
        k == key_of(c),
{
    let x: u128 = (c.x as i64 + 0x8000_0000) as u128;
    let y: u128 = (c.y as i64 + 0x8000_0000) as u128;
    let z: u128 = (c.z as i64 + 0x8000_0000) as u128;
    x * 0x1_0000_0000_0000_0000 + y * 0x1_0000_0000 + z
}

impl View for VoxelStore {
    type V = StoreView;

    closed spec fn view(&self) -> StoreView {
        Map::new(
            |c: ChunkCoordinate| self.index@.contains_key(key_of(c)),
            |c: ChunkCoordinate| self.slots@[self.index@[key_of(c)] as int].chunk@,
        )
    }
}

impl VoxelStore {
    /// Each slot is found through the index, and the index names nothing else.
    pub closed spec fn wf(&self) -> bool {
        &&& forall|i: int|
            0 <= i < self.slots@.len() ==> {
                let s = #[trigger] self.slots@[i];
                &&& s.chunk.wf()
                &&& self.index@.contains_key(key_of(s.coord))
                &&& self.index@[key_of(s.coord)] == i
            }
        &&& forall|k: u128| #[trigger]
            self.index@.contains_key(k) ==> {
                &&& self.index@[k] < self.slots@.len()
                &&& key_of(self.slots@[self.index@[k] as int].coord) == k
            }
    }

    /// An empty store.
    pub fn new() -> (s: VoxelStore)
        ensures
            s.wf(),
            s@ == Map::<ChunkCoordinate, ChunkView>::empty(),
    {
        let s = VoxelStore { slots: Vec::new(), index: HashMap::new() };
        assert(s@ =~= Map::<ChunkCoordinate, ChunkView>::empty());
        s
    }

    /// Every loaded chunk holds one block per cell.
    pub proof fn lemma_chunks_wf(&self, coord: ChunkCoordinate)
        requires
            self.wf(),
            self@.contains_key(coord),
        ensures
            self@[coord].blocks.len() == crate::coords::CHUNK_VOLUME,
    {
        let i = self.index@[key_of(coord)] as int;
        assert(self.slots@[i].chunk.wf());
    }

    /// Whether the chunk at `coord` is loaded.
    pub fn contains(&self, coord: ChunkCoordinate) -> (b: bool)
        requires
            self.wf(),
        ensures
            b == self@.contains_key(coord),
    {
        let k = pack(coord);
        self.index.contains_key(&k)
    }

    /// The block at `pos`, or `None` where its chunk is not loaded.
    pub fn get_block(&self, pos: BlockPosition) -> (b: Option<BlockId>)
        requires
            self.wf(),
        ensures
            b == block_at(self@, pos),
    {
        match world_to_chunk_and_local(pos) {
            None => None,
            Some((coord, offset)) => {
                let k = pack(coord);
                match self.index.get(&k) {
                    None => None,
                    Some(i) => {
                        assert(self.slots@[*i as int].chunk.wf());
                        Some(self.slots[*i].chunk.get(offset))
                    },
                }
            },
        }
    }

    /// Writes `block` at `pos` and marks the owning chunk dirty.
    ///
    /// Fails, changing nothing, where the chunk that holds `pos` is not loaded.
    pub fn set_block(&mut self, pos: BlockPosition, block: BlockId) -> (r: Result<
        (),
        ChunkNotLoaded,
    >)
        requires
            old(self).wf(),
        ensures
            final(self).wf(),
            r is Ok <==> block_at(old(self)@, pos) is Some,
            r is Ok ==> final(self)@ == with_block(old(self)@, pos, block),
            r is Err ==> final(self)@ == old(self)@,
    {
        match world_to_chunk_and_local(pos) {
            None => Err(ChunkNotLoaded),
            Some((coord, offset)) => {
                let k = pack(coord);
                match self.index.get(&k) {
                    None => Err(ChunkNotLoaded),
                    Some(i) => {
                        let i: usize = *i;
                        assert(self.slots@[i as int].chunk.wf());
                        self.slots[i].chunk.set(offset, block);
                        proof {
                            assert forall|j: int| 0 <= j < self.slots@.len() implies {
                                let s = #[trigger] self.slots@[j];
                                &&& s.chunk.wf()
                                &&& self.index@.contains_key(key_of(s.coord))
                                &&& self.index@[key_of(s.coord)] == j
                            } by {
                                assert(old(self).slots@[j].coord == self.slots@[j].coord);
                            }
                            assert forall|c: ChunkCoordinate| key_of(c) == k implies c
                                == coord by {
                                lemma_key_injective(c, coord);
                            }
                            assert(self@ =~= with_block(old(self)@, pos, block));
                        }
                        Ok(())
                    },
                }
            },
        }
    }

    /// Adds the chunk at `coord` and says whether it did.
    ///
    /// A coordinate that is already loaded keeps the chunk it has: nothing is
    /// added twice and no data is reset.
    pub fn load_chunk(&mut self, coord: ChunkCoordinate, chunk: Chunk) -> (added: bool)
        requires
            old(self).wf(),
            chunk.wf(),
        ensures
            final(self).wf(),
            added == !old(self)@.contains_key(coord),
            added ==> final(self)@ == old(self)@.insert(coord, chunk@),
            !added ==> final(self)@ == old(self)@,
    {
        let k = pack(coord);
        if self.index.contains_key(&k) {
            return false;
        }
        let at: usize = self.slots.len();
        self.index.insert(k, at);
        self.slots.push(Slot { coord, chunk });
        proof {
            assert forall|j: int| 0 <= j < self.slots@.len() implies {
                let s = #[trigger] self.slots@[j];
                &&& s.chunk.wf()
                &&& self.index@.contains_key(key_of(s.coord))
                &&& self.index@[key_of(s.coord)] == j
            } by {
                if j < at {
                    assert(old(self).slots@[j] == self.slots@[j]);
                }
            }
            assert forall|c: ChunkCoordinate| key_of(c) == k implies c == coord by {
                lemma_key_injective(c, coord);
            }
            assert(self@ =~= old(self)@.insert(coord, chunk@));
        }
        true
    }

    /// Removes the chunk at `coord` and hands it back, or does nothing where
    /// no such chunk is loaded.
    pub fn unload_chunk(&mut self, coord: ChunkCoordinate) -> (evicted: Option<Chunk>)
        requires
            old(self).wf(),
        ensures
            final(self).wf(),
            evicted is Some <==> old(self)@.contains_key(coord),
            evicted matches Some(c) ==> c.wf() && c@ == old(self)@[coord] && final(self)@ == old(
                self,
            )@.remove(coord),
            evicted is None ==> final(self)@ == old(self)@,
    {
        let k = pack(coord);
        match self.index.remove(&k) {
            None => None,
            Some(i) => {
                assert(old(self).slots@[i as int].chunk.wf());
                let ghost last = old(self).slots@.last();
                let slot = self.slots.swap_remove(i);
                if i < self.slots.len() {
                    let moved = pack(self.slots[i].coord);
                    assert(moved == key_of(last.coord));
                    assert(old(self).index@[moved] == old(self).slots@.len() - 1);
                    self.index.insert(moved, i);
                }
                proof {
                    assert forall|j: int| 0 <= j < self.slots@.len() implies {
                        let s = #[trigger] self.slots@[j];
                        &&& s.chunk.wf()
                        &&& self.index@.contains_key(key_of(s.coord))
                        &&& self.index@[key_of(s.coord)] == j
                    } by {
                        if j != i {
                            assert(old(self).slots@[j] == self.slots@[j]);
                        }
                    }
                    assert forall|c: ChunkCoordinate| key_of(c) == k implies c == coord by {
                        lemma_key_injective(c, coord);
                    }
                    assert(self@ =~= old(self)@.remove(coord));
                }
                Some(slot.chunk)
            },
        }
    }

    /// The coordinates held by the slots, in slot order.
    spec fn slot_coords(&self) -> Seq<ChunkCoordinate> {
        Seq::new(self.slots@.len(), |i: int| self.slots@[i].coord)
    }

    proof fn lemma_slot_coords(&self)
        requires
            self.wf(),
        ensures
            self.slot_coords().no_duplicates(),
            self.slot_coords().to_set() == self@.dom(),
            self@.dom().finite(),
            self@.dom().len() == self.slots@.len(),
    {
        let coords = self.slot_coords();
        assert forall|i: int, j: int| 0 <= i < j < coords.len() implies coords[i] != coords[j] by {
            let a = self.slots@[i];
            let b = self.slots@[j];
        }
        assert forall|c: ChunkCoordinate| coords.to_set().contains(c) <==> self@.dom().contains(
            c,
        ) by {
            if self@.dom().contains(c) {
                let i = self.index@[key_of(c)] as int;
                lemma_key_injective(c, self.slots@[i].coord);
                assert(coords[i] == c);
            }
            if coords.to_set().contains(c) {
                let i = choose|i: int| 0 <= i < coords.len() && coords[i] == c;
                let s = self.slots@[i];
            }
        }
        assert(coords.to_set() =~= self@.dom());
        coords.unique_seq_to_set();
        vstd::seq_lib::seq_to_set_is_finite(coords);
    }

    /// The loaded coordinates form a finite set.
    pub proof fn lemma_finite(&self)
        requires
            self.wf(),
        ensures
            self@.dom().finite(),
    {
        self.lemma_slot_coords();
    }

    /// How many chunks are loaded.
    pub fn len(&self) -> (n: usize)
        requires
            self.wf(),
        ensures
            n == self@.dom().len(),
    {
        proof {
            self.lemma_slot_coords();
        }
        self.slots.len()
    }

    /// Every loaded coordinate, each exactly once.
    pub fn loaded_coordinates(&self) -> (coords: Vec<ChunkCoordinate>)
        requires
            self.wf(),
        ensures
            coords@.no_duplicates(),
            coords@.to_set() == self@.dom(),
            coords@.len() == self@.dom().len(),
    {
        let mut coords: Vec<ChunkCoordinate> = Vec::new();
        let mut i: usize = 0;
        while i < self.slots.len()
            invariant
                i <= self.slots@.len(),
                coords@ == self.slot_coords().take(i as int),
            decreases self.slots@.len() - i,
        {
            coords.push(self.slots[i].coord);
            i = i + 1;
            assert(coords@ =~= self.slot_coords().take(i as int));
        }
        proof {
            assert(coords@ =~= self.slot_coords());
            self.lemma_slot_coords();
        }
        coords
    }

    /// Whether the chunk at `coord` is loaded and has unsaved writes.
    pub fn is_dirty(&self, coord: ChunkCoordinate) -> (d: bool)
        requires
            self.wf(),
        ensures
            d == (self@.contains_key(coord) && self@[coord].dirty),
    {
        let k = pack(coord);
        match self.index.get(&k) {
            None => false,
            Some(i) => self.slots[*i].chunk.is_dirty(),
        }
    }

    /// Clears the dirty flag of the chunk at `coord` once its content has been
    /// saved, and says whether that chunk is loaded.
    pub fn mark_clean(&mut self, coord: ChunkCoordinate) -> (found: bool)
        requires
            old(self).wf(),
        ensures
            final(self).wf(),
            found == old(self)@.contains_key(coord),
            found ==> final(self)@ == old(self)@.insert(
                coord,
                ChunkView { blocks: old(self)@[coord].blocks, dirty: false },
            ),
            !found ==> final(self)@ == old(self)@,
    {
        let k = pack(coord);
        match self.index.get(&k) {
            None => false,
            Some(i) => {
                let i: usize = *i;
                assert(self.slots@[i as int].chunk.wf());
                self.slots[i].chunk.mark_clean();
                proof {
                    assert forall|j: int| 0 <= j < self.slots@.len() implies {
                        let s = #[trigger] self.slots@[j];
                        &&& s.chunk.wf()
                        &&& self.index@.contains_key(key_of(s.coord))
                        &&& self.index@[key_of(s.coord)] == j
                    } by {
                        assert(old(self).slots@[j].coord == self.slots@[j].coord);
                    }
                    assert forall|c: ChunkCoordinate| key_of(c) == k implies c == coord by {
                        lemma_key_injective(c, coord);
                    }
                    assert(self@ =~= old(self)@.insert(
                        coord,
                        ChunkView { blocks: old(self)@[coord].blocks, dirty: false },
                    ));
                }
                true
            },
        }
    }

    /// The blocks of the chunk at `coord` in storage order, or `None` where it
    /// is not loaded.
    pub fn chunk_blocks(&self, coord: ChunkCoordinate) -> (blocks: Option<Vec<BlockId>>)
        requires
            self.wf(),
        ensures
            blocks is Some <==> self@.contains_key(coord),
            blocks matches Some(b) ==> b@ == self@[coord].blocks,
    {
        let k = pack(coord);
        match self.index.get(&k) {
            None => None,
            Some(i) => {
                let source = self.slots[*i].chunk.blocks();
                let mut copy: Vec<BlockId> = Vec::new();
                let mut j: usize = 0;
                while j < source.len()
                    invariant
                        j <= source@.len(),
                        copy@ == source@.take(j as int),
                    decreases source@.len() - j,
                {
                    copy.push(source[j]);
                    j = j + 1;
                    assert(copy@ =~= source@.take(j as int));
                }
                assert(copy@ =~= source@);
                Some(copy)
            },
        }
    }
}

/// Whether every chunk of `m` holds one block per cell, as the chunks of a
/// well-formed store do.
pub open spec fn chunks_complete(m: StoreView) -> bool {
    forall|c: ChunkCoordinate| #[trigger]
        m.contains_key(c) ==> m[c].blocks.len() == crate::coords::CHUNK_VOLUME
}

impl VoxelStore {
    /// The view of a well-formed store has complete chunks.
    pub proof fn lemma_chunks_complete(&self)
        requires
            self.wf(),
        ensures
            chunks_complete(self@),
    {
        assert forall|c: ChunkCoordinate| #[trigger] self@.contains_key(c) implies self@[c].blocks.len()
            == crate::coords::CHUNK_VOLUME by {
            self.lemma_chunks_wf(c);
        }
    }
}

/// A block written at a loaded position is the block read back there, the
/// owning chunk is dirty, and the write keeps every chunk complete.
pub proof fn lemma_set_then_get(m: StoreView, pos: BlockPosition, block: BlockId)
    requires
        chunks_complete(m),
        block_at(m, pos) is Some,
    ensures
        block_at(with_block(m, pos, block), pos) == Some(block),
        with_block(m, pos, block)[pos.chunk()].dirty,
        with_block(m, pos, block).dom() == m.dom(),
        chunks_complete(with_block(m, pos, block)),
{
    assert(m.contains_key(pos.chunk()));
    assert(with_block(m, pos, block).dom() =~= m.dom());
    assert forall|c: ChunkCoordinate| #[trigger]
        with_block(m, pos, block).contains_key(c) implies with_block(m, pos, block)[c].blocks.len()
        == crate::coords::CHUNK_VOLUME by {
        assert(m.contains_key(c));
    }
}

/// A write at one position leaves the block at every other position as it was.
pub proof fn lemma_set_leaves_others(
    m: StoreView,
    pos: BlockPosition,
    block: BlockId,
    other: BlockPosition,
)
    requires
        chunks_complete(m),
        block_at(m, pos) is Some,
        other != pos,
    ensures
        block_at(with_block(m, pos, block), other) == block_at(m, other),
{
    assert(m.contains_key(pos.chunk()));
    if other.in_world() && other.chunk() == pos.chunk() {
        if other.local() == pos.local() {
            crate::coords::lemma_chunk_and_local_determine_position(pos, other);
        }
        assert(other.local().index() != pos.local().index());
    }
}

/// Unloading a coordinate twice removes no more than unloading it once, and
/// unloading a coordinate that is not loaded changes nothing.
pub proof fn lemma_unload_idempotent(m: StoreView, coord: ChunkCoordinate)
    ensures
        m.remove(coord).remove(coord) == m.remove(coord),
        !m.contains_key(coord) ==> m.remove(coord) == m,
{
    assert(m.remove(coord).remove(coord) =~= m.remove(coord));
    if !m.contains_key(coord) {
        assert(m.remove(coord) =~= m);
    }
}

} // verus!
