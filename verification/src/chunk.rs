//! One chunk: a dense cube of block identifiers and a dirty flag.

use vstd::prelude::*;
use crate::block::BlockId;
use crate::coords::{LocalOffset, CHUNK_VOLUME};

verus! {

/// Mathematical content of a chunk.
pub struct ChunkView {
    /// The block at each storage index; its length is `CHUNK_VOLUME`.
    pub blocks: Seq<BlockId>,
    /// Whether a block was written since the chunk was loaded or last marked clean.
    pub dirty: bool,
}

/// A cube of `CHUNK_VOLUME` blocks, owned by the voxel store while loaded.
#[derive(Debug)]
pub struct Chunk {
    blocks: Vec<BlockId>,
    dirty: bool,
}

impl View for Chunk {
    type V = ChunkView;

    closed spec fn view(&self) -> ChunkView {
        ChunkView { blocks: self.blocks@, dirty: self.dirty }
    }
}

impl Chunk {
    /// The chunk holds exactly one block per cell.
    pub open spec fn wf(&self) -> bool {
        self@.blocks.len() == CHUNK_VOLUME
    }

    /// A clean chunk in which every cell holds `block`.
    pub fn filled(block: BlockId) -> (c: Chunk)
        ensures
            c.wf(),
            !c@.dirty,
            c@.blocks.len() == CHUNK_VOLUME,
            forall|i: int| 0 <= i < CHUNK_VOLUME ==> c@.blocks[i] == block,
    {
        let mut blocks: Vec<BlockId> = Vec::new();
        let mut i: usize = 0;
        while i < CHUNK_VOLUME
            invariant
                i <= CHUNK_VOLUME,
                blocks@.len() == i,
                forall|j: int| 0 <= j < i ==> blocks@[j] == block,
            decreases CHUNK_VOLUME - i,
        {
            blocks.push(block);
            i = i + 1;
        }
        Chunk { blocks, dirty: false }
    }

    /// A clean chunk holding `blocks`, or `None` unless there is one block per cell.
    pub fn from_blocks(blocks: Vec<BlockId>) -> (c: Option<Chunk>)
        ensures
            c is Some <==> blocks@.len() == CHUNK_VOLUME,
            c matches Some(chunk) ==> chunk.wf() && chunk@.blocks == blocks@ && !chunk@.dirty,
    {
        if blocks.len() == CHUNK_VOLUME {
            Some(Chunk { blocks, dirty: false })
        } else {
            None
        }
    }

    /// The block stored at `offset`.
    pub fn get(&self, offset: LocalOffset) -> (b: BlockId)
        requires
            self.wf(),
            offset.wf(),
        ensures
            b == self@.blocks[offset.index()],
    {
        self.blocks[offset.storage_index()]
    }

    /// Stores `block` at `offset` and marks the chunk dirty.
    pub fn set(&mut self, offset: LocalOffset, block: BlockId)
        requires
            old(self).wf(),
            offset.wf(),
        ensures
            final(self).wf(),
            final(self)@.blocks == old(self)@.blocks.update(offset.index(), block),
            final(self)@.dirty,
    {
        let i = offset.storage_index();
        self.blocks.set(i, block);
        self.dirty = true;
    }

    /// Whether a block was written since the chunk was loaded or last marked clean.
    pub fn is_dirty(&self) -> (d: bool)
        ensures
            d == self@.dirty,
    {
        self.dirty
    }

    /// Clears the dirty flag once the chunk's content has been saved.
    pub fn mark_clean(&mut self)
        requires
            old(self).wf(),
        ensures
            final(self).wf(),
            final(self)@.blocks == old(self)@.blocks,
            !final(self)@.dirty,
    {
        self.dirty = false;
    }

    /// The blocks in storage order, as sent to a peer or written to disk.
    pub fn blocks(&self) -> (b: &Vec<BlockId>)
        ensures
            b@ == self@.blocks,
    {
        &self.blocks
    }
}

} // verus!
