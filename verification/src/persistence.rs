//! The saved form of a chunk: one version byte, then one byte per block in
//! storage order. A save that does not read back is replaced by a fresh chunk.

use vstd::prelude::*;
use crate::block::BlockId;
use crate::chunk::Chunk;
use crate::coords::{ChunkCoordinate, CHUNK_VOLUME};
use crate::streaming::ChunkSource;

verus! {

/// The version that saves are written in. Saves of another version are not read.
pub const SAVE_VERSION: u8 = 1;

/// Length of a save: the version byte and one byte per block.
pub const SAVE_LENGTH: usize = 4097;

/// Why a save could not be read.
#[derive(Clone, Copy, Debug, PartialEq, Eq, Structural)]
pub enum SaveError {
    /// The save holds no byte at all.
    Empty,
    /// The save starts with another version than `SAVE_VERSION`.
    IncompatibleVersion,
    /// The save does not hold one byte per block after the version.
    WrongLength,
    /// The save holds a byte that stands for no block.
    UnknownBlock,
}

impl BlockId {
    /// The byte that stands for the block in a save.
    pub open spec fn spec_byte(self) -> u8 {
        match self {
            BlockId::Air => 0,
            BlockId::Grass => 1,
            BlockId::Dirt => 2,
            BlockId::Stone => 3,
            BlockId::Bedrock => 4,
        }
    }

    /// The block that `byte` stands for in a save, if it stands for one.
    pub open spec fn spec_from_byte(byte: u8) -> Option<BlockId> {
        if byte == 0 {
            Some(BlockId::Air)
        } else if byte == 1 {
            Some(BlockId::Grass)
        } else if byte == 2 {
            Some(BlockId::Dirt)
        } else if byte == 3 {
            Some(BlockId::Stone)
        } else if byte == 4 {
            Some(BlockId::Bedrock)
        } else {
            None
        }
    }

    /// Computes `spec_byte`.
    pub fn to_byte(&self) -> (b: u8)
        ensures
            b == self.spec_byte(),
    {
        match self {
            BlockId::Air => 0,
            BlockId::Grass => 1,
            BlockId::Dirt => 2,
            BlockId::Stone => 3,
            BlockId::Bedrock => 4,
        }
    }

    /// Computes `spec_from_byte`.
    pub fn from_byte(byte: u8) -> (b: Option<BlockId>)
        ensures
            b == BlockId::spec_from_byte(byte),
    {
        match byte {
            0 => Some(BlockId::Air),
            1 => Some(BlockId::Grass),
            2 => Some(BlockId::Dirt),
            3 => Some(BlockId::Stone),
            4 => Some(BlockId::Bedrock),
            _ => None,
        }
    }
}

/// The save of a chunk with the given blocks.
pub open spec fn saved_form(blocks: Seq<BlockId>) -> Seq<u8> {
    Seq::new(
        blocks.len() + 1,
        |i: int|
            if i == 0 {
                SAVE_VERSION
            } else {
                blocks[i - 1].spec_byte()
            },
    )
}

/// What reading `bytes` as a save gives: the blocks, or the first reason in
/// the order of `SaveError` for which they cannot be read.
pub open spec fn read_form(bytes: Seq<u8>) -> Result<Seq<BlockId>, SaveError> {
    if bytes.len() == 0 {
        Err(SaveError::Empty)
    } else if bytes[0] != SAVE_VERSION {
        Err(SaveError::IncompatibleVersion)
    } else if bytes.len() != SAVE_LENGTH {
        Err(SaveError::WrongLength)
    } else if exists|i: int| 1 <= i < bytes.len() && BlockId::spec_from_byte(#[trigger] bytes[i]) is None {
        Err(SaveError::UnknownBlock)
    } else {
        Ok(Seq::new(CHUNK_VOLUME as nat, |i: int| BlockId::spec_from_byte(bytes[i + 1]).unwrap()))
    }
}

/// A save that was written reads back as the blocks it was written from.
pub proof fn lemma_save_round_trip(blocks: Seq<BlockId>)
    requires
        blocks.len() == CHUNK_VOLUME,
    ensures
        read_form(saved_form(blocks)) == Ok::<Seq<BlockId>, SaveError>(blocks),
{
    let bytes = saved_form(blocks);
    assert forall|i: int| 1 <= i < bytes.len() implies BlockId::spec_from_byte(
        #[trigger] bytes[i],
    ) == Some(blocks[i - 1]) by {}
    assert(read_form(bytes).unwrap() =~= blocks);
}

/// Writes the save of `chunk`.
pub fn save_chunk(chunk: &Chunk) -> (bytes: Vec<u8>)
    requires
        chunk.wf(),
    ensures
        bytes@ == saved_form(chunk@.blocks),
{
    let blocks = chunk.blocks();
    let mut bytes: Vec<u8> = Vec::new();
    bytes.push(SAVE_VERSION);
    let mut i: usize = 0;
    while i < blocks.len()
        invariant
            i <= blocks@.len(),
            bytes@.len() == i + 1,
            bytes@[0] == SAVE_VERSION,
            forall|j: int| 1 <= j <= i ==> bytes@[j] == blocks@[j - 1].spec_byte(),
        decreases blocks@.len() - i,
    {
        bytes.push(blocks[i].to_byte());
        i = i + 1;
    }
    assert(bytes@ =~= saved_form(blocks@));
    bytes
}

/// Reads a save back into a clean chunk, or says why it cannot be read.
pub fn load_saved_chunk(bytes: &Vec<u8>) -> (r: Result<Chunk, SaveError>)
    ensures
        match r {
            Ok(chunk) => read_form(bytes@) == Ok::<Seq<BlockId>, SaveError>(chunk@.blocks)
                && chunk.wf() && !chunk@.dirty,
            Err(e) => read_form(bytes@) == Err::<Seq<BlockId>, SaveError>(e),
        },
{
    if bytes.len() == 0 {
        return Err(SaveError::Empty);
    }
    if bytes[0] != SAVE_VERSION {
        return Err(SaveError::IncompatibleVersion);
    }
    if bytes.len() != SAVE_LENGTH {
        return Err(SaveError::WrongLength);
    }
    let mut blocks: Vec<BlockId> = Vec::new();
    let mut i: usize = 1;
    while i < bytes.len()
        invariant
            1 <= i <= bytes@.len(),
            bytes@.len() == SAVE_LENGTH,
            bytes@[0] == SAVE_VERSION,
            blocks@.len() == i - 1,
            forall|j: int|
                1 <= j < i ==> BlockId::spec_from_byte(#[trigger] bytes@[j]) == Some(
                    blocks@[j - 1],
                ),
        decreases bytes@.len() - i,
    {
        match BlockId::from_byte(bytes[i]) {
            None => {
                assert(BlockId::spec_from_byte(bytes@[i as int]) is None);
                return Err(SaveError::UnknownBlock);
            },
            Some(block) => {
                blocks.push(block);
            },
        }
        i = i + 1;
    }
    proof {
        assert(read_form(bytes@) is Ok);
        assert(read_form(bytes@).unwrap() =~= blocks@);
    }
    Ok(Chunk::from_blocks(blocks).unwrap())
}

/// The blocks that `saved` holds where it reads back, else those that
/// `source` gives for `coord`.
pub open spec fn restored_content<S: ChunkSource>(
    saved: Option<Seq<u8>>,
    source: &S,
    coord: ChunkCoordinate,
) -> Seq<BlockId> {
    match saved {
        Some(bytes) => match read_form(bytes) {
            Ok(blocks) => blocks,
            Err(_) => source.content(coord),
        },
        None => source.content(coord),
    }
}

/// The chunk at `coord` as it was saved, or a fresh one from `source` where
/// there is no save or the save cannot be read.
pub fn restore_or_generate<S: ChunkSource>(
    saved: Option<&Vec<u8>>,
    source: &S,
    coord: ChunkCoordinate,
) -> (chunk: Chunk)
    ensures
        chunk.wf(),
        !chunk@.dirty,
        chunk@.blocks == restored_content(
            match saved {
                Some(bytes) => Some(bytes@),
                None => None,
            },
            source,
            coord,
        ),
{
    match saved {
        None => source.produce(coord),
        Some(bytes) => match load_saved_chunk(bytes) {
            Ok(chunk) => chunk,
            Err(_) => source.produce(coord),
        },
    }
}

} // verus!
