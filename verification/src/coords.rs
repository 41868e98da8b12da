//! Block positions, chunk coordinates and the exact conversion between them.

use vstd::prelude::*;
use crate::math::{floor_div, floor_mod};

verus! {

/// Number of blocks along one edge of a chunk.
pub const CHUNK_SIZE: i64 = 16;

/// Number of blocks held by one chunk.
pub const CHUNK_VOLUME: usize = 4096;

/// Smallest block coordinate that belongs to an addressable chunk.
pub const WORLD_MIN: i64 = -34_359_738_368;

/// One past the largest block coordinate that belongs to an addressable chunk.
pub const WORLD_MAX: i64 = 34_359_738_368;

/// World-space position of one block.
#[derive(Clone, Copy, Debug, PartialEq, Eq, Structural, Hash)]
pub struct BlockPosition {
    pub x: i64,
    pub y: i64,
    pub z: i64,
}

/// Identifies one cubic region of `CHUNK_SIZE` blocks per edge.
#[derive(Clone, Copy, Debug, PartialEq, Eq, Structural, Hash)]
pub struct ChunkCoordinate {
    pub x: i32,
    pub y: i32,
    pub z: i32,
}

/// Position of a block inside its chunk; every component is below `CHUNK_SIZE`.
#[derive(Clone, Copy, Debug, PartialEq, Eq, Structural, Hash)]
pub struct LocalOffset {
    pub x: u8,
    pub y: u8,
    pub z: u8,
}

/// Whether one block coordinate lies in the addressable world.
pub open spec fn axis_in_world(v: int) -> bool {
    WORLD_MIN <= v < WORLD_MAX
}

impl BlockPosition {
    pub fn new(x: i64, y: i64, z: i64) -> (p: Self)
        ensures
            p == (BlockPosition { x, y, z }),
    {
        BlockPosition { x, y, z }
    }

    /// Whether the position belongs to some addressable chunk.
    pub open spec fn in_world(self) -> bool {
        axis_in_world(self.x as int) && axis_in_world(self.y as int) && axis_in_world(
            self.z as int,
        )
    }

    /// The chunk that holds this position (meaningful when `in_world`).
    pub open spec fn chunk(self) -> ChunkCoordinate {
        ChunkCoordinate {
            x: (self.x as int / 16) as i32,
            y: (self.y as int / 16) as i32,
            z: (self.z as int / 16) as i32,
        }
    }

    /// Where this position sits inside its chunk.
    pub open spec fn local(self) -> LocalOffset {
        LocalOffset {
            x: (self.x as int % 16) as u8,
            y: (self.y as int % 16) as u8,
            z: (self.z as int % 16) as u8,
        }
    }
}

impl ChunkCoordinate {
    pub fn new(x: i32, y: i32, z: i32) -> (c: Self)
        ensures
            c == (ChunkCoordinate { x, y, z }),
    {
        ChunkCoordinate { x, y, z }
    }

    /// Chebyshev distance to `other`, in chunks.
    pub open spec fn distance(self, other: ChunkCoordinate) -> int {
        let dx = crate::math::abs(self.x - other.x);
        let dy = crate::math::abs(self.y - other.y);
        let dz = crate::math::abs(self.z - other.z);
        if dx >= dy && dx >= dz {
            dx
        } else if dy >= dz {
            dy
        } else {
            dz
        }
    }

    /// Whether `self` lies within `radius` chunks of `center` on every axis.
    pub open spec fn within(self, center: ChunkCoordinate, radius: int) -> bool {
        self.distance(center) <= radius
    }

    /// Decides `within` on machine integers.
    pub fn is_within(&self, center: &ChunkCoordinate, radius: u32) -> (b: bool)
        ensures
            b == self.within(*center, radius as int),
    {
        let r: i64 = radius as i64;
        let dx: i64 = self.x as i64 - center.x as i64;
        let dy: i64 = self.y as i64 - center.y as i64;
        let dz: i64 = self.z as i64 - center.z as i64;
        -r <= dx && dx <= r && -r <= dy && dy <= r && -r <= dz && dz <= r
    }
}

impl LocalOffset {
    /// Every component addresses a block inside the chunk.
    pub open spec fn wf(self) -> bool {
        self.x < 16 && self.y < 16 && self.z < 16
    }

    /// Builds an offset, refusing components outside the chunk.
    pub fn new(x: u8, y: u8, z: u8) -> (o: Option<Self>)
        ensures
            o == if x < 16 && y < 16 && z < 16 {
                Some(LocalOffset { x, y, z })
            } else {
                None
            },
    {
        if x < 16 && y < 16 && z < 16 {
            Some(LocalOffset { x, y, z })
        } else {
            None
        }
    }

    /// Position of the block in the chunk's dense storage.
    pub open spec fn index(self) -> int {
        self.x + 16 * self.y + 256 * self.z
    }

    /// Computes `index` for a well-formed offset.
    pub fn storage_index(&self) -> (i: usize)
        requires
            self.wf(),
        ensures
            i == self.index(),
            i < CHUNK_VOLUME,
    {
        self.x as usize + 16 * (self.y as usize) + 256 * (self.z as usize)
    }
}

/// The chunk and in-chunk offset of `pos`, or `None` outside the addressable world.
pub open spec fn spec_world_to_chunk_and_local(pos: BlockPosition) -> Option<
    (ChunkCoordinate, LocalOffset),
> {
    if pos.in_world() {
        Some((pos.chunk(), pos.local()))
    } else {
        None
    }
}

/// The world position of the block at `offset` inside chunk `coord`.
pub open spec fn spec_local_to_world(coord: ChunkCoordinate, offset: LocalOffset) -> BlockPosition {
    BlockPosition {
        x: (coord.x * 16 + offset.x) as i64,
        y: (coord.y * 16 + offset.y) as i64,
        z: (coord.z * 16 + offset.z) as i64,
    }
}

fn split_axis(v: i64) -> (r: (i32, u8))
    requires
        axis_in_world(v as int),
    ensures
        r.0 == v as int / 16,
        r.1 == v as int % 16,
        r.1 < 16,
{
    let q = floor_div(v as i128, CHUNK_SIZE as i128);
    let m = floor_mod(v as i128, CHUNK_SIZE as i128);
    (q as i32, m as u8)
}

/// Splits a world position into its chunk and the offset inside that chunk.
///
/// Positions outside the addressable world belong to no chunk and give `None`.
pub fn world_to_chunk_and_local(pos: BlockPosition) -> (r: Option<(ChunkCoordinate, LocalOffset)>)
    ensures
        r == spec_world_to_chunk_and_local(pos),
        r matches Some((_, o)) ==> o.wf(),
{
    if WORLD_MIN <= pos.x && pos.x < WORLD_MAX && WORLD_MIN <= pos.y && pos.y < WORLD_MAX
        && WORLD_MIN <= pos.z && pos.z < WORLD_MAX {
        let (cx, lx) = split_axis(pos.x);
        let (cy, ly) = split_axis(pos.y);
        let (cz, lz) = split_axis(pos.z);
        Some((ChunkCoordinate { x: cx, y: cy, z: cz }, LocalOffset { x: lx, y: ly, z: lz }))
    } else {
        None
    }
}

/// Joins a chunk coordinate and an in-chunk offset into a world position.
pub fn local_to_world(coord: ChunkCoordinate, offset: LocalOffset) -> (pos: BlockPosition)
    ensures
        pos == spec_local_to_world(coord, offset),
{
    BlockPosition {
        x: coord.x as i64 * CHUNK_SIZE + offset.x as i64,
        y: coord.y as i64 * CHUNK_SIZE + offset.y as i64,
        z: coord.z as i64 * CHUNK_SIZE + offset.z as i64,
    }
}

/// Splitting a joined position gives back the chunk and the offset it was joined from.
pub proof fn lemma_local_world_round_trip(coord: ChunkCoordinate, offset: LocalOffset)
    requires
        offset.wf(),
    ensures
        spec_local_to_world(coord, offset).in_world(),
        spec_world_to_chunk_and_local(spec_local_to_world(coord, offset)) == Some((coord, offset)),
{
}

/// Joining the chunk and offset of an addressable position gives back that position.
pub proof fn lemma_world_local_round_trip(pos: BlockPosition)
    requires
        pos.in_world(),
    ensures
        pos.local().wf(),
        spec_local_to_world(pos.chunk(), pos.local()) == pos,
{
}

/// Two addressable positions with the same chunk and offset are the same position.
pub proof fn lemma_chunk_and_local_determine_position(a: BlockPosition, b: BlockPosition)
    requires
        a.in_world(),
        b.in_world(),
        a.chunk() == b.chunk(),
        a.local() == b.local(),
    ensures
        a == b,
{
    lemma_world_local_round_trip(a);
    lemma_world_local_round_trip(b);
}

} // verus!
