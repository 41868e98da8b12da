use voxel_core::block::BlockId;
use voxel_core::chunk::Chunk;
use voxel_core::coords::{
    local_to_world, world_to_chunk_and_local, BlockPosition, ChunkCoordinate, LocalOffset,
    CHUNK_VOLUME, WORLD_MAX, WORLD_MIN,
};
use voxel_core::math::{div_toward_zero, floor_div, floor_mod, isqrt};
use voxel_core::store::{ChunkNotLoaded, VoxelStore};

fn offset(x: u8, y: u8, z: u8) -> LocalOffset {
    LocalOffset::new(x, y, z).unwrap()
}

#[test]
fn floor_div_rounds_down() {
    assert_eq!(floor_div(7, 2), 3);
    assert_eq!(floor_div(-7, 2), -4);
    assert_eq!(floor_div(-8, 2), -4);
    assert_eq!(floor_div(0, 16), 0);
    assert_eq!(floor_div(-1, 16), -1);
    assert_eq!(floor_div(-16, 16), -1);
    assert_eq!(floor_div(-17, 16), -2);
}

#[test]
fn floor_mod_is_never_negative() {
    assert_eq!(floor_mod(7, 16), 7);
    assert_eq!(floor_mod(-1, 16), 15);
    assert_eq!(floor_mod(-16, 16), 0);
    assert_eq!(floor_mod(-17, 16), 15);
    assert_eq!(floor_mod(32, 16), 0);
}

#[test]
fn div_toward_zero_truncates() {
    assert_eq!(div_toward_zero(7, 2), 3);
    assert_eq!(div_toward_zero(-7, 2), -3);
    assert_eq!(div_toward_zero(-653_346_400, 1_000_000), -653);
    assert_eq!(div_toward_zero(999_999, 1_000_000), 0);
    assert_eq!(div_toward_zero(-999_999, 1_000_000), 0);
}

#[test]
fn isqrt_is_the_largest_root() {
    assert_eq!(isqrt(0), 0);
    assert_eq!(isqrt(1), 1);
    assert_eq!(isqrt(3), 1);
    assert_eq!(isqrt(4), 2);
    assert_eq!(isqrt(2_000_000), 1414);
    assert_eq!(isqrt(1_000_000), 1000);
    assert_eq!(isqrt(u64::MAX), 4_294_967_295);
}

#[test]
fn local_offset_refuses_components_outside_the_chunk() {
    assert!(LocalOffset::new(15, 15, 15).is_some());
    assert!(LocalOffset::new(16, 0, 0).is_none());
    assert!(LocalOffset::new(0, 16, 0).is_none());
    assert!(LocalOffset::new(0, 0, 200).is_none());
    assert_eq!(offset(1, 2, 3).storage_index(), 1 + 32 + 768);
    assert_eq!(offset(15, 15, 15).storage_index(), CHUNK_VOLUME - 1);
}

#[test]
fn world_position_splits_into_chunk_and_offset() {
    let (c, o) = world_to_chunk_and_local(BlockPosition::new(17, 0, 31)).unwrap();
    assert_eq!(c, ChunkCoordinate::new(1, 0, 1));
    assert_eq!(o, offset(1, 0, 15));
    let (c, o) = world_to_chunk_and_local(BlockPosition::new(-1, -16, -17)).unwrap();
    assert_eq!(c, ChunkCoordinate::new(-1, -1, -2));
    assert_eq!(o, offset(15, 0, 15));
}

#[test]
fn positions_outside_the_world_have_no_chunk() {
    assert!(world_to_chunk_and_local(BlockPosition::new(WORLD_MAX, 0, 0)).is_none());
    assert!(world_to_chunk_and_local(BlockPosition::new(0, WORLD_MIN - 1, 0)).is_none());
    assert!(world_to_chunk_and_local(BlockPosition::new(0, 0, i64::MAX)).is_none());
    let (c, o) = world_to_chunk_and_local(BlockPosition::new(WORLD_MAX - 1, WORLD_MIN, 0)).unwrap();
    assert_eq!(c, ChunkCoordinate::new(i32::MAX, i32::MIN, 0));
    assert_eq!(o, offset(15, 0, 0));
}

#[test]
fn local_to_world_joins_chunk_and_offset() {
    assert_eq!(
        local_to_world(ChunkCoordinate::new(1, -1, 0), offset(1, 15, 0)),
        BlockPosition::new(17, -1, 0)
    );
    assert_eq!(
        local_to_world(ChunkCoordinate::new(i32::MIN, i32::MAX, 0), offset(0, 15, 7)),
        BlockPosition::new(WORLD_MIN, WORLD_MAX - 1, 7)
    );
}

#[test]
fn local_world_round_trip_is_exact() {
    let coords = [
        ChunkCoordinate::new(0, 0, 0),
        ChunkCoordinate::new(-3, 7, -1),
        ChunkCoordinate::new(i32::MAX, i32::MIN, 12),
    ];
    let offsets = [offset(0, 0, 0), offset(15, 0, 7), offset(3, 15, 15)];
    for c in coords {
        for o in offsets {
            assert_eq!(world_to_chunk_and_local(local_to_world(c, o)), Some((c, o)));
        }
    }
    for p in [BlockPosition::new(-1, -1, -1), BlockPosition::new(1234, -5678, 9)] {
        let (c, o) = world_to_chunk_and_local(p).unwrap();
        assert_eq!(local_to_world(c, o), p);
    }
}

#[test]
fn chebyshev_range_is_a_cube() {
    let center = ChunkCoordinate::new(5, -2, 0);
    assert!(ChunkCoordinate::new(7, 0, -2).is_within(&center, 2));
    assert!(!ChunkCoordinate::new(8, -2, 0).is_within(&center, 2));
    assert!(!ChunkCoordinate::new(5, -5, 0).is_within(&center, 2));
    assert!(center.is_within(&center, 0));
    assert!(ChunkCoordinate::new(i32::MIN, 0, 0).is_within(&ChunkCoordinate::new(i32::MAX, 0, 0), u32::MAX));
}

#[test]
fn chunk_set_marks_dirty() {
    let mut chunk = Chunk::filled(BlockId::Air);
    assert!(!chunk.is_dirty());
    assert_eq!(chunk.get(offset(3, 4, 5)), BlockId::Air);
    chunk.set(offset(3, 4, 5), BlockId::Stone);
    assert!(chunk.is_dirty());
    assert_eq!(chunk.get(offset(3, 4, 5)), BlockId::Stone);
    assert_eq!(chunk.get(offset(4, 3, 5)), BlockId::Air);
    assert_eq!(chunk.blocks()[3 + 16 * 4 + 256 * 5], BlockId::Stone);
    chunk.mark_clean();
    assert!(!chunk.is_dirty());
    assert_eq!(chunk.get(offset(3, 4, 5)), BlockId::Stone);
}

#[test]
fn chunk_from_blocks_needs_one_block_per_cell() {
    assert!(Chunk::from_blocks(vec![BlockId::Dirt; CHUNK_VOLUME]).is_some());
    assert!(Chunk::from_blocks(vec![BlockId::Dirt; CHUNK_VOLUME - 1]).is_none());
    assert!(Chunk::from_blocks(Vec::new()).is_none());
    let mut blocks = vec![BlockId::Air; CHUNK_VOLUME];
    blocks[17] = BlockId::Bedrock;
    let chunk = Chunk::from_blocks(blocks).unwrap();
    assert_eq!(chunk.get(offset(1, 1, 0)), BlockId::Bedrock);
    assert!(!chunk.is_dirty());
}

#[test]
fn only_air_is_not_solid() {
    assert!(!BlockId::Air.is_solid());
    for b in [BlockId::Grass, BlockId::Dirt, BlockId::Stone, BlockId::Bedrock] {
        assert!(b.is_solid());
    }
}

#[test]
fn set_block_then_get_block_returns_it() {
    let mut store = VoxelStore::new();
    assert!(store.load_chunk(ChunkCoordinate::new(0, 0, 0), Chunk::filled(BlockId::Air)));
    assert!(store.load_chunk(ChunkCoordinate::new(-1, 0, 0), Chunk::filled(BlockId::Stone)));
    let p = BlockPosition::new(3, 4, 5);
    assert_eq!(store.get_block(p), Some(BlockId::Air));
    assert_eq!(store.set_block(p, BlockId::Grass), Ok(()));
    assert_eq!(store.get_block(p), Some(BlockId::Grass));
    assert_eq!(store.get_block(BlockPosition::new(4, 4, 5)), Some(BlockId::Air));
    assert_eq!(store.get_block(BlockPosition::new(-1, 4, 5)), Some(BlockId::Stone));
    assert!(store.is_dirty(ChunkCoordinate::new(0, 0, 0)));
    assert!(!store.is_dirty(ChunkCoordinate::new(-1, 0, 0)));
}

#[test]
fn unloaded_chunks_report_not_loaded() {
    let mut store = VoxelStore::new();
    store.load_chunk(ChunkCoordinate::new(0, 0, 0), Chunk::filled(BlockId::Air));
    let outside = BlockPosition::new(16, 0, 0);
    assert_eq!(store.get_block(outside), None);
    assert_eq!(store.set_block(outside, BlockId::Stone), Err(ChunkNotLoaded));
    assert_eq!(store.get_block(outside), None);
    assert_eq!(store.get_block(BlockPosition::new(i64::MAX, 0, 0)), None);
    assert_eq!(store.set_block(BlockPosition::new(0, i64::MIN, 0), BlockId::Stone), Err(ChunkNotLoaded));
    assert_eq!(store.len(), 1);
    assert!(!store.is_dirty(ChunkCoordinate::new(0, 0, 0)));
}

#[test]
fn loading_a_loaded_chunk_keeps_its_data() {
    let mut store = VoxelStore::new();
    let c = ChunkCoordinate::new(2, -1, 3);
    assert!(store.load_chunk(c, Chunk::filled(BlockId::Air)));
    let p = local_to_world(c, offset(1, 2, 3));
    store.set_block(p, BlockId::Dirt).unwrap();
    assert!(!store.load_chunk(c, Chunk::filled(BlockId::Stone)));
    assert_eq!(store.len(), 1);
    assert_eq!(store.get_block(p), Some(BlockId::Dirt));
    assert_eq!(store.get_block(local_to_world(c, offset(0, 0, 0))), Some(BlockId::Air));
    assert!(store.is_dirty(c));
}

#[test]
fn unloading_twice_is_a_no_op() {
    let mut store = VoxelStore::new();
    let a = ChunkCoordinate::new(0, 0, 0);
    let b = ChunkCoordinate::new(1, 0, 0);
    let c = ChunkCoordinate::new(2, 0, 0);
    store.load_chunk(a, Chunk::filled(BlockId::Air));
    store.load_chunk(b, Chunk::filled(BlockId::Dirt));
    store.load_chunk(c, Chunk::filled(BlockId::Stone));
    store.set_block(BlockPosition::new(0, 0, 0), BlockId::Grass).unwrap();
    let evicted = store.unload_chunk(a).unwrap();
    assert!(evicted.is_dirty());
    assert_eq!(evicted.get(offset(0, 0, 0)), BlockId::Grass);
    assert!(store.unload_chunk(a).is_none());
    assert_eq!(store.len(), 2);
    assert!(!store.contains(a));
    assert!(store.contains(b));
    assert!(store.contains(c));
    assert_eq!(store.get_block(BlockPosition::new(16, 0, 0)), Some(BlockId::Dirt));
    assert_eq!(store.get_block(BlockPosition::new(32, 0, 0)), Some(BlockId::Stone));
    assert!(store.unload_chunk(ChunkCoordinate::new(9, 9, 9)).is_none());
    assert_eq!(store.len(), 2);
}

#[test]
fn loaded_coordinates_lists_each_chunk_once() {
    let mut store = VoxelStore::new();
    assert_eq!(store.len(), 0);
    assert!(store.loaded_coordinates().is_empty());
    for x in -2..3 {
        store.load_chunk(ChunkCoordinate::new(x, x, -x), Chunk::filled(BlockId::Air));
    }
    store.unload_chunk(ChunkCoordinate::new(0, 0, 0));
    let mut coords = store.loaded_coordinates();
    coords.sort_by_key(|c| c.x);
    assert_eq!(
        coords,
        vec![
            ChunkCoordinate::new(-2, -2, 2),
            ChunkCoordinate::new(-1, -1, 1),
            ChunkCoordinate::new(1, 1, -1),
            ChunkCoordinate::new(2, 2, -2),
        ]
    );
    assert_eq!(store.len(), 4);
}

#[test]
fn mark_clean_and_chunk_blocks() {
    let mut store = VoxelStore::new();
    let c = ChunkCoordinate::new(0, 0, 0);
    store.load_chunk(c, Chunk::filled(BlockId::Air));
    store.set_block(BlockPosition::new(1, 0, 0), BlockId::Stone).unwrap();
    assert!(store.mark_clean(c));
    assert!(!store.is_dirty(c));
    assert!(!store.mark_clean(ChunkCoordinate::new(1, 1, 1)));
    let blocks = store.chunk_blocks(c).unwrap();
    assert_eq!(blocks.len(), CHUNK_VOLUME);
    assert_eq!(blocks[1], BlockId::Stone);
    assert_eq!(blocks[0], BlockId::Air);
    assert!(store.chunk_blocks(ChunkCoordinate::new(1, 1, 1)).is_none());
}
