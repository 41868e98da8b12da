use voxel_core::block::BlockId;
use voxel_core::chunk::Chunk;
use voxel_core::coords::{BlockPosition, ChunkCoordinate};
use voxel_core::player::{Position, POSITION_LIMIT};
use voxel_core::store::{ChunkNotLoaded, VoxelStore};
use voxel_core::streaming::{stream_tick, FlatTerrain, RenderDistance, RenderReason, RenderRequest};
use voxel_core::targeting::{
    apply_block_change, cast_ray, interact, BlockChange, Interaction, InteractionOutcome, Ray,
    RayHit, MAX_REACH,
};

fn flat_world() -> VoxelStore {
    let mut store = VoxelStore::new();
    stream_tick(
        &mut store,
        &FlatTerrain { surface: 0 },
        ChunkCoordinate::new(0, 0, 0),
        &RenderDistance { distance: 1 },
    );
    store
}

fn ray(x: i64, y: i64, z: i64, dx: i64, dy: i64, dz: i64) -> Ray {
    Ray::new(Position::new(x, y, z), dx, dy, dz).unwrap()
}

#[test]
fn rays_are_bounded() {
    assert_eq!(MAX_REACH, 5000);
    assert!(Ray::new(Position::new(0, 0, 0), 5000, -5000, 0).is_some());
    assert!(Ray::new(Position::new(0, 0, 0), 5001, 0, 0).is_none());
    assert!(Ray::new(Position::new(0, 0, 0), 0, 0, -5001).is_none());
    assert!(Ray::new(Position::new(POSITION_LIMIT + 1, 0, 0), 0, 0, 0).is_none());
    assert!(Ray::new(Position::new(POSITION_LIMIT, -POSITION_LIMIT, 0), 0, 0, 0).is_some());
}

#[test]
fn a_ray_straight_down_hits_the_ground() {
    let store = flat_world();
    let hit = cast_ray(&store, &ray(0, 2600, 0, 0, -5000, 0));
    assert_eq!(
        hit,
        Some(RayHit {
            block: BlockPosition::new(0, 0, 0),
            previous: Some(BlockPosition::new(0, 1, 0)),
        })
    );
}

#[test]
fn a_ray_that_ends_early_or_points_away_hits_nothing() {
    let store = flat_world();
    assert_eq!(cast_ray(&store, &ray(0, 2600, 0, 0, 5000, 0)), None);
    assert_eq!(cast_ray(&store, &ray(0, 2600, 0, 0, -2000, 0)), None);
    assert_eq!(cast_ray(&store, &ray(0, 2600, 0, 0, 0, 0)), None);
    assert_eq!(cast_ray(&store, &ray(0, 2600, 0, 5000, 0, -5000)), None);
    assert_eq!(
        cast_ray(&store, &ray(0, 2600, 0, 0, -2100, 0)).map(|h| h.block),
        Some(BlockPosition::new(0, 0, 0))
    );
}

#[test]
fn a_slanted_ray_walks_from_face_to_face() {
    let store = flat_world();
    let hit = cast_ray(&store, &ray(0, 1600, 0, 3000, -3000, 0)).unwrap();
    assert_eq!(hit.block, BlockPosition::new(1, 0, 0));
    assert_eq!(hit.previous, Some(BlockPosition::new(1, 1, 0)));
    let hit = cast_ray(&store, &ray(0, 1600, 0, -3000, -3000, -3000)).unwrap();
    assert_eq!(hit.block, BlockPosition::new(-1, 0, -1));
    assert_eq!(hit.previous, Some(BlockPosition::new(-1, 1, -1)));
}

#[test]
fn a_ray_that_starts_in_a_solid_block_hits_it() {
    let store = flat_world();
    let hit = cast_ray(&store, &ray(300, -5000, 300, 0, 5000, 0));
    assert_eq!(hit, Some(RayHit { block: BlockPosition::new(0, -5, 0), previous: None }));
}

#[test]
fn a_wall_is_hit_from_the_side() {
    let mut store = flat_world();
    store.set_block(BlockPosition::new(0, 2, -3), BlockId::Stone).unwrap();
    let hit = cast_ray(&store, &ray(0, 2000, 0, 0, 0, -5000)).unwrap();
    assert_eq!(hit.block, BlockPosition::new(0, 2, -3));
    assert_eq!(hit.previous, Some(BlockPosition::new(0, 2, -2)));
    let hit = cast_ray(&store, &ray(0, 2000, -5000, 0, 0, 5000)).unwrap();
    assert_eq!(hit.previous, Some(BlockPosition::new(0, 2, -4)));
}

#[test]
fn breaking_turns_the_target_into_air() {
    let mut store = flat_world();
    let eye = ray(0, 2600, 0, 0, -5000, 0);
    let outcome = interact(&mut store, &eye, Position::new(0, 1000, 0), Interaction::Break);
    assert_eq!(
        outcome,
        InteractionOutcome::Changed(BlockChange {
            position: BlockPosition::new(0, 0, 0),
            block: BlockId::Air,
        })
    );
    assert_eq!(store.get_block(BlockPosition::new(0, 0, 0)), Some(BlockId::Air));
    assert!(store.is_dirty(ChunkCoordinate::new(0, 0, 0)));
    assert_eq!(
        cast_ray(&store, &eye).map(|h| h.block),
        Some(BlockPosition::new(0, -1, 0))
    );
    assert_eq!(store.get_block(BlockPosition::new(0, -1, 0)), Some(BlockId::Dirt));
}

#[test]
fn placing_puts_the_block_on_the_entry_face() {
    let mut store = flat_world();
    let eye = ray(0, 2600, 0, 0, -5000, 0);
    let far = Position::new(5000, 1000, 0);
    let outcome = interact(&mut store, &eye, far, Interaction::Place(BlockId::Stone));
    assert_eq!(
        outcome,
        InteractionOutcome::Changed(BlockChange {
            position: BlockPosition::new(0, 1, 0),
            block: BlockId::Stone,
        })
    );
    assert_eq!(store.get_block(BlockPosition::new(0, 1, 0)), Some(BlockId::Stone));
    assert_eq!(store.get_block(BlockPosition::new(0, 0, 0)), Some(BlockId::Grass));
    let outcome = interact(&mut store, &eye, far, Interaction::Place(BlockId::Dirt));
    assert_eq!(
        outcome,
        InteractionOutcome::Changed(BlockChange {
            position: BlockPosition::new(0, 2, 0),
            block: BlockId::Dirt,
        })
    );
}

#[test]
fn placing_into_the_acting_player_is_obstructed() {
    let mut store = flat_world();
    let eye = ray(0, 2600, 0, 0, -5000, 0);
    let standing = Position::new(0, 1000, 0);
    let outcome = interact(&mut store, &eye, standing, Interaction::Place(BlockId::Stone));
    assert_eq!(outcome, InteractionOutcome::Obstructed);
    assert_eq!(store.get_block(BlockPosition::new(0, 1, 0)), Some(BlockId::Air));
    let beside = Position::new(750, 1000, 0);
    let outcome = interact(&mut store, &eye, beside, Interaction::Place(BlockId::Stone));
    assert_eq!(
        outcome,
        InteractionOutcome::Changed(BlockChange {
            position: BlockPosition::new(0, 1, 0),
            block: BlockId::Stone,
        })
    );
}

#[test]
fn placing_from_inside_a_block_is_obstructed() {
    let mut store = flat_world();
    let inside = ray(0, -5000, 0, 0, 5000, 0);
    let far = Position::new(5000, 1000, 0);
    assert_eq!(
        interact(&mut store, &inside, far, Interaction::Place(BlockId::Stone)),
        InteractionOutcome::Obstructed
    );
    assert_eq!(
        interact(&mut store, &inside, far, Interaction::Break),
        InteractionOutcome::Changed(BlockChange {
            position: BlockPosition::new(0, -5, 0),
            block: BlockId::Air,
        })
    );
}

#[test]
fn interactions_without_a_target_change_nothing() {
    let mut store = flat_world();
    let up = ray(0, 2600, 0, 0, 5000, 0);
    let far = Position::new(5000, 1000, 0);
    assert_eq!(interact(&mut store, &up, far, Interaction::Break), InteractionOutcome::NoTarget);
    assert_eq!(
        interact(&mut store, &up, far, Interaction::Place(BlockId::Stone)),
        InteractionOutcome::NoTarget
    );
    assert!(!store.is_dirty(ChunkCoordinate::new(0, 0, 0)));
}

#[test]
fn placing_into_an_unloaded_chunk_is_refused() {
    let mut store = VoxelStore::new();
    store.load_chunk(ChunkCoordinate::new(0, -1, 0), Chunk::filled(BlockId::Stone));
    let eye = ray(0, 1600, 0, 0, -5000, 0);
    let far = Position::new(5000, 1000, 0);
    assert_eq!(
        cast_ray(&store, &eye),
        Some(RayHit {
            block: BlockPosition::new(0, -1, 0),
            previous: Some(BlockPosition::new(0, 0, 0)),
        })
    );
    assert_eq!(
        interact(&mut store, &eye, far, Interaction::Place(BlockId::Dirt)),
        InteractionOutcome::NotLoaded
    );
    assert!(!store.is_dirty(ChunkCoordinate::new(0, -1, 0)));
    assert_eq!(store.len(), 1);
}

#[test]
fn a_block_change_asks_for_its_chunk_to_be_rendered() {
    let mut store = flat_world();
    let change = BlockChange { position: BlockPosition::new(-1, 17, 16), block: BlockId::Bedrock };
    let request = RenderRequest {
        chunk_coord: ChunkCoordinate::new(-1, 1, 1),
        reason: RenderReason::Mutated,
    };
    assert_eq!(change.render_request(), Some(request));
    assert_eq!(apply_block_change(&mut store, change), Ok(request));
    assert_eq!(store.get_block(BlockPosition::new(-1, 17, 16)), Some(BlockId::Bedrock));
    let outside = BlockChange { position: BlockPosition::new(0, 100, 0), block: BlockId::Stone };
    assert_eq!(apply_block_change(&mut store, outside), Err(ChunkNotLoaded));
    let nowhere = BlockChange { position: BlockPosition::new(i64::MAX, 0, 0), block: BlockId::Stone };
    assert_eq!(nowhere.render_request(), None);
}
