use bevy_input::ButtonInput;
use voxel_core::block::BlockId;
use voxel_core::chunk::Chunk;
use voxel_core::coords::{BlockPosition, ChunkCoordinate, CHUNK_VOLUME};
use voxel_core::keyboard::{default_bindings, KeyCode};
use voxel_core::store::VoxelStore;
use voxel_core::streaming::{
    load_in_range, render_distance_update_system, stream_tick, stream_tick_for,
    unload_out_of_range, ChunkSource, FlatTerrain, Observer, RenderDistance, RenderReason,
    DEFAULT_CHUNK_RENDER_DISTANCE_RADIUS,
};

fn count(events: &[voxel_core::streaming::RenderRequest], reason: RenderReason) -> usize {
    events.iter().filter(|e| e.reason == reason).count()
}

#[test]
fn flat_terrain_has_grass_on_dirt_on_stone() {
    let terrain = FlatTerrain { surface: 0 };
    let top = terrain.produce(ChunkCoordinate::new(3, 0, -2));
    let below = terrain.produce(ChunkCoordinate::new(3, -1, -2));
    assert!(!top.is_dirty());
    let at = |chunk: &Chunk, x: usize, y: usize, z: usize| chunk.blocks()[x + 16 * y + 256 * z];
    assert_eq!(at(&top, 0, 0, 0), BlockId::Grass);
    assert_eq!(at(&top, 7, 0, 9), BlockId::Grass);
    assert_eq!(at(&top, 7, 1, 9), BlockId::Air);
    assert_eq!(at(&top, 7, 15, 9), BlockId::Air);
    assert_eq!(at(&below, 7, 15, 9), BlockId::Dirt);
    assert_eq!(at(&below, 7, 13, 9), BlockId::Dirt);
    assert_eq!(at(&below, 7, 12, 9), BlockId::Stone);
    assert_eq!(at(&below, 7, 0, 9), BlockId::Stone);
    assert_eq!(top.blocks().len(), CHUNK_VOLUME);
}

#[test]
fn tick_loads_exactly_the_chunks_in_range() {
    let mut store = VoxelStore::new();
    let terrain = FlatTerrain { surface: 0 };
    let observer = ChunkCoordinate::new(10, -3, 4);
    let report = stream_tick(&mut store, &terrain, observer, &RenderDistance { distance: 1 });
    assert_eq!(store.len(), 27);
    for c in store.loaded_coordinates() {
        assert!(c.is_within(&observer, 1));
    }
    for dx in -1..2 {
        for dy in -1..2 {
            for dz in -1..2 {
                assert!(store.contains(ChunkCoordinate::new(10 + dx, -3 + dy, 4 + dz)));
            }
        }
    }
    assert!(!store.contains(ChunkCoordinate::new(12, -3, 4)));
    assert_eq!(report.events.len(), 27);
    assert_eq!(count(&report.events, RenderReason::Loaded), 27);
    assert!(report.flushed.is_empty());
}

#[test]
fn render_distance_two_loads_five_cubed_and_three_adds_the_ring() {
    let mut store = VoxelStore::new();
    let terrain = FlatTerrain { surface: 0 };
    let origin = ChunkCoordinate::new(0, 0, 0);
    let first = stream_tick(&mut store, &terrain, origin, &RenderDistance { distance: 2 });
    assert_eq!(store.len(), 125);
    assert_eq!(first.events.len(), 125);
    assert_eq!(count(&first.events, RenderReason::Loaded), 125);
    assert!(store.contains(ChunkCoordinate::new(2, -2, 2)));
    assert!(!store.contains(ChunkCoordinate::new(3, 0, 0)));

    let written = BlockPosition::new(1, 5, 1);
    store.set_block(written, BlockId::Bedrock).unwrap();

    let second = stream_tick(&mut store, &terrain, origin, &RenderDistance { distance: 3 });
    assert_eq!(store.len(), 343);
    assert_eq!(second.events.len(), 343 - 125);
    assert_eq!(count(&second.events, RenderReason::Loaded), 343 - 125);
    for e in &second.events {
        assert!(!e.chunk_coord.is_within(&origin, 2));
        assert!(e.chunk_coord.is_within(&origin, 3));
    }
    assert!(second.flushed.is_empty());
    assert_eq!(store.get_block(written), Some(BlockId::Bedrock));
    assert!(store.is_dirty(origin));

    let third = stream_tick(&mut store, &terrain, origin, &RenderDistance { distance: 3 });
    assert!(third.events.is_empty());
    assert_eq!(store.len(), 343);
}

#[test]
fn moving_observer_unloads_what_falls_out_of_range() {
    let mut store = VoxelStore::new();
    let terrain = FlatTerrain { surface: 0 };
    let rd = RenderDistance { distance: 1 };
    stream_tick(&mut store, &terrain, ChunkCoordinate::new(0, 0, 0), &rd);
    store.set_block(BlockPosition::new(-16, 0, 0), BlockId::Stone).unwrap();
    store.set_block(BlockPosition::new(16, 0, 0), BlockId::Stone).unwrap();
    let report = stream_tick(&mut store, &terrain, ChunkCoordinate::new(1, 0, 0), &rd);
    assert_eq!(store.len(), 27);
    assert_eq!(count(&report.events, RenderReason::Unloaded), 9);
    assert_eq!(count(&report.events, RenderReason::Loaded), 9);
    assert_eq!(count(&report.events, RenderReason::Mutated), 0);
    for e in &report.events {
        match e.reason {
            RenderReason::Unloaded => assert_eq!(e.chunk_coord.x, -1),
            RenderReason::Loaded => assert_eq!(e.chunk_coord.x, 2),
            RenderReason::Mutated => unreachable!(),
        }
    }
    assert_eq!(report.flushed.len(), 1);
    assert_eq!(report.flushed[0].coord, ChunkCoordinate::new(-1, 0, 0));
    assert!(report.flushed[0].chunk.is_dirty());
    assert_eq!(report.flushed[0].chunk.blocks()[0], BlockId::Stone);
    assert!(!store.contains(ChunkCoordinate::new(-1, 0, 0)));
    assert_eq!(store.get_block(BlockPosition::new(16, 0, 0)), Some(BlockId::Stone));
}

#[test]
fn unset_render_distance_streams_the_default_radius() {
    let mut store = VoxelStore::new();
    let terrain = FlatTerrain { surface: 0 };
    stream_tick(&mut store, &terrain, ChunkCoordinate::new(0, 0, 0), &RenderDistance::default());
    let side = 2 * DEFAULT_CHUNK_RENDER_DISTANCE_RADIUS as usize + 1;
    assert_eq!(store.len(), side * side * side);
    assert_eq!(RenderDistance::default().effective_radius(), DEFAULT_CHUNK_RENDER_DISTANCE_RADIUS);
    assert_eq!(RenderDistance { distance: 7 }.effective_radius(), 7);
}

#[test]
fn streaming_at_the_edge_of_the_coordinate_range() {
    let mut store = VoxelStore::new();
    let terrain = FlatTerrain { surface: 0 };
    let corner = ChunkCoordinate::new(i32::MAX, i32::MIN, 0);
    let report = stream_tick(&mut store, &terrain, corner, &RenderDistance { distance: 1 });
    assert_eq!(store.len(), 2 * 2 * 3);
    assert_eq!(report.events.len(), 12);
    assert!(store.contains(ChunkCoordinate::new(i32::MAX - 1, i32::MIN + 1, -1)));
}

#[test]
fn unload_and_load_are_the_two_halves_of_a_tick() {
    let mut store = VoxelStore::new();
    let terrain = FlatTerrain { surface: 0 };
    let events = load_in_range(&mut store, &terrain, ChunkCoordinate::new(0, 0, 0), 1);
    assert_eq!(events.len(), 27);
    let again = load_in_range(&mut store, &terrain, ChunkCoordinate::new(0, 0, 0), 1);
    assert!(again.is_empty());
    let report = unload_out_of_range(&mut store, ChunkCoordinate::new(0, 0, 0), 0);
    assert_eq!(store.len(), 1);
    assert_eq!(report.events.len(), 26);
    assert_eq!(count(&report.events, RenderReason::Unloaded), 26);
    assert!(store.contains(ChunkCoordinate::new(0, 0, 0)));
    let nothing = unload_out_of_range(&mut store, ChunkCoordinate::new(0, 0, 0), 0);
    assert!(nothing.events.is_empty());
}

#[test]
fn several_observers_keep_the_union_loaded() {
    let mut store = VoxelStore::new();
    let terrain = FlatTerrain { surface: 0 };
    let observers = vec![
        Observer { chunk: ChunkCoordinate::new(0, 0, 0), radius: 1 },
        Observer { chunk: ChunkCoordinate::new(2, 0, 0), radius: 1 },
    ];
    let report = stream_tick_for(&mut store, &terrain, &observers);
    assert_eq!(store.len(), 27 + 27 - 9);
    assert_eq!(report.events.len(), 45);
    assert!(store.contains(ChunkCoordinate::new(-1, 1, 1)));
    assert!(store.contains(ChunkCoordinate::new(3, -1, 0)));
    assert!(!store.contains(ChunkCoordinate::new(4, 0, 0)));
    let one = vec![Observer { chunk: ChunkCoordinate::new(2, 0, 0), radius: 1 }];
    let report = stream_tick_for(&mut store, &terrain, &one);
    assert_eq!(store.len(), 27);
    assert_eq!(count(&report.events, RenderReason::Unloaded), 18);
    let none: Vec<Observer> = Vec::new();
    let report = stream_tick_for(&mut store, &terrain, &none);
    assert_eq!(store.len(), 0);
    assert_eq!(report.events.len(), 27);
}

fn keys(just_pressed: &[KeyCode]) -> ButtonInput<u32> {
    let mut input = ButtonInput::<u32>::default();
    for k in just_pressed {
        input.press(k.code());
    }
    input
}

#[test]
fn render_distance_keys_raise_and_lower_the_distance() {
    let bindings = default_bindings();
    let mut rd = RenderDistance { distance: 4 };
    render_distance_update_system(&mut rd, &keys(&[KeyCode::KeyP]), &bindings);
    assert_eq!(rd.distance, 5);
    render_distance_update_system(&mut rd, &keys(&[KeyCode::KeyO]), &bindings);
    assert_eq!(rd.distance, 4);
    render_distance_update_system(&mut rd, &keys(&[KeyCode::KeyO, KeyCode::KeyP]), &bindings);
    assert_eq!(rd.distance, 4);
    render_distance_update_system(&mut rd, &keys(&[KeyCode::KeyW]), &bindings);
    assert_eq!(rd.distance, 4);
}

#[test]
fn render_distance_is_never_below_one() {
    let bindings = default_bindings();
    let mut rd = RenderDistance { distance: 1 };
    render_distance_update_system(&mut rd, &keys(&[KeyCode::KeyO]), &bindings);
    assert_eq!(rd.distance, 1);
    let mut unset = RenderDistance::default();
    assert_eq!(unset.distance, 0);
    render_distance_update_system(&mut unset, &keys(&[]), &bindings);
    assert_eq!(unset.distance, DEFAULT_CHUNK_RENDER_DISTANCE_RADIUS);
    let mut top = RenderDistance { distance: u32::MAX };
    render_distance_update_system(&mut top, &keys(&[KeyCode::KeyP]), &bindings);
    assert_eq!(top.distance, u32::MAX);
}

#[test]
fn held_keys_do_not_change_the_render_distance() {
    let bindings = default_bindings();
    let mut input = keys(&[KeyCode::KeyP]);
    input.clear();
    assert!(input.pressed(KeyCode::KeyP.code()));
    let mut rd = RenderDistance { distance: 3 };
    render_distance_update_system(&mut rd, &input, &bindings);
    assert_eq!(rd.distance, 3);
}
