use bevy_input::ButtonInput;
use voxel_core::block::BlockId;
use voxel_core::chunk::Chunk;
use voxel_core::controller::{
    find_support, is_block_at_position, player_movement_system, read_controls, step_player,
    Controls, GRAVITY, JUMP_VELOCITY, SPEED,
};
use voxel_core::coords::{BlockPosition, ChunkCoordinate};
use voxel_core::keyboard::{default_bindings, KeyCode};
use voxel_core::player::{
    Heading, Player, Position, UIMode, ViewMode, POSITION_LIMIT, VELOCITY_LIMIT,
};
use voxel_core::store::VoxelStore;
use voxel_core::streaming::{stream_tick, FlatTerrain, RenderDistance};

const TICK: u32 = 16_667;

fn idle() -> Controls {
    Controls {
        forward: false,
        backward: false,
        left: false,
        right: false,
        jump: false,
        toggle_view_mode: false,
    }
}

fn north() -> Heading {
    Heading::new(0, -1000).unwrap()
}

fn flat_world() -> VoxelStore {
    let mut store = VoxelStore::new();
    stream_tick(
        &mut store,
        &FlatTerrain { surface: 0 },
        ChunkCoordinate::new(0, 0, 0),
        &RenderDistance { distance: 1 },
    );
    store
}

fn single_block() -> VoxelStore {
    let mut store = VoxelStore::new();
    store.load_chunk(ChunkCoordinate::new(0, 0, 0), Chunk::filled(BlockId::Air));
    store.load_chunk(ChunkCoordinate::new(-1, 0, 0), Chunk::filled(BlockId::Air));
    store.load_chunk(ChunkCoordinate::new(0, 0, -1), Chunk::filled(BlockId::Air));
    store.load_chunk(ChunkCoordinate::new(-1, 0, -1), Chunk::filled(BlockId::Air));
    store.set_block(BlockPosition::new(0, 0, 0), BlockId::Stone).unwrap();
    store
}

fn airborne(x: i64, y: i64, z: i64, v: i64) -> Player {
    Player {
        position: Position::new(x, y, z),
        vertical_velocity: v,
        on_ground: false,
        view_mode: ViewMode::FirstPerson,
        ui_mode: UIMode::Closed,
    }
}

#[test]
fn physics_constants() {
    assert_eq!(SPEED, 5000);
    assert_eq!(GRAVITY, -39200);
    assert_eq!(JUMP_VELOCITY, 10000);
}

#[test]
fn collision_margin_is_three_quarters_of_a_block() {
    let store = single_block();
    assert!(is_block_at_position(0, 0, 0, &store));
    assert!(is_block_at_position(749, 0, 0, &store));
    assert!(!is_block_at_position(750, 0, 0, &store));
    assert!(is_block_at_position(-749, 749, -749, &store));
    assert!(!is_block_at_position(0, -750, 0, &store));
    assert!(!is_block_at_position(0, 0, 1000, &store));
    assert!(!is_block_at_position(i64::MAX, i64::MIN, 0, &store));
    assert!(!is_block_at_position(0, 0, 0, &VoxelStore::new()));
}

#[test]
fn support_is_the_highest_block_in_reach() {
    let mut store = single_block();
    assert_eq!(find_support(0, 500, 0, &store), Some(0));
    store.set_block(BlockPosition::new(0, 1, 0), BlockId::Dirt).unwrap();
    assert_eq!(find_support(0, 500, 0, &store), Some(1));
    assert_eq!(find_support(0, 200, 0, &store), Some(0));
    assert_eq!(find_support(0, 1800, 0, &store), None);
    store.set_block(BlockPosition::new(1, 0, 0), BlockId::Dirt).unwrap();
    assert_eq!(find_support(1400, -300, 0, &store), Some(0));
}

#[test]
fn a_standing_player_stays_put() {
    let store = flat_world();
    let mut p = Player::new();
    step_player(&mut p, idle(), north(), TICK, &store);
    assert_eq!(p, Player::new());
    for _ in 0..100 {
        step_player(&mut p, idle(), north(), TICK, &store);
    }
    assert_eq!(p.position, Position::new(0, 1000, 0));
    assert!(p.on_ground);
    assert_eq!(p.vertical_velocity, 0);
}

#[test]
fn walking_covers_speed_times_time() {
    let store = flat_world();
    let mut p = Player::new();
    let forward = Controls { forward: true, ..idle() };
    step_player(&mut p, forward, north(), 100_000, &store);
    assert_eq!(p.position, Position::new(0, 1000, -500));
    assert!(p.on_ground);
    let back_and_left = Controls { backward: true, left: true, ..idle() };
    let mut q = Player::new();
    step_player(&mut q, back_and_left, north(), 1_000_000 / 10, &store);
    assert_eq!(q.position, Position::new(-353, 1000, 353));
    let mut r = Player::new();
    step_player(&mut r, Controls { right: true, ..idle() }, north(), 100_000, &store);
    assert_eq!(r.position, Position::new(500, 1000, 0));
}

#[test]
fn diagonal_walking_is_normalised() {
    let store = VoxelStore::new();
    let mut p = airborne(0, 5_000_000, 0, 0);
    let c = Controls { forward: true, right: true, ..idle() };
    step_player(&mut p, c, north(), 1_000_000, &store);
    assert_eq!(p.position.x, 3536);
    assert_eq!(p.position.z, -3536);
}

#[test]
fn opposite_keys_cancel() {
    let store = flat_world();
    let mut p = Player::new();
    let c = Controls { forward: true, backward: true, left: true, right: true, ..idle() };
    step_player(&mut p, c, north(), 100_000, &store);
    assert_eq!(p.position, Position::new(0, 1000, 0));
}

#[test]
fn a_solid_block_in_the_way_stops_the_whole_step() {
    let mut store = flat_world();
    store.set_block(BlockPosition::new(0, 1, -1), BlockId::Stone).unwrap();
    let mut p = Player::new();
    let c = Controls { forward: true, right: true, ..idle() };
    step_player(&mut p, c, north(), 100_000, &store);
    assert_eq!(p.position, Position::new(0, 1000, 0));
    assert!(p.on_ground);
    assert_eq!(p.vertical_velocity, 0);
    let mut q = Player::new();
    step_player(&mut q, Controls { right: true, ..idle() }, north(), 100_000, &store);
    assert_eq!(q.position, Position::new(500, 1000, 0));
}

#[test]
fn a_player_on_solid_ground_is_grounded_at_rest() {
    let store = flat_world();
    let mut p = Player::new();
    p.vertical_velocity = -5000;
    p.on_ground = false;
    step_player(&mut p, idle(), north(), TICK, &store);
    assert!(p.on_ground);
    assert_eq!(p.vertical_velocity, 0);
    assert_eq!(p.position, Position::new(0, 1000, 0));
}

#[test]
fn gravity_pulls_an_airborne_player_down() {
    let store = flat_world();
    let mut p = airborne(0, 3000, 0, 0);
    step_player(&mut p, idle(), north(), 100_000, &store);
    assert_eq!(p.vertical_velocity, -3920);
    assert_eq!(p.position, Position::new(0, 2608, 0));
    assert!(!p.on_ground);
    step_player(&mut p, idle(), north(), 100_000, &store);
    assert_eq!(p.vertical_velocity, -7840);
    assert_eq!(p.position.y, 1824);
    step_player(&mut p, idle(), north(), 100_000, &store);
    assert_eq!(p.position, Position::new(0, 1000, 0));
    assert_eq!(p.vertical_velocity, 0);
    assert!(p.on_ground);
}

#[test]
fn gravity_at_sixty_ticks_per_second() {
    let store = VoxelStore::new();
    let mut p = airborne(0, 100_000, 0, 0);
    step_player(&mut p, idle(), north(), TICK, &store);
    assert_eq!(p.vertical_velocity, -653);
    assert_eq!(p.position.y, 100_000 - 10);
}

#[test]
fn a_jump_leaves_the_ground_when_the_tick_is_long_enough() {
    let store = flat_world();
    let jump = Controls { jump: true, ..idle() };
    let mut p = Player::new();
    step_player(&mut p, jump, north(), 100_000, &store);
    assert_eq!(p.vertical_velocity, JUMP_VELOCITY);
    assert_eq!(p.position, Position::new(0, 2000, 0));
    assert!(!p.on_ground);
    step_player(&mut p, jump, north(), 100_000, &store);
    assert_eq!(p.vertical_velocity, 6080);
    assert_eq!(p.position.y, 2608);
    let mut q = Player::new();
    step_player(&mut q, jump, north(), TICK, &store);
    assert!(q.on_ground);
    assert_eq!(q.vertical_velocity, 0);
    assert_eq!(q.position, Position::new(0, 1000, 0));
}

#[test]
fn falling_out_of_the_world_respawns_the_player() {
    let store = VoxelStore::new();
    let mut p = airborne(4000, -11_000, -7000, 0);
    p.view_mode = ViewMode::ThirdPerson;
    p.ui_mode = UIMode::Opened;
    step_player(&mut p, idle(), north(), TICK, &store);
    assert_eq!(p.position, Position::new(0, 1000, 0));
    assert_eq!(p.vertical_velocity, 0);
    assert!(p.on_ground);
    assert_eq!(p.view_mode, ViewMode::ThirdPerson);
    assert_eq!(p.ui_mode, UIMode::Opened);
}

#[test]
fn the_world_floor_is_ten_blocks_down() {
    let store = VoxelStore::new();
    let mut above = airborne(0, -9000, 0, 0);
    step_player(&mut above, idle(), north(), 0, &store);
    assert_eq!(above.position, Position::new(0, -9000, 0));
    assert!(!above.on_ground);
    let mut below = airborne(0, -9001, 0, 0);
    step_player(&mut below, idle(), north(), 0, &store);
    assert_eq!(below.position, Position::new(0, 1000, 0));
    assert!(below.on_ground);
}

#[test]
fn velocity_and_height_stay_within_limits() {
    let store = VoxelStore::new();
    let mut p = airborne(0, POSITION_LIMIT, 0, VELOCITY_LIMIT);
    step_player(&mut p, idle(), north(), 1_000_000, &store);
    assert_eq!(p.position.y, POSITION_LIMIT);
    assert_eq!(p.vertical_velocity, VELOCITY_LIMIT - 39200);
    let mut q = airborne(POSITION_LIMIT, 0, 0, 0);
    step_player(&mut q, Controls { right: true, ..idle() }, north(), 100_000, &store);
    assert_eq!(q.position.x, POSITION_LIMIT);
    let mut r = airborne(0, 0, 0, -VELOCITY_LIMIT);
    step_player(&mut r, idle(), north(), 1, &store);
    assert_eq!(r.vertical_velocity, -VELOCITY_LIMIT);
}

#[test]
fn toggling_the_view_mode() {
    let store = flat_world();
    let mut p = Player::new();
    let toggle = Controls { toggle_view_mode: true, ..idle() };
    step_player(&mut p, toggle, north(), TICK, &store);
    assert_eq!(p.view_mode, ViewMode::ThirdPerson);
    step_player(&mut p, toggle, north(), TICK, &store);
    assert_eq!(p.view_mode, ViewMode::FirstPerson);
    p.toggle_view_mode();
    assert_eq!(p.view_mode, ViewMode::ThirdPerson);
    assert!(!p.cursor_visible());
    p.ui_mode = UIMode::Opened;
    assert!(p.cursor_visible());
}

#[test]
fn headings_are_at_most_one_block_long() {
    assert!(Heading::new(1000, -1000).is_some());
    assert!(Heading::new(1001, 0).is_none());
    assert!(Heading::new(0, -1001).is_none());
    assert_eq!(Heading::new(707, 707), Some(Heading { x: 707, z: 707 }));
}

#[test]
fn the_keyboard_drives_the_player() {
    let store = flat_world();
    let bindings = default_bindings();
    let mut input = ButtonInput::<u32>::default();
    input.press(KeyCode::KeyW.code());
    input.press(KeyCode::F5.code());
    let c = read_controls(&input, &bindings);
    assert_eq!(c, Controls { forward: true, toggle_view_mode: true, ..idle() });
    let mut p = Player::new();
    let exit = player_movement_system(100_000, &input, &bindings, &mut p, &north(), &store);
    assert!(!exit);
    assert_eq!(p.position, Position::new(0, 1000, -500));
    assert_eq!(p.view_mode, ViewMode::ThirdPerson);
    input.clear();
    let exit = player_movement_system(100_000, &input, &bindings, &mut p, &north(), &store);
    assert!(!exit);
    assert_eq!(p.position, Position::new(0, 1000, -1000));
    assert_eq!(p.view_mode, ViewMode::ThirdPerson);
}

#[test]
fn escape_leaves_the_player_as_it_was() {
    let store = flat_world();
    let bindings = default_bindings();
    let mut input = ButtonInput::<u32>::default();
    input.press(KeyCode::KeyW.code());
    input.press(KeyCode::Escape.code());
    let mut p = Player::new();
    assert!(player_movement_system(100_000, &input, &bindings, &mut p, &north(), &store));
    assert_eq!(p, Player::new());
}

#[test]
fn the_block_of_a_point() {
    assert_eq!(Position::new(0, 1000, 0).containing_block(), BlockPosition::new(0, 1, 0));
    assert_eq!(Position::new(499, 500, -500).containing_block(), BlockPosition::new(0, 1, 0));
    assert_eq!(Position::new(-501, -1500, 1499).containing_block(), BlockPosition::new(-1, -1, 1));
}
