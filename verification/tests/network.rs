use voxel_core::block::BlockId;
use voxel_core::chunk::Chunk;
use voxel_core::controller::Controls;
use voxel_core::coords::{BlockPosition, ChunkCoordinate, CHUNK_VOLUME};
use voxel_core::network::{is_fresh, Applied, ClientSync, EntityState, NetworkMessage};
use voxel_core::player::{
    Heading, Player, Position, UIMode, ViewMode, POSITION_LIMIT, VELOCITY_LIMIT,
};
use voxel_core::store::VoxelStore;
use voxel_core::streaming::{RenderReason, RenderRequest};
use voxel_core::targeting::BlockChange;

fn one_chunk() -> VoxelStore {
    let mut store = VoxelStore::new();
    store.load_chunk(ChunkCoordinate::new(0, 0, 0), Chunk::filled(BlockId::Air));
    store
}

fn mutation(sequence: u64, x: i64, block: BlockId) -> NetworkMessage {
    NetworkMessage::BlockMutation {
        sequence,
        change: BlockChange { position: BlockPosition::new(x, 2, 3), block },
    }
}

fn state(y: i64) -> EntityState {
    EntityState {
        position: Position::new(100, y, -100),
        vertical_velocity: -7,
        on_ground: false,
        view_mode: ViewMode::ThirdPerson,
    }
}

#[test]
fn freshness_is_strict() {
    assert!(is_fresh(None, 0));
    assert!(is_fresh(Some(4), 5));
    assert!(!is_fresh(Some(5), 5));
    assert!(!is_fresh(Some(5), 4));
    assert!(!is_fresh(Some(u64::MAX), u64::MAX));
}

#[test]
fn a_block_mutation_delivered_twice_is_applied_once() {
    let mut sync = ClientSync::new(7);
    let mut store = one_chunk();
    let mut player = Player::new();
    let outcome = sync.apply(&mut store, &mut player, mutation(5, 1, BlockId::Stone));
    assert_eq!(
        outcome,
        Applied::BlockChanged(RenderRequest {
            chunk_coord: ChunkCoordinate::new(0, 0, 0),
            reason: RenderReason::Mutated,
        })
    );
    assert_eq!(store.get_block(BlockPosition::new(1, 2, 3)), Some(BlockId::Stone));
    assert_eq!(sync.last_reliable, Some(5));
    store.set_block(BlockPosition::new(1, 2, 3), BlockId::Air).unwrap();
    let again = sync.apply(&mut store, &mut player, mutation(5, 1, BlockId::Stone));
    assert_eq!(again, Applied::Stale);
    assert_eq!(store.get_block(BlockPosition::new(1, 2, 3)), Some(BlockId::Air));
    assert_eq!(sync.last_reliable, Some(5));
    let older = sync.apply(&mut store, &mut player, mutation(4, 1, BlockId::Dirt));
    assert_eq!(older, Applied::Stale);
    assert_eq!(store.get_block(BlockPosition::new(1, 2, 3)), Some(BlockId::Air));
    let newer = sync.apply(&mut store, &mut player, mutation(6, 1, BlockId::Dirt));
    assert!(matches!(newer, Applied::BlockChanged(_)));
    assert_eq!(store.get_block(BlockPosition::new(1, 2, 3)), Some(BlockId::Dirt));
    assert_eq!(player, Player::new());
}

#[test]
fn a_mutation_in_an_unloaded_chunk_is_consumed_without_effect() {
    let mut sync = ClientSync::new(7);
    let mut store = one_chunk();
    let mut player = Player::new();
    let outcome = sync.apply(&mut store, &mut player, mutation(1, 16, BlockId::Stone));
    assert_eq!(outcome, Applied::NotLoaded);
    assert_eq!(sync.last_reliable, Some(1));
    assert_eq!(store.len(), 1);
    assert!(!store.is_dirty(ChunkCoordinate::new(0, 0, 0)));
    assert_eq!(sync.apply(&mut store, &mut player, mutation(1, 16, BlockId::Stone)), Applied::Stale);
}

#[test]
fn an_older_entity_state_is_never_applied() {
    let mut sync = ClientSync::new(7);
    let mut store = one_chunk();
    let mut player = Player::new();
    player.ui_mode = UIMode::Opened;
    let delta = |sequence: u64, y: i64| NetworkMessage::EntityStateDelta {
        sequence,
        client: 7,
        state: state(y),
    };
    assert_eq!(sync.apply(&mut store, &mut player, delta(10, 2000)), Applied::Reconciled);
    assert_eq!(player.position, Position::new(100, 2000, -100));
    assert_eq!(player.vertical_velocity, -7);
    assert!(!player.on_ground);
    assert_eq!(player.view_mode, ViewMode::ThirdPerson);
    assert_eq!(player.ui_mode, UIMode::Opened);
    assert_eq!(sync.last_state, Some(10));
    assert_eq!(sync.apply(&mut store, &mut player, delta(9, 3000)), Applied::Stale);
    assert_eq!(sync.apply(&mut store, &mut player, delta(10, 3000)), Applied::Stale);
    assert_eq!(player.position, Position::new(100, 2000, -100));
    assert_eq!(sync.last_state, Some(10));
    assert_eq!(sync.apply(&mut store, &mut player, delta(11, 3000)), Applied::Reconciled);
    assert_eq!(player.position.y, 3000);
    assert_eq!(sync.last_reliable, None);
}

#[test]
fn the_state_of_another_player_is_handed_on() {
    let mut sync = ClientSync::new(7);
    let mut store = one_chunk();
    let mut player = Player::new();
    let message = NetworkMessage::EntityStateDelta { sequence: 3, client: 8, state: state(500) };
    assert_eq!(sync.apply(&mut store, &mut player, message), Applied::Remote(8, state(500)));
    assert_eq!(player, Player::new());
    assert_eq!(sync.last_state, Some(3));
}

#[test]
fn an_entity_state_out_of_limits_is_malformed() {
    let mut sync = ClientSync::new(7);
    let mut store = one_chunk();
    let mut player = Player::new();
    let mut bad = state(0);
    bad.position.z = POSITION_LIMIT + 1;
    let message = NetworkMessage::EntityStateDelta { sequence: 3, client: 7, state: bad };
    assert_eq!(sync.apply(&mut store, &mut player, message), Applied::Malformed);
    let mut fast = state(0);
    fast.vertical_velocity = -VELOCITY_LIMIT - 1;
    let message = NetworkMessage::EntityStateDelta { sequence: 3, client: 7, state: fast };
    assert_eq!(sync.apply(&mut store, &mut player, message), Applied::Malformed);
    assert_eq!(player, Player::new());
    assert_eq!(sync.last_state, None);
    let good = NetworkMessage::EntityStateDelta { sequence: 3, client: 7, state: state(0) };
    assert_eq!(sync.apply(&mut store, &mut player, good), Applied::Reconciled);
    assert!(!bad.is_wf());
    assert!(state(0).is_wf());
    assert_eq!(EntityState::of(&player), state(0));
}

#[test]
fn chunk_data_loads_a_chunk_once() {
    let mut sync = ClientSync::new(7);
    let mut store = one_chunk();
    let mut player = Player::new();
    let coord = ChunkCoordinate::new(1, 0, 0);
    let data = |sequence: u64, block: BlockId, len: usize| NetworkMessage::ChunkData {
        sequence,
        coord,
        blocks: vec![block; len],
    };
    assert_eq!(
        sync.apply(&mut store, &mut player, data(1, BlockId::Stone, CHUNK_VOLUME)),
        Applied::ChunkLoaded(RenderRequest { chunk_coord: coord, reason: RenderReason::Loaded })
    );
    assert_eq!(store.get_block(BlockPosition::new(16, 0, 0)), Some(BlockId::Stone));
    assert!(!store.is_dirty(coord));
    assert_eq!(
        sync.apply(&mut store, &mut player, data(1, BlockId::Dirt, CHUNK_VOLUME)),
        Applied::Stale
    );
    assert_eq!(
        sync.apply(&mut store, &mut player, data(2, BlockId::Dirt, CHUNK_VOLUME)),
        Applied::ChunkKept
    );
    assert_eq!(store.get_block(BlockPosition::new(16, 0, 0)), Some(BlockId::Stone));
    assert_eq!(store.len(), 2);
    assert_eq!(sync.last_reliable, Some(2));
}

#[test]
fn chunk_data_of_the_wrong_size_is_malformed() {
    let mut sync = ClientSync::new(7);
    let mut store = one_chunk();
    let mut player = Player::new();
    let message = NetworkMessage::ChunkData {
        sequence: 1,
        coord: ChunkCoordinate::new(1, 0, 0),
        blocks: vec![BlockId::Stone; CHUNK_VOLUME + 1],
    };
    assert_eq!(sync.apply(&mut store, &mut player, message), Applied::Malformed);
    assert_eq!(store.len(), 1);
    assert_eq!(sync.last_reliable, None);
}

#[test]
fn a_client_takes_no_input_commands() {
    let mut sync = ClientSync::new(7);
    let mut store = one_chunk();
    let mut player = Player::new();
    let message = NetworkMessage::InputCommand {
        sequence: 1,
        controls: Controls {
            forward: true,
            backward: false,
            left: false,
            right: false,
            jump: true,
            toggle_view_mode: false,
        },
        heading: Heading { x: 0, z: -1000 },
    };
    assert_eq!(message.sequence(), 1);
    assert_eq!(sync.apply(&mut store, &mut player, message), Applied::Unexpected);
    assert_eq!(sync, ClientSync::new(7));
    assert_eq!(player, Player::new());
}

#[test]
fn the_two_channels_are_numbered_apart() {
    let mut sync = ClientSync::new(7);
    let mut store = one_chunk();
    let mut player = Player::new();
    let delta = NetworkMessage::EntityStateDelta { sequence: 100, client: 7, state: state(0) };
    assert_eq!(sync.apply(&mut store, &mut player, delta), Applied::Reconciled);
    assert!(matches!(
        sync.apply(&mut store, &mut player, mutation(1, 1, BlockId::Stone)),
        Applied::BlockChanged(_)
    ));
    assert_eq!(sync.last_reliable, Some(1));
    assert_eq!(sync.last_state, Some(100));
    assert_eq!(mutation(9, 0, BlockId::Air).sequence(), 9);
}
