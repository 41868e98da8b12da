//! The messages that server and clients exchange, and how a client applies
//! what the server sends.

use vstd::prelude::*;
use crate::block::BlockId;
use crate::chunk::{Chunk, ChunkView};
use crate::controller::Controls;
use crate::coords::{ChunkCoordinate, CHUNK_VOLUME};
use crate::math::abs;
use crate::player::{Heading, Player, Position, ViewMode, VELOCITY_LIMIT};
use crate::store::{block_at, with_block, StoreView, VoxelStore};
use crate::streaming::{RenderReason, RenderRequest};
use crate::targeting::{apply_block_change, BlockChange};

verus! {

/// What the server tells about one player.
#[derive(Clone, Copy, Debug, PartialEq, Eq, Structural)]
pub struct EntityState {
    pub position: Position,
    pub vertical_velocity: i64,
    pub on_ground: bool,
    pub view_mode: ViewMode,
}

impl EntityState {
    /// Position and velocity are within the limits of the simulation.
    pub open spec fn wf(self) -> bool {
        self.position.in_limits() && abs(self.vertical_velocity as int) <= VELOCITY_LIMIT
    }

    /// Decides `wf`.
    pub fn is_wf(&self) -> (b: bool)
        ensures
            b == self.wf(),
    {
        let limit = crate::player::POSITION_LIMIT;
        -limit <= self.position.x && self.position.x <= limit && -limit <= self.position.y
            && self.position.y <= limit && -limit <= self.position.z && self.position.z <= limit
            && -VELOCITY_LIMIT <= self.vertical_velocity && self.vertical_velocity
            <= VELOCITY_LIMIT
    }

    /// The state of `player`, as it is told to the clients.
    pub fn of(player: &Player) -> (s: EntityState)
        ensures
            s == spec_state_of(*player),
    {
        EntityState {
            position: player.position,
            vertical_velocity: player.vertical_velocity,
            on_ground: player.on_ground,
            view_mode: player.view_mode,
        }
    }
}

/// The state of `player`, as it is told to the clients.
pub open spec fn spec_state_of(player: Player) -> EntityState {
    EntityState {
        position: player.position,
        vertical_velocity: player.vertical_velocity,
        on_ground: player.on_ground,
        view_mode: player.view_mode,
    }
}

/// `player` with what `state` tells written over it.
pub open spec fn reconciled(player: Player, state: EntityState) -> Player {
    Player {
        position: state.position,
        vertical_velocity: state.vertical_velocity,
        on_ground: state.on_ground,
        view_mode: state.view_mode,
        ui_mode: player.ui_mode,
    }
}

/// One message between a client and the server. Each carries the sequence
/// number that its sender gave it on this connection.
#[derive(Clone, Debug)]
pub enum NetworkMessage {
    /// Client to server: the actions that are active during a tick.
    InputCommand { sequence: u64, controls: Controls, heading: Heading },
    /// Server to client, reliable: one block changed.
    BlockMutation { sequence: u64, change: BlockChange },
    /// Server to client, unreliable: where a player is now.
    EntityStateDelta { sequence: u64, client: u64, state: EntityState },
    /// Server to client, reliable: the content of one chunk.
    ChunkData { sequence: u64, coord: ChunkCoordinate, blocks: Vec<BlockId> },
}

impl NetworkMessage {
    /// The sequence number that the message carries.
    pub open spec fn spec_sequence(self) -> u64 {
        match self {
            NetworkMessage::InputCommand { sequence, .. } => sequence,
            NetworkMessage::BlockMutation { sequence, .. } => sequence,
            NetworkMessage::EntityStateDelta { sequence, .. } => sequence,
            NetworkMessage::ChunkData { sequence, .. } => sequence,
        }
    }

    /// The sequence number that the message carries.
    pub fn sequence(&self) -> (s: u64)
        ensures
            s == self.spec_sequence(),
    {
        match self {
            NetworkMessage::InputCommand { sequence, .. } => *sequence,
            NetworkMessage::BlockMutation { sequence, .. } => *sequence,
            NetworkMessage::EntityStateDelta { sequence, .. } => *sequence,
            NetworkMessage::ChunkData { sequence, .. } => *sequence,
        }
    }
}

/// Whether a message with number `sequence` is newer than everything that
/// was applied on its channel, the newest of which had number `last`.
pub open spec fn fresh(last: Option<u64>, sequence: u64) -> bool {
    match last {
        None => true,
        Some(l) => sequence > l,
    }
}

/// Decides `fresh`.
pub fn is_fresh(last: Option<u64>, sequence: u64) -> (b: bool)
    ensures
        b == fresh(last, sequence),
{
    match last {
        None => true,
        Some(l) => sequence > l,
    }
}

/// What a client remembers of the messages it applied.
#[derive(Clone, Copy, Debug, PartialEq, Eq, Structural)]
pub struct ClientSync {
    /// The identifier under which the server knows this client.
    pub client_id: u64,
    /// Number of the newest applied message of the reliable channel.
    pub last_reliable: Option<u64>,
    /// Number of the newest applied message of the unreliable channel.
    pub last_state: Option<u64>,
}

/// What applying one message did.
#[derive(Clone, Copy, Debug, PartialEq, Eq, Structural)]
pub enum Applied {
    /// A block of the store changed.
    BlockChanged(RenderRequest),
    /// A chunk was added to the store.
    ChunkLoaded(RenderRequest),
    /// The chunk was loaded already and kept as it was.
    ChunkKept,
    /// The state of the client's own player was overwritten.
    Reconciled,
    /// The message tells the state of another client's player.
    Remote(u64, EntityState),
    /// The block lies in a chunk that is not loaded; nothing changed.
    NotLoaded,
    /// The message is no newer than one that was applied; it was dropped.
    Stale,
    /// The message does not hold what its kind asks for; it was dropped.
    Malformed,
    /// The message is of a kind that a client does not take; it was dropped.
    Unexpected,
}

/// What the client remembers after `message`: a fresh message with valid
/// content takes its number to its channel, every other message changes
/// nothing.
pub open spec fn sync_after(sync: ClientSync, message: NetworkMessage) -> ClientSync {
    match message {
        NetworkMessage::InputCommand { .. } => sync,
        NetworkMessage::BlockMutation { sequence, .. } => if fresh(sync.last_reliable, sequence) {
            ClientSync { last_reliable: Some(sequence), ..sync }
        } else {
            sync
        },
        NetworkMessage::ChunkData { sequence, blocks, .. } => if fresh(
            sync.last_reliable,
            sequence,
        ) && blocks@.len() == CHUNK_VOLUME {
            ClientSync { last_reliable: Some(sequence), ..sync }
        } else {
            sync
        },
        NetworkMessage::EntityStateDelta { sequence, state, .. } => if fresh(
            sync.last_state,
            sequence,
        ) && state.wf() {
            ClientSync { last_state: Some(sequence), ..sync }
        } else {
            sync
        },
    }
}

/// The store after `message`.
pub open spec fn store_after(sync: ClientSync, m: StoreView, message: NetworkMessage) -> StoreView {
    match message {
        NetworkMessage::BlockMutation { sequence, change } => if fresh(
            sync.last_reliable,
            sequence,
        ) && block_at(m, change.position) is Some {
            with_block(m, change.position, change.block)
        } else {
            m
        },
        NetworkMessage::ChunkData { sequence, coord, blocks } => if fresh(
            sync.last_reliable,
            sequence,
        ) && blocks@.len() == CHUNK_VOLUME && !m.contains_key(coord) {
            m.insert(coord, ChunkView { blocks: blocks@, dirty: false })
        } else {
            m
        },
        _ => m,
    }
}

/// The client's own player after `message`.
pub open spec fn player_after(sync: ClientSync, player: Player, message: NetworkMessage) -> Player {
    match message {
        NetworkMessage::EntityStateDelta { sequence, client, state } => if fresh(
            sync.last_state,
            sequence,
        ) && state.wf() && client == sync.client_id {
            reconciled(player, state)
        } else {
            player
        },
        _ => player,
    }
}

/// What applying `message` reports.
pub open spec fn applied(
    sync: ClientSync,
    m: StoreView,
    message: NetworkMessage,
) -> Applied {
    match message {
        NetworkMessage::InputCommand { .. } => Applied::Unexpected,
        NetworkMessage::BlockMutation { sequence, change } => if !fresh(
            sync.last_reliable,
            sequence,
        ) {
            Applied::Stale
        } else if block_at(m, change.position) is Some {
            Applied::BlockChanged(
                RenderRequest {
                    chunk_coord: change.position.chunk(),
                    reason: RenderReason::Mutated,
                },
            )
        } else {
            Applied::NotLoaded
        },
        NetworkMessage::ChunkData { sequence, coord, blocks } => if !fresh(
            sync.last_reliable,
            sequence,
        ) {
            Applied::Stale
        } else if blocks@.len() != CHUNK_VOLUME {
            Applied::Malformed
        } else if m.contains_key(coord) {
            Applied::ChunkKept
        } else {
            Applied::ChunkLoaded(
                RenderRequest { chunk_coord: coord, reason: RenderReason::Loaded },
            )
        },
        NetworkMessage::EntityStateDelta { sequence, client, state } => if !fresh(
            sync.last_state,
            sequence,
        ) {
            Applied::Stale
        } else if !state.wf() {
            Applied::Malformed
        } else if client == sync.client_id {
            Applied::Reconciled
        } else {
            Applied::Remote(client, state)
        },
    }
}

impl ClientSync {
    /// A client that has applied nothing yet.
    pub fn new(client_id: u64) -> (s: ClientSync)
        ensures
            s == (ClientSync { client_id, last_reliable: None, last_state: None }),
    {
        ClientSync { client_id, last_reliable: None, last_state: None }
    }

    /// Applies one message from the server to the client's store and player.
    ///
    /// A message that is no newer than one already applied on its channel is
    /// dropped, and so is one whose content is not valid; neither changes
    /// anything.
    pub fn apply(
        &mut self,
        store: &mut VoxelStore,
        player: &mut Player,
        message: NetworkMessage,
    ) -> (outcome: Applied)
        requires
            old(store).wf(),
            old(player).wf(),
        ensures
            final(store).wf(),
            final(player).wf(),
            *final(self) == sync_after(*old(self), message),
            final(store)@ == store_after(*old(self), old(store)@, message),
            *final(player) == player_after(*old(self), *old(player), message),
            outcome == applied(*old(self), old(store)@, message),
    {
        match message {
            NetworkMessage::InputCommand { .. } => Applied::Unexpected,
            NetworkMessage::BlockMutation { sequence, change } => {
                if !is_fresh(self.last_reliable, sequence) {
                    return Applied::Stale;
                }
                self.last_reliable = Some(sequence);
                match apply_block_change(store, change) {
                    Ok(request) => Applied::BlockChanged(request),
                    Err(_) => Applied::NotLoaded,
                }
            },
            NetworkMessage::ChunkData { sequence, coord, blocks } => {
                if !is_fresh(self.last_reliable, sequence) {
                    return Applied::Stale;
                }
                let ghost content = blocks@;
                match Chunk::from_blocks(blocks) {
                    None => Applied::Malformed,
                    Some(chunk) => {
                        self.last_reliable = Some(sequence);
                        assert(chunk@ == (ChunkView { blocks: content, dirty: false }));
                        if store.load_chunk(coord, chunk) {
                            Applied::ChunkLoaded(
                                RenderRequest { chunk_coord: coord, reason: RenderReason::Loaded },
                            )
                        } else {
                            Applied::ChunkKept
                        }
                    },
                }
            },
            NetworkMessage::EntityStateDelta { sequence, client, state } => {
                if !is_fresh(self.last_state, sequence) {
                    return Applied::Stale;
                }
                if !state.is_wf() {
                    return Applied::Malformed;
                }
                self.last_state = Some(sequence);
                if client == self.client_id {
                    player.position = state.position;
                    player.vertical_velocity = state.vertical_velocity;
                    player.on_ground = state.on_ground;
                    player.view_mode = state.view_mode;
                    Applied::Reconciled
                } else {
                    Applied::Remote(client, state)
                }
            },
        }
    }
}

/// A message that is delivered a second time, right after the first, changes
/// nothing: neither what the client remembers, nor the store, nor the
/// player. Unless it was dropped as invalid both times, it is dropped as
/// stale. So each block mutation is applied once at most.
pub proof fn lemma_duplicate_is_dropped(
    sync: ClientSync,
    m: StoreView,
    player: Player,
    message: NetworkMessage,
)
    ensures
        ({
            let sync1 = sync_after(sync, message);
            let m1 = store_after(sync, m, message);
            let player1 = player_after(sync, player, message);
            &&& sync_after(sync1, message) == sync1
            &&& store_after(sync1, m1, message) == m1
            &&& player_after(sync1, player1, message) == player1
            &&& applied(sync1, m1, message) == match applied(sync, m, message) {
                Applied::Malformed => Applied::Malformed,
                Applied::Unexpected => Applied::Unexpected,
                _ => Applied::Stale,
            }
        }),
{
}

/// Once a message of a channel was applied, no message of that channel with
/// the same or a lower number is applied: it is dropped as stale and changes
/// nothing, whatever was applied in between on the other channel.
pub proof fn lemma_older_is_dropped(
    sync: ClientSync,
    m: StoreView,
    player: Player,
    late: NetworkMessage,
)
    requires
        match late {
            NetworkMessage::InputCommand { .. } => false,
            NetworkMessage::EntityStateDelta { sequence, .. } => sync.last_state matches Some(l)
                && sequence <= l,
            _ => sync.last_reliable matches Some(l) && late.spec_sequence() <= l,
        },
    ensures
        applied(sync, m, late) == Applied::Stale,
        sync_after(sync, late) == sync,
        store_after(sync, m, late) == m,
        player_after(sync, player, late) == player,
{
}

/// The number of the newest applied message of a channel never goes down.
pub proof fn lemma_sequence_monotone(sync: ClientSync, message: NetworkMessage)
    ensures
        sync.last_reliable matches Some(l) ==> sync_after(sync, message).last_reliable matches Some(
            n,
        ) && n >= l,
        sync.last_state matches Some(l) ==> sync_after(sync, message).last_state matches Some(n)
            && n >= l,
        sync_after(sync, message).client_id == sync.client_id,
{
}

} // verus!
