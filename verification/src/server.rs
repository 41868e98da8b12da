//! The server's lobby: one session and one player per connected client, the
//! input that clients send, and the messages that go out to the clients that
//! stream the place where something happened.

use vstd::prelude::*;
use crate::controller::{step_player, stepped, Controls};
use crate::coords::{world_to_chunk_and_local, ChunkCoordinate};
use crate::network::{fresh, is_fresh, spec_state_of, EntityState, NetworkMessage};
use crate::player::{Heading, Player};
use crate::store::{with_block, StoreView, VoxelStore};
use crate::streaming::{observed, Observer, RenderDistance};
use crate::targeting::{
    interact, interaction_outcome, BlockChange, Interaction, InteractionOutcome, Ray,
};

verus! {

/// How many clients can be connected at a time.
pub const MAX_CLIENTS: usize = 64;

/// What the server holds for one connected client.
#[derive(Clone, Copy, Debug, PartialEq, Eq, Structural)]
pub struct Session {
    /// The identifier that the transport gave the client.
    pub client_id: u64,
    /// The client's player.
    pub player: Player,
    /// The actions of the newest input that the client sent.
    pub controls: Controls,
    /// The heading of the newest input that the client sent.
    pub heading: Heading,
    /// How far around its player the client keeps chunks loaded.
    pub render_distance: RenderDistance,
    /// Number of the newest input that was accepted.
    pub last_input: Option<u64>,
    /// Number that the next message to the client will carry.
    pub next_sequence: u64,
}

/// The controls of a client that asks for nothing.
pub open spec fn idle_controls() -> Controls {
    Controls {
        forward: false,
        backward: false,
        left: false,
        right: false,
        jump: false,
        toggle_view_mode: false,
    }
}

/// The session of a client that has just connected: its player rests at the
/// spawn position and nothing was received or sent yet.
pub open spec fn fresh_session(client_id: u64) -> Session {
    Session {
        client_id,
        player: Player {
            position: crate::player::spawn_position(),
            vertical_velocity: 0,
            on_ground: true,
            view_mode: crate::player::ViewMode::FirstPerson,
            ui_mode: crate::player::UIMode::Closed,
        },
        controls: idle_controls(),
        heading: Heading { x: 0, z: -1000i64 },
        render_distance: RenderDistance { distance: 0 },
        last_input: None,
        next_sequence: 1,
    }
}

impl Session {
    /// The player and the heading are within the limits of the simulation.
    pub open spec fn wf(self) -> bool {
        self.player.wf() && self.heading.wf()
    }

    /// Whether the chunk at `coord` is within the render distance of the
    /// session's player.
    pub open spec fn streams(self, coord: ChunkCoordinate) -> bool {
        self.player.position.block().in_world() && coord.within(
            self.player.position.block().chunk(),
            self.render_distance.radius(),
        )
    }

    /// Decides `streams`.
    pub fn is_streaming(&self, coord: ChunkCoordinate) -> (b: bool)
        ensures
            b == self.streams(coord),
    {
        match world_to_chunk_and_local(self.player.position.containing_block()) {
            None => false,
            Some((center, _)) => coord.is_within(&center, self.render_distance.effective_radius()),
        }
    }
}

/// Why a client could not join.
#[derive(Clone, Copy, Debug, PartialEq, Eq, Structural)]
pub enum JoinError {
    /// A session with this client identifier exists already.
    AlreadyConnected,
    /// `MAX_CLIENTS` clients are connected.
    LobbyFull,
}

/// What became of an input message.
#[derive(Clone, Copy, Debug, PartialEq, Eq, Structural)]
pub enum InputOutcome {
    /// The session holds the input now.
    Accepted,
    /// The input is no newer than one that was accepted; it was dropped.
    Stale,
    /// The heading is longer than a heading can be; the input was dropped.
    Malformed,
    /// No session has this client identifier; the input was dropped.
    UnknownClient,
    /// The message is no input; it was dropped.
    Unexpected,
}

/// Tells that a client left, and whom to tell.
#[derive(Debug)]
pub struct Departure {
    /// The client that left.
    pub client_id: u64,
    /// The player that was destroyed with the session.
    pub player: Player,
    /// The clients that are still connected, in the order in which they joined.
    pub recipients: Vec<u64>,
}

/// A message and the client it goes to.
#[derive(Debug)]
pub struct Outgoing {
    pub to: u64,
    pub message: NetworkMessage,
}

/// Something that happened at a place and that every client which streams
/// that place is told.
#[derive(Clone, Copy, Debug, PartialEq, Eq, Structural)]
pub enum Broadcast {
    /// A block changed.
    Block(BlockChange),
    /// The player of the given client is in the given state.
    State(u64, EntityState),
}

impl Broadcast {
    /// The chunk in which it happened; `None` where the place belongs to no chunk.
    pub open spec fn chunk(self) -> Option<ChunkCoordinate> {
        match self {
            Broadcast::Block(change) => if change.position.in_world() {
                Some(change.position.chunk())
            } else {
                None
            },
            Broadcast::State(_, state) => if state.position.block().in_world() {
                Some(state.position.block().chunk())
            } else {
                None
            },
        }
    }

    /// The message that tells it under the given sequence number.
    pub open spec fn message(self, sequence: u64) -> NetworkMessage {
        match self {
            Broadcast::Block(change) => NetworkMessage::BlockMutation { sequence, change },
            Broadcast::State(client, state) => NetworkMessage::EntityStateDelta {
                sequence,
                client,
                state,
            },
        }
    }

    fn subject(&self) -> (c: Option<ChunkCoordinate>)
        ensures
            c == self.chunk(),
    {
        let block = match self {
            Broadcast::Block(change) => change.position,
            Broadcast::State(_, state) => state.position.containing_block(),
        };
        match world_to_chunk_and_local(block) {
            None => None,
            Some((coord, _)) => Some(coord),
        }
    }

    fn to_message(&self, sequence: u64) -> (m: NetworkMessage)
        ensures
            m == self.message(sequence),
    {
        match self {
            Broadcast::Block(change) => NetworkMessage::BlockMutation { sequence, change: *change },
            Broadcast::State(client, state) => NetworkMessage::EntityStateDelta {
                sequence,
                client: *client,
                state: *state,
            },
        }
    }
}

/// Whether `session` is sent `about`: it streams the chunk where it happened
/// and has a sequence number left to give.
pub open spec fn receives(session: Session, about: Broadcast) -> bool {
    &&& session.next_sequence < u64::MAX
    &&& about.chunk() matches Some(coord)
    &&& session.streams(coord)
}

/// `session` after one message was sent to it.
pub open spec fn bumped(session: Session) -> Session {
    Session { next_sequence: (session.next_sequence + 1) as u64, ..session }
}

/// The sessions after `about` was sent: each session that receives it has
/// used one sequence number.
pub open spec fn sessions_after(sessions: Seq<Session>, about: Broadcast) -> Seq<Session> {
    Seq::new(
        sessions.len(),
        |i: int|
            if receives(sessions[i], about) {
                bumped(sessions[i])
            } else {
                sessions[i]
            },
    )
}

/// The messages that tell `about` to the first `upto` sessions: one to each
/// session that receives it, in session order, under the number that is next
/// for that session.
pub open spec fn sent(sessions: Seq<Session>, about: Broadcast, upto: int) -> Seq<Outgoing>
    decreases upto,
{
    if upto <= 0 {
        Seq::empty()
    } else {
        let rest = sent(sessions, about, upto - 1);
        let s = sessions[upto - 1];
        if receives(s, about) {
            rest.push(Outgoing { to: s.client_id, message: about.message(s.next_sequence) })
        } else {
            rest
        }
    }
}

/// Whether a session of `sessions` has identifier `client_id`.
pub open spec fn connected(sessions: Seq<Session>, client_id: u64) -> bool {
    exists|i: int| 0 <= i < sessions.len() && (#[trigger] sessions[i]).client_id == client_id
}

/// The position in `sessions` of the session of `client_id`, which is connected.
pub open spec fn slot_of(sessions: Seq<Session>, client_id: u64) -> int {
    choose|i: int| 0 <= i < sessions.len() && (#[trigger] sessions[i]).client_id == client_id
}

/// No two sessions have the same client identifier, every session is
/// well-formed, and there are `MAX_CLIENTS` sessions at most.
pub open spec fn lobby_wf(sessions: Seq<Session>) -> bool {
    &&& sessions.len() <= MAX_CLIENTS
    &&& forall|i: int| 0 <= i < sessions.len() ==> (#[trigger] sessions[i]).wf()
    &&& forall|i: int, j: int|
        0 <= i < j < sessions.len() ==> (#[trigger] sessions[i]).client_id != (
        #[trigger] sessions[j]).client_id
}

/// The sessions of the connected clients, in the order in which they joined.
#[derive(Debug)]
pub struct ServerLobby {
    sessions: Vec<Session>,
}

impl View for ServerLobby {
    type V = Seq<Session>;

    closed spec fn view(&self) -> Seq<Session> {
        self.sessions@
    }
}

impl Default for ServerLobby {
    fn default() -> (lobby: ServerLobby)
        ensures
            lobby.wf(),
            lobby@.len() == 0,
    {
        ServerLobby { sessions: Vec::new() }
    }
}

impl ServerLobby {
    /// The lobby holds one session per client at most.
    pub open spec fn wf(&self) -> bool {
        lobby_wf(self@)
    }

    /// A lobby without sessions.
    pub fn new() -> (lobby: ServerLobby)
        ensures
            lobby.wf(),
            lobby@.len() == 0,
    {
        ServerLobby { sessions: Vec::new() }
    }

    /// How many clients are connected.
    pub fn len(&self) -> (n: usize)
        ensures
            n == self@.len(),
    {
        self.sessions.len()
    }

    fn find(&self, client_id: u64) -> (at: Option<usize>)
        requires
            self.wf(),
        ensures
            at is Some <==> connected(self@, client_id),
            at matches Some(i) ==> i < self@.len() && self@[i as int].client_id == client_id
                && slot_of(self@, client_id) == i,
    {
        let mut i: usize = 0;
        while i < self.sessions.len()
            invariant
                self.wf(),
                i <= self.sessions@.len(),
                forall|j: int| 0 <= j < i ==> (#[trigger] self.sessions@[j]).client_id != client_id,
            decreases self.sessions@.len() - i,
        {
            if self.sessions[i].client_id == client_id {
                proof {
                    let j = slot_of(self@, client_id);
                    assert(self@[i as int].client_id == client_id);
                    assert(self@[j].client_id == client_id);
                }
                return Some(i);
            }
            i = i + 1;
        }
        None
    }

    /// The session of `client_id`, where it is connected.
    pub fn session(&self, client_id: u64) -> (s: Option<Session>)
        requires
            self.wf(),
        ensures
            s is Some <==> connected(self@, client_id),
            s matches Some(session) ==> session == self@[slot_of(self@, client_id)]
                && session.client_id == client_id && session.wf(),
    {
        match self.find(client_id) {
            None => None,
            Some(i) => Some(self.sessions[i]),
        }
    }

    /// The identifiers of the connected clients, in the order in which they joined.
    pub fn client_ids(&self) -> (ids: Vec<u64>)
        ensures
            ids@.len() == self@.len(),
            forall|i: int| 0 <= i < ids@.len() ==> ids@[i] == (#[trigger] self@[i]).client_id,
    {
        let mut ids: Vec<u64> = Vec::new();
        let mut i: usize = 0;
        while i < self.sessions.len()
            invariant
                i <= self.sessions@.len(),
                ids@.len() == i,
                forall|j: int| 0 <= j < i ==> ids@[j] == (#[trigger] self.sessions@[j]).client_id,
            decreases self.sessions@.len() - i,
        {
            ids.push(self.sessions[i].client_id);
            i = i + 1;
        }
        ids
    }

    /// Opens a session, with a player at the spawn position, for a client
    /// that is not connected yet.
    pub fn connect(&mut self, client_id: u64) -> (r: Result<(), JoinError>)
        requires
            old(self).wf(),
        ensures
            final(self).wf(),
            r == if connected(old(self)@, client_id) {
                Err::<(), JoinError>(JoinError::AlreadyConnected)
            } else if old(self)@.len() >= MAX_CLIENTS {
                Err(JoinError::LobbyFull)
            } else {
                Ok(())
            },
            r is Ok ==> final(self)@ == old(self)@.push(fresh_session(client_id)),
            r is Err ==> final(self)@ == old(self)@,
    {
        if self.find(client_id).is_some() {
            return Err(JoinError::AlreadyConnected);
        }
        if self.sessions.len() >= MAX_CLIENTS {
            return Err(JoinError::LobbyFull);
        }
        let session = Session {
            client_id,
            player: Player::new(),
            controls: Controls {
                forward: false,
                backward: false,
                left: false,
                right: false,
                jump: false,
                toggle_view_mode: false,
            },
            heading: Heading { x: 0, z: -1000 },
            render_distance: RenderDistance { distance: 0 },
            last_input: None,
            next_sequence: 1,
        };
        self.sessions.push(session);
        proof {
            assert forall|i: int, j: int| 0 <= i < j < self@.len() implies (#[trigger] self@[i]).client_id
                != (#[trigger] self@[j]).client_id by {
                if j < old(self)@.len() {
                    assert(old(self)@[i].client_id != old(self)@[j].client_id);
                } else {
                    assert(old(self)@[i].client_id != client_id);
                }
            }
        }
        Ok(())
    }

    /// Closes the session of `client_id` and destroys its player, in one
    /// step, and names the clients to tell. Does nothing where the client is
    /// not connected.
    pub fn disconnect(&mut self, client_id: u64) -> (departure: Option<Departure>)
        requires
            old(self).wf(),
        ensures
            final(self).wf(),
            departure is Some <==> connected(old(self)@, client_id),
            departure matches Some(d) ==> {
                let at = slot_of(old(self)@, client_id);
                &&& final(self)@ == old(self)@.remove(at)
                &&& !connected(final(self)@, client_id)
                &&& d.client_id == client_id
                &&& d.player == old(self)@[at].player
                &&& d.recipients@.len() == final(self)@.len()
                &&& forall|i: int|
                    0 <= i < d.recipients@.len() ==> d.recipients@[i] == (
                    #[trigger] final(self)@[i]).client_id
            },
            departure is None ==> final(self)@ == old(self)@,
    {
        match self.find(client_id) {
            None => None,
            Some(at) => {
                let session = self.sessions.remove(at);
                proof {
                    assert forall|i: int| 0 <= i < self@.len() implies (#[trigger] self@[i]).wf()
                        && self@[i].client_id != client_id by {
                        if i < at {
                            assert(self@[i] == old(self)@[i]);
                        } else {
                            assert(self@[i] == old(self)@[i + 1]);
                        }
                    }
                    assert forall|i: int, j: int| 0 <= i < j < self@.len() implies (
                    #[trigger] self@[i]).client_id != (#[trigger] self@[j]).client_id by {
                        let oi = if i < at { i } else { i + 1 };
                        let oj = if j < at { j } else { j + 1 };
                        assert(self@[i] == old(self)@[oi]);
                        assert(self@[j] == old(self)@[oj]);
                    }
                }
                let recipients = self.client_ids();
                Some(Departure { client_id, player: session.player, recipients })
            },
        }
    }

    /// Takes the input that the client `client_id` sent into its session.
    ///
    /// The input is dropped, and nothing changes, where the client is not
    /// connected, the message is no input, the input is no newer than the
    /// one that the session holds, or its heading is too long.
    pub fn receive_input(&mut self, client_id: u64, message: &NetworkMessage) -> (outcome:
        InputOutcome)
        requires
            old(self).wf(),
        ensures
            final(self).wf(),
            outcome == input_outcome(old(self)@, client_id, *message),
            final(self)@ == sessions_with_input(old(self)@, client_id, *message),
    {
        let at = match self.find(client_id) {
            None => {
                return InputOutcome::UnknownClient;
            },
            Some(at) => at,
        };
        match message {
            NetworkMessage::InputCommand { sequence, controls, heading } => {
                let session = self.sessions[at];
                if !is_fresh(session.last_input, *sequence) {
                    return InputOutcome::Stale;
                }
                if Heading::new(heading.x, heading.z).is_none() {
                    return InputOutcome::Malformed;
                }
                self.sessions.set(
                    at,
                    Session {
                        client_id: session.client_id,
                        player: session.player,
                        controls: *controls,
                        heading: *heading,
                        render_distance: session.render_distance,
                        last_input: Some(*sequence),
                        next_sequence: session.next_sequence,
                    },
                );
                proof {
                    assert forall|i: int, j: int| 0 <= i < j < self@.len() implies (
                    #[trigger] self@[i]).client_id != (#[trigger] self@[j]).client_id by {
                        assert(self@[i].client_id == old(self)@[i].client_id);
                        assert(self@[j].client_id == old(self)@[j].client_id);
                    }
                    assert forall|i: int| 0 <= i < self@.len() implies (#[trigger] self@[i]).wf() by {
                        if i != at {
                            assert(self@[i] == old(self)@[i]);
                        }
                    }
                }
                InputOutcome::Accepted
            },
            _ => InputOutcome::Unexpected,
        }
    }

    /// Sets how far around its player the client `client_id` keeps chunks
    /// loaded, and says whether that client is connected.
    pub fn set_render_distance(&mut self, client_id: u64, render_distance: RenderDistance) -> (found:
        bool)
        requires
            old(self).wf(),
        ensures
            final(self).wf(),
            found == connected(old(self)@, client_id),
            found ==> final(self)@ == old(self)@.update(
                slot_of(old(self)@, client_id),
                Session { render_distance, ..old(self)@[slot_of(old(self)@, client_id)] },
            ),
            !found ==> final(self)@ == old(self)@,
    {
        match self.find(client_id) {
            None => false,
            Some(at) => {
                let session = self.sessions[at];
                self.sessions.set(
                    at,
                    Session {
                        client_id: session.client_id,
                        player: session.player,
                        controls: session.controls,
                        heading: session.heading,
                        render_distance,
                        last_input: session.last_input,
                        next_sequence: session.next_sequence,
                    },
                );
                proof {
                    assert forall|i: int, j: int| 0 <= i < j < self@.len() implies (
                    #[trigger] self@[i]).client_id != (#[trigger] self@[j]).client_id by {
                        assert(self@[i].client_id == old(self)@[i].client_id);
                        assert(self@[j].client_id == old(self)@[j].client_id);
                    }
                    assert forall|i: int| 0 <= i < self@.len() implies (#[trigger] self@[i]).wf() by {
                        if i != at {
                            assert(self@[i] == old(self)@[i]);
                        }
                    }
                }
                true
            },
        }
    }

    /// Moves every player by one tick of `delta_micros` microseconds under
    /// the input that its session holds.
    pub fn advance(&mut self, blocks: &VoxelStore, delta_micros: u32)
        requires
            old(self).wf(),
            blocks.wf(),
        ensures
            final(self).wf(),
            final(self)@ == all_advanced(old(self)@, delta_micros as int, blocks@),
    {
        let mut i: usize = 0;
        while i < self.sessions.len()
            invariant
                blocks.wf(),
                i <= self.sessions@.len(),
                self.sessions@.len() == old(self).sessions@.len(),
                old(self).wf(),
                forall|j: int|
                    0 <= j < i ==> #[trigger] self.sessions@[j] == advanced(
                        old(self).sessions@[j],
                        delta_micros as int,
                        blocks@,
                    ),
                forall|j: int| 0 <= j < i ==> (#[trigger] self.sessions@[j]).player.wf(),
                forall|j: int|
                    i <= j < self.sessions@.len() ==> #[trigger] self.sessions@[j] == old(
                        self,
                    ).sessions@[j],
            decreases self.sessions@.len() - i,
        {
            let session = self.sessions[i];
            assert(session == old(self)@[i as int]);
            assert(session.wf());
            let mut player = session.player;
            step_player(&mut player, session.controls, session.heading, delta_micros, blocks);
            self.sessions.set(
                i,
                Session {
                    client_id: session.client_id,
                    player,
                    controls: Controls {
                        forward: session.controls.forward,
                        backward: session.controls.backward,
                        left: session.controls.left,
                        right: session.controls.right,
                        jump: session.controls.jump,
                        toggle_view_mode: false,
                    },
                    heading: session.heading,
                    render_distance: session.render_distance,
                    last_input: session.last_input,
                    next_sequence: session.next_sequence,
                },
            );
            i = i + 1;
        }
        proof {
            let after = all_advanced(old(self)@, delta_micros as int, blocks@);
            assert(self@ =~= after);
            assert forall|j: int| 0 <= j < old(self)@.len() implies (#[trigger] after[j]).player.wf() by {
                assert(self.sessions@[j].player.wf());
            }
            lemma_advanced_wf(old(self)@, delta_micros as int, blocks@);
        }
    }

    /// Sends `about` to every client that streams the chunk where it
    /// happened, each message under the next sequence number of its client.
    pub fn broadcast(&mut self, about: Broadcast) -> (out: Vec<Outgoing>)
        requires
            old(self).wf(),
        ensures
            final(self).wf(),
            final(self)@ == sessions_after(old(self)@, about),
            out@ == sent(old(self)@, about, old(self)@.len() as int),
    {
        let mut out: Vec<Outgoing> = Vec::new();
        let subject = about.subject();
        let mut i: usize = 0;
        while i < self.sessions.len()
            invariant
                i <= self.sessions@.len(),
                self.sessions@.len() == old(self).sessions@.len(),
                subject == about.chunk(),
                out@ == sent(old(self)@, about, i as int),
                forall|j: int|
                    0 <= j < i ==> #[trigger] self.sessions@[j] == sessions_after(
                        old(self)@,
                        about,
                    )[j],
                forall|j: int|
                    i <= j < self.sessions@.len() ==> #[trigger] self.sessions@[j] == old(
                        self,
                    ).sessions@[j],
            decreases self.sessions@.len() - i,
        {
            let session = self.sessions[i];
            let takes = session.next_sequence < u64::MAX && match subject {
                None => false,
                Some(coord) => session.is_streaming(coord),
            };
            if takes {
                out.push(Outgoing { to: session.client_id, message: about.to_message(session.next_sequence) });
                self.sessions.set(
                    i,
                    Session {
                        client_id: session.client_id,
                        player: session.player,
                        controls: session.controls,
                        heading: session.heading,
                        render_distance: session.render_distance,
                        last_input: session.last_input,
                        next_sequence: session.next_sequence + 1,
                    },
                );
            }
            i = i + 1;
        }
        proof {
            assert(self@ =~= sessions_after(old(self)@, about));
            lemma_sessions_after_wf(old(self)@, about);
        }
        out
    }

    /// One tick of the server: moves every player under the input that its
    /// session holds, then tells the state of each player to every client
    /// that streams the chunk where that player is.
    pub fn tick(&mut self, blocks: &VoxelStore, delta_micros: u32) -> (out: Vec<Outgoing>)
        requires
            old(self).wf(),
            blocks.wf(),
        ensures
            final(self).wf(),
            final(self)@ == told(
                all_advanced(old(self)@, delta_micros as int, blocks@),
                old(self)@.len() as int,
            ).0,
            out@ == told(
                all_advanced(old(self)@, delta_micros as int, blocks@),
                old(self)@.len() as int,
            ).1,
    {
        self.advance(blocks, delta_micros);
        let ghost moved = self@;
        let mut out: Vec<Outgoing> = Vec::new();
        let n = self.sessions.len();
        let mut i: usize = 0;
        while i < n
            invariant
                i <= n,
                n == moved.len(),
                self.wf(),
                self@.len() == n,
                self@ == told(moved, i as int).0,
                out@ == told(moved, i as int).1,
            decreases n - i,
        {
            let session = self.sessions[i];
            let about = Broadcast::State(session.client_id, EntityState::of(&session.player));
            let mut more = self.broadcast(about);
            out.append(&mut more);
            i = i + 1;
        }
        out
    }
}

/// The chunk that a chunk-data message is about.
pub open spec fn chunk_of(o: Outgoing) -> ChunkCoordinate {
    match o.message {
        NetworkMessage::ChunkData { coord, .. } => coord,
        _ => ChunkCoordinate { x: 0, y: 0, z: 0 },
    }
}

/// Whether `o` tells the client of `session`, under number `sequence`, the
/// content that a chunk which `session` streams has in `m`.
pub open spec fn is_chunk_data(o: Outgoing, session: Session, sequence: int, m: StoreView) -> bool {
    &&& o.to == session.client_id
    &&& o.message matches NetworkMessage::ChunkData { sequence: number, coord, blocks }
    &&& number == sequence
    &&& session.streams(coord)
    &&& m.contains_key(coord)
    &&& blocks@ == m[coord].blocks
}

/// Whether some message of `out` is about the chunk at `coord`.
pub open spec fn covers(out: Seq<Outgoing>, coord: ChunkCoordinate) -> bool {
    exists|k: int| 0 <= k < out.len() && chunk_of(#[trigger] out[k]) == coord
}

/// Whether `out` is what a client is sent when it has joined: the content of
/// every loaded chunk that `session` streams, each chunk once, numbered from
/// the session's next sequence number on. Where the session runs out of
/// sequence numbers, chunks may be missing.
pub open spec fn is_initial_data(out: Seq<Outgoing>, session: Session, m: StoreView) -> bool {
    &&& session.next_sequence + out.len() <= u64::MAX
    &&& forall|k: int|
        0 <= k < out.len() ==> is_chunk_data(#[trigger] out[k], session, session.next_sequence + k, m)
    &&& forall|i: int, j: int|
        0 <= i < j < out.len() ==> chunk_of(#[trigger] out[i]) != chunk_of(#[trigger] out[j])
    &&& session.next_sequence + out.len() < u64::MAX ==> forall|coord: ChunkCoordinate|
        session.streams(coord) && m.contains_key(coord) ==> #[trigger] covers(out, coord)
}

impl ServerLobby {
    /// Makes the messages that tell the client `client_id` the content of
    /// every loaded chunk within the render distance of its player. Makes
    /// none where the client is not connected.
    pub fn initial_chunks(&mut self, client_id: u64, blocks: &VoxelStore) -> (out: Vec<Outgoing>)
        requires
            old(self).wf(),
            blocks.wf(),
        ensures
            final(self).wf(),
            !connected(old(self)@, client_id) ==> out@.len() == 0 && final(self)@ == old(self)@,
            connected(old(self)@, client_id) ==> {
                let at = slot_of(old(self)@, client_id);
                let session = old(self)@[at];
                &&& is_initial_data(out@, session, blocks@)
                &&& final(self)@ == old(self)@.update(
                    at,
                    Session {
                        next_sequence: (session.next_sequence + out@.len()) as u64,
                        ..session
                    },
                )
            },
    {
        let mut out: Vec<Outgoing> = Vec::new();
        let at = match self.find(client_id) {
            None => {
                return out;
            },
            Some(at) => at,
        };
        let session = self.sessions[at];
        let coords = blocks.loaded_coordinates();
        let ghost m = blocks@;
        let mut next: u64 = session.next_sequence;
        let mut i: usize = 0;
        while i < coords.len()
            invariant
                blocks.wf(),
                m == blocks@,
                i <= coords@.len(),
                coords@.no_duplicates(),
                coords@.to_set() == m.dom(),
                next == session.next_sequence + out@.len(),
                forall|k: int|
                    0 <= k < out@.len() ==> is_chunk_data(
                        #[trigger] out@[k],
                        session,
                        session.next_sequence + k,
                        m,
                    ) && coords@.take(i as int).contains(chunk_of(out@[k])),
                forall|a: int, b: int|
                    0 <= a < b < out@.len() ==> chunk_of(#[trigger] out@[a]) != chunk_of(
                        #[trigger] out@[b],
                    ),
                next < u64::MAX ==> forall|coord: ChunkCoordinate|
                    session.streams(coord) && coords@.take(i as int).contains(coord)
                        ==> #[trigger] covers(out@, coord),
            decreases coords@.len() - i,
        {
            let coord = coords[i];
            let ghost out_before = out@;
            proof {
                assert(coords@.to_set().contains(coord));
                assert forall|c: ChunkCoordinate|
                    coords@.take(i + 1).contains(c) <==> (coords@.take(i as int).contains(c)
                        || coord == c) by {
                    crate::streaming::lemma_take_contains(coords@, i as int, c);
                }
                crate::streaming::lemma_take_contains(coords@, i as int, coord);
            }
            if next < u64::MAX && session.is_streaming(coord) {
                let data = blocks.chunk_blocks(coord).unwrap();
                out.push(
                    Outgoing {
                        to: session.client_id,
                        message: NetworkMessage::ChunkData { sequence: next, coord, blocks: data },
                    },
                );
                next = next + 1;
                proof {
                    assert(chunk_of(out@[out_before.len() as int]) == coord);
                    assert forall|k: int| 0 <= k < out_before.len() implies out@[k]
                        == out_before[k] by {}
                    if next < u64::MAX {
                        assert forall|c: ChunkCoordinate|
                            session.streams(c) && coords@.take(i + 1).contains(
                                c,
                            ) implies #[trigger] covers(out@, c) by {
                            if c != coord {
                                assert(covers(out_before, c));
                                let k = choose|k: int|
                                    0 <= k < out_before.len() && chunk_of(#[trigger] out_before[k])
                                        == c;
                                assert(chunk_of(out@[k]) == c);
                            }
                        }
                    }
                }
            }
            i = i + 1;
        }
        proof {
            assert(coords@.take(i as int) =~= coords@);
            assert forall|c: ChunkCoordinate| m.contains_key(c) implies coords@.contains(c) by {
                assert(coords@.to_set().contains(c));
            }
        }
        self.sessions.set(
            at,
            Session {
                client_id: session.client_id,
                player: session.player,
                controls: session.controls,
                heading: session.heading,
                render_distance: session.render_distance,
                last_input: session.last_input,
                next_sequence: next,
            },
        );
        proof {
            assert forall|a: int, b: int| 0 <= a < b < self@.len() implies (#[trigger] self@[a]).client_id
                != (#[trigger] self@[b]).client_id by {
                assert(self@[a].client_id == old(self)@[a].client_id);
                assert(self@[b].client_id == old(self)@[b].client_id);
            }
            assert forall|a: int| 0 <= a < self@.len() implies (#[trigger] self@[a]).wf() by {
                if a != at {
                    assert(self@[a] == old(self)@[a]);
                }
            }
        }
        out
    }
}

/// How an interaction of a client ended, and the messages that tell of it.
#[derive(Debug)]
pub struct Resolved {
    pub outcome: InteractionOutcome,
    /// The block mutation for every client that streams the changed block;
    /// empty where nothing changed.
    pub messages: Vec<Outgoing>,
}

impl ServerLobby {
    /// Resolves a break or place action of the player of `client_id`, who
    /// looks along `ray`, against the server's store, and tells the change to
    /// every client that streams the place. Does nothing, and gives `None`,
    /// where the client is not connected.
    pub fn resolve_interaction(
        &mut self,
        store: &mut VoxelStore,
        client_id: u64,
        ray: &Ray,
        action: Interaction,
    ) -> (r: Option<Resolved>)
        requires
            old(self).wf(),
            old(store).wf(),
            ray.wf(),
        ensures
            final(self).wf(),
            final(store).wf(),
            r is Some <==> connected(old(self)@, client_id),
            r is None ==> final(self)@ == old(self)@ && final(store)@ == old(store)@,
            r matches Some(resolved) ==> {
                let actor = old(self)@[slot_of(old(self)@, client_id)].player.position;
                &&& resolved.outcome == interaction_outcome(old(store)@, *ray, actor, action)
                &&& match resolved.outcome {
                    InteractionOutcome::Changed(change) => {
                        &&& final(store)@ == with_block(
                            old(store)@,
                            change.position,
                            change.block,
                        )
                        &&& final(self)@ == sessions_after(old(self)@, Broadcast::Block(change))
                        &&& resolved.messages@ == sent(
                            old(self)@,
                            Broadcast::Block(change),
                            old(self)@.len() as int,
                        )
                    },
                    _ => {
                        &&& final(store)@ == old(store)@
                        &&& final(self)@ == old(self)@
                        &&& resolved.messages@.len() == 0
                    },
                }
            },
    {
        let actor = match self.session(client_id) {
            None => {
                return None;
            },
            Some(session) => session.player.position,
        };
        let outcome = interact(store, ray, actor, action);
        let messages = match outcome {
            InteractionOutcome::Changed(change) => self.broadcast(Broadcast::Block(change)),
            _ => Vec::new(),
        };
        Some(Resolved { outcome, messages })
    }
}

/// Whether one of `sessions` streams the chunk at `coord`.
pub open spec fn streamed_by_some(sessions: Seq<Session>, coord: ChunkCoordinate) -> bool {
    exists|i: int| 0 <= i < sessions.len() && (#[trigger] sessions[i]).streams(coord)
}

impl ServerLobby {
    /// The observers that the store is kept loaded for: one per session whose
    /// player is in the addressable world, around that player's chunk.
    pub fn observers(&self) -> (out: Vec<Observer>)
        ensures
            forall|c: ChunkCoordinate|
                #[trigger] observed(c, out@) <==> streamed_by_some(self@, c),
    {
        let mut out: Vec<Observer> = Vec::new();
        let mut i: usize = 0;
        while i < self.sessions.len()
            invariant
                i <= self.sessions@.len(),
                forall|c: ChunkCoordinate|
                    #[trigger] observed(c, out@) <==> streamed_by_some(
                        self.sessions@.take(i as int),
                        c,
                    ),
            decreases self.sessions@.len() - i,
        {
            let session = self.sessions[i];
            let ghost out_before = out@;
            let center = world_to_chunk_and_local(session.player.position.containing_block());
            match center {
                None => {},
                Some((chunk, _)) => {
                    out.push(
                        Observer { chunk, radius: session.render_distance.effective_radius() },
                    );
                },
            }
            proof {
                let seen = self.sessions@.take(i as int);
                let seen_next = self.sessions@.take(i + 1);
                assert forall|c: ChunkCoordinate|
                    #[trigger] observed(c, out@) <==> streamed_by_some(seen_next, c) by {
                    if observed(c, out@) {
                        let k = choose|k: int|
                            0 <= k < out@.len() && c.within(
                                (#[trigger] out@[k]).chunk,
                                out@[k].radius as int,
                            );
                        if k < out_before.len() {
                            assert(c.within(out_before[k].chunk, out_before[k].radius as int));
                            assert(observed(c, out_before));
                            let j = choose|j: int|
                                0 <= j < seen.len() && (#[trigger] seen[j]).streams(c);
                            assert(seen_next[j].streams(c));
                        } else {
                            assert(seen_next[i as int].streams(c));
                        }
                    }
                    if streamed_by_some(seen_next, c) {
                        let j = choose|j: int|
                            0 <= j < seen_next.len() && (#[trigger] seen_next[j]).streams(c);
                        if j < i {
                            assert(seen[j].streams(c));
                            assert(observed(c, out_before));
                            let k = choose|k: int|
                                0 <= k < out_before.len() && c.within(
                                    (#[trigger] out_before[k]).chunk,
                                    out_before[k].radius as int,
                                );
                            assert(c.within(out@[k].chunk, out@[k].radius as int));
                        } else {
                            let last = out@.len() - 1;
                            assert(c.within(out@[last].chunk, out@[last].radius as int));
                        }
                    }
                }
            }
            i = i + 1;
        }
        assert(self.sessions@.take(i as int) =~= self.sessions@);
        out
    }
}

/// The message that tells `about` to the client of `session`.
pub open spec fn delivery(session: Session, about: Broadcast) -> Outgoing {
    Outgoing { to: session.client_id, message: about.message(session.next_sequence) }
}

/// Whether `o` tells `about` to one of `sessions` that receives it.
pub open spec fn is_delivery(sessions: Seq<Session>, about: Broadcast, o: Outgoing) -> bool {
    exists|i: int|
        0 <= i < sessions.len() && receives(#[trigger] sessions[i], about) && o == delivery(
            sessions[i],
            about,
        )
}

/// A message about something that happened goes only to clients whose
/// session streams the chunk where it happened, and each such client that
/// has a sequence number left gets it.
pub proof fn lemma_sent_to_streaming(sessions: Seq<Session>, about: Broadcast)
    ensures
        forall|k: int|
            0 <= k < sent(sessions, about, sessions.len() as int).len() ==> is_delivery(
                sessions,
                about,
                #[trigger] sent(sessions, about, sessions.len() as int)[k],
            ),
        forall|i: int|
            0 <= i < sessions.len() && receives(#[trigger] sessions[i], about) ==> sent(
                sessions,
                about,
                sessions.len() as int,
            ).contains(delivery(sessions[i], about)),
{
    lemma_sent_upto(sessions, about, sessions.len() as int);
    assert(sessions.take(sessions.len() as int) =~= sessions);
}

proof fn lemma_sent_upto(sessions: Seq<Session>, about: Broadcast, upto: int)
    requires
        0 <= upto <= sessions.len(),
    ensures
        forall|k: int|
            0 <= k < sent(sessions, about, upto).len() ==> is_delivery(
                sessions.take(upto),
                about,
                #[trigger] sent(sessions, about, upto)[k],
            ),
        forall|i: int|
            0 <= i < upto && receives(#[trigger] sessions[i], about) ==> sent(
                sessions,
                about,
                upto,
            ).contains(delivery(sessions[i], about)),
    decreases upto,
{
    if upto > 0 {
        lemma_sent_upto(sessions, about, upto - 1);
        let rest = sent(sessions, about, upto - 1);
        let all = sent(sessions, about, upto);
        let seen = sessions.take(upto - 1);
        let seen_next = sessions.take(upto);
        assert forall|k: int| 0 <= k < all.len() implies is_delivery(
            seen_next,
            about,
            #[trigger] all[k],
        ) by {
            if k < rest.len() {
                assert(all[k] == rest[k]);
                assert(is_delivery(seen, about, rest[k]));
                let i = choose|i: int|
                    0 <= i < seen.len() && receives(#[trigger] seen[i], about) && rest[k]
                        == delivery(seen[i], about);
                assert(receives(seen_next[i], about));
            } else {
                assert(receives(seen_next[upto - 1], about));
            }
        }
        assert forall|i: int|
            0 <= i < upto && receives(#[trigger] sessions[i], about) implies all.contains(
            delivery(sessions[i], about),
        ) by {
            let o = delivery(sessions[i], about);
            if i < upto - 1 {
                assert(rest.contains(o));
                let k = choose|k: int| 0 <= k < rest.len() && rest[k] == o;
                assert(all[k] == o);
            } else {
                assert(all[all.len() - 1] == o);
            }
        }
    }
}

/// What became of the input `message` of the client `client_id`.
pub open spec fn input_outcome(
    sessions: Seq<Session>,
    client_id: u64,
    message: NetworkMessage,
) -> InputOutcome {
    if !connected(sessions, client_id) {
        InputOutcome::UnknownClient
    } else {
        match message {
            NetworkMessage::InputCommand { sequence, heading, .. } => if !fresh(
                sessions[slot_of(sessions, client_id)].last_input,
                sequence,
            ) {
                InputOutcome::Stale
            } else if !heading.wf() {
                InputOutcome::Malformed
            } else {
                InputOutcome::Accepted
            },
            _ => InputOutcome::Unexpected,
        }
    }
}

/// The sessions after the input `message` of the client `client_id`: an
/// accepted input is held by the client's session, every other changes nothing.
pub open spec fn sessions_with_input(
    sessions: Seq<Session>,
    client_id: u64,
    message: NetworkMessage,
) -> Seq<Session> {
    match message {
        NetworkMessage::InputCommand { sequence, controls, heading } => if input_outcome(
            sessions,
            client_id,
            message,
        ) == InputOutcome::Accepted {
            let at = slot_of(sessions, client_id);
            sessions.update(
                at,
                Session { controls, heading, last_input: Some(sequence), ..sessions[at] },
            )
        } else {
            sessions
        },
        _ => sessions,
    }
}

/// `session` after one tick: its player moved under the input that the
/// session holds, and the request to switch the view mode is used up.
pub open spec fn advanced(session: Session, delta_micros: int, m: StoreView) -> Session {
    Session {
        player: stepped(session.player, session.controls, session.heading, delta_micros, m),
        controls: Controls { toggle_view_mode: false, ..session.controls },
        ..session
    }
}

/// Every session after one tick.
pub open spec fn all_advanced(sessions: Seq<Session>, delta_micros: int, m: StoreView) -> Seq<
    Session,
> {
    Seq::new(sessions.len(), |i: int| advanced(sessions[i], delta_micros, m))
}

/// The sessions, and the messages sent, after the states of the players of
/// the first `upto` sessions were told, one player after the other.
pub open spec fn told(sessions: Seq<Session>, upto: int) -> (Seq<Session>, Seq<Outgoing>)
    decreases upto,
{
    if upto <= 0 {
        (sessions, Seq::empty())
    } else {
        let (before, out) = told(sessions, upto - 1);
        let mover = before[upto - 1];
        let about = Broadcast::State(mover.client_id, spec_state_of(mover.player));
        (sessions_after(before, about), out + sent(before, about, before.len() as int))
    }
}

/// A tick keeps a well-formed lobby well-formed.
pub proof fn lemma_advanced_wf(sessions: Seq<Session>, delta_micros: int, m: StoreView)
    requires
        lobby_wf(sessions),
        0 <= delta_micros < 0x1_0000_0000,
        forall|i: int|
            0 <= i < sessions.len() ==> (#[trigger] all_advanced(
                sessions,
                delta_micros,
                m,
            )[i]).player.wf(),
    ensures
        lobby_wf(all_advanced(sessions, delta_micros, m)),
{
    let after = all_advanced(sessions, delta_micros, m);
    assert forall|i: int, j: int| 0 <= i < j < after.len() implies (#[trigger] after[i]).client_id
        != (#[trigger] after[j]).client_id by {
        assert(sessions[i].client_id != sessions[j].client_id);
    }
    assert forall|i: int| 0 <= i < after.len() implies (#[trigger] after[i]).wf() by {
        assert(sessions[i].wf());
    }
}

/// Sending keeps a well-formed lobby well-formed: it changes sequence
/// numbers only.
pub proof fn lemma_sessions_after_wf(sessions: Seq<Session>, about: Broadcast)
    requires
        lobby_wf(sessions),
    ensures
        lobby_wf(sessions_after(sessions, about)),
        sessions_after(sessions, about).len() == sessions.len(),
        forall|i: int|
            0 <= i < sessions.len() ==> {
                let a = #[trigger] sessions_after(sessions, about)[i];
                &&& a.client_id == sessions[i].client_id
                &&& a.player == sessions[i].player
                &&& a.controls == sessions[i].controls
                &&& a.heading == sessions[i].heading
                &&& a.render_distance == sessions[i].render_distance
                &&& a.last_input == sessions[i].last_input
                &&& a.next_sequence >= sessions[i].next_sequence
            },
{
    let after = sessions_after(sessions, about);
    assert forall|i: int, j: int| 0 <= i < j < after.len() implies (#[trigger] after[i]).client_id
        != (#[trigger] after[j]).client_id by {
        assert(sessions[i].client_id != sessions[j].client_id);
    }
    assert forall|i: int| 0 <= i < after.len() implies (#[trigger] after[i]).wf() by {
        assert(sessions[i].wf());
    }
}

} // verus!
