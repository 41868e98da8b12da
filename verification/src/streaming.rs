//! Chunk streaming: which chunks are loaded around an observer, and the
//! render requests that each change of that set gives rise to.

use bevy_input::ButtonInput;
use vstd::prelude::*;
use crate::block::BlockId;
use crate::chunk::{Chunk, ChunkView};
use crate::coords::{ChunkCoordinate, CHUNK_VOLUME};
use crate::keyboard::{action_active, is_action_just_pressed, pressed_now, GameAction, KeyMap};
use crate::store::{StoreView, VoxelStore};

verus! {

/// The radius in force while none was chosen.
pub const DEFAULT_CHUNK_RENDER_DISTANCE_RADIUS: u32 = 2;

/// How far, in chunks, the world is kept loaded around the observer.
///
/// A distance of 0 stands for "not chosen yet".
#[derive(Clone, Copy, Debug, PartialEq, Eq, Structural)]
pub struct RenderDistance {
    pub distance: u32,
}

impl Default for RenderDistance {
    fn default() -> (r: RenderDistance)
        ensures
            r.distance == 0,
    {
        RenderDistance { distance: 0 }
    }
}

impl RenderDistance {
    /// The radius that streaming uses: the chosen distance, or the default
    /// while none was chosen. It is never below 1.
    pub open spec fn radius(self) -> int {
        if self.distance == 0 {
            DEFAULT_CHUNK_RENDER_DISTANCE_RADIUS as int
        } else {
            self.distance as int
        }
    }

    /// Computes `radius`.
    pub fn effective_radius(&self) -> (r: u32)
        ensures
            r == self.radius(),
            r >= 1,
    {
        if self.distance == 0 {
            DEFAULT_CHUNK_RENDER_DISTANCE_RADIUS
        } else {
            self.distance
        }
    }
}

/// The distance after one tick of input: an unset distance becomes the
/// default, "minus" lowers it but not below 1, then "plus" raises it but not
/// past what the type holds.
pub open spec fn updated_distance(distance: u32, minus: bool, plus: bool) -> u32 {
    let base = if distance == 0 {
        DEFAULT_CHUNK_RENDER_DISTANCE_RADIUS
    } else {
        distance
    };
    let lowered = if minus && base > 1 {
        (base - 1) as u32
    } else {
        base
    };
    if plus && lowered < u32::MAX {
        (lowered + 1) as u32
    } else {
        lowered
    }
}

/// Applies this tick's render-distance keys to `render_distance`.
pub fn render_distance_update_system(
    render_distance: &mut RenderDistance,
    keyboard_input: &ButtonInput<u32>,
    key_map: &KeyMap,
)
    requires
        key_map.wf(),
    ensures
        final(render_distance).distance == updated_distance(
            old(render_distance).distance,
            action_active(GameAction::RenderDistanceMinus, pressed_now(*keyboard_input), key_map@),
            action_active(GameAction::RenderDistancePlus, pressed_now(*keyboard_input), key_map@),
        ),
        final(render_distance).distance >= 1,
{
    if render_distance.distance == 0 {
        render_distance.distance = DEFAULT_CHUNK_RENDER_DISTANCE_RADIUS;
    }
    if is_action_just_pressed(GameAction::RenderDistanceMinus, keyboard_input, key_map) {
        if render_distance.distance > 1 {
            render_distance.distance -= 1;
        }
    }
    if is_action_just_pressed(GameAction::RenderDistancePlus, keyboard_input, key_map) {
        if render_distance.distance < u32::MAX {
            render_distance.distance += 1;
        }
    }
}

/// Why a chunk's mesh has to be built again.
#[derive(Clone, Copy, Debug, PartialEq, Eq, Structural)]
pub enum RenderReason {
    Loaded,
    Unloaded,
    Mutated,
}

/// Tells the renderer that one chunk changed.
#[derive(Clone, Copy, Debug, PartialEq, Eq, Structural)]
pub struct RenderRequest {
    pub chunk_coord: ChunkCoordinate,
    pub reason: RenderReason,
}

/// Where the content of a chunk that enters the streaming radius comes from.
pub trait ChunkSource {
    /// The blocks, in storage order, of the chunk at `coord`.
    spec fn content(&self, coord: ChunkCoordinate) -> Seq<BlockId>;

    /// Builds the chunk at `coord`.
    fn produce(&self, coord: ChunkCoordinate) -> (chunk: Chunk)
        ensures
            chunk.wf(),
            chunk@.blocks == self.content(coord),
            !chunk@.dirty,
    ;
}

/// Level terrain: grass on the surface layer, three layers of dirt under it,
/// stone further down and air above.
#[derive(Clone, Copy, Debug, PartialEq, Eq, Structural)]
pub struct FlatTerrain {
    /// World height of the grass layer.
    pub surface: i64,
}

/// The block that level terrain with its grass at `surface` holds at height `y`.
pub open spec fn layer_block(surface: int, y: int) -> BlockId {
    if y > surface {
        BlockId::Air
    } else if y == surface {
        BlockId::Grass
    } else if y >= surface - 3 {
        BlockId::Dirt
    } else {
        BlockId::Stone
    }
}

impl ChunkSource for FlatTerrain {
    open spec fn content(&self, coord: ChunkCoordinate) -> Seq<BlockId> {
        Seq::new(
            CHUNK_VOLUME as nat,
            |i: int| layer_block(self.surface as int, coord.y * 16 + (i / 16) % 16),
        )
    }

    fn produce(&self, coord: ChunkCoordinate) -> (chunk: Chunk) {
        let base: i64 = coord.y as i64 * 16;
        let mut blocks: Vec<BlockId> = Vec::new();
        let mut i: usize = 0;
        while i < CHUNK_VOLUME
            invariant
                i <= CHUNK_VOLUME,
                base == coord.y * 16,
                blocks@.len() == i,
                forall|j: int|
                    0 <= j < i ==> blocks@[j] == layer_block(
                        self.surface as int,
                        coord.y * 16 + (j / 16) % 16,
                    ),
            decreases CHUNK_VOLUME - i,
        {
            let y: i64 = base + ((i / 16) % 16) as i64;
            let block = if y > self.surface {
                BlockId::Air
            } else if y == self.surface {
                BlockId::Grass
            } else if y as i128 >= self.surface as i128 - 3 {
                BlockId::Dirt
            } else {
                BlockId::Stone
            };
            blocks.push(block);
            i = i + 1;
        }
        assert(blocks@ =~= self.content(coord));
        Chunk::from_blocks(blocks).unwrap()
    }
}

/// A chunk with unsaved writes that left the streaming radius.
#[derive(Debug)]
pub struct EvictedChunk {
    pub coord: ChunkCoordinate,
    pub chunk: Chunk,
}

/// What one streaming step did.
#[derive(Debug)]
pub struct StreamReport {
    /// One request per chunk that was loaded or unloaded.
    pub events: Vec<RenderRequest>,
    /// The unloaded chunks that had unsaved writes, for the caller to save.
    pub flushed: Vec<EvictedChunk>,
}

/// The coordinates within `radius` chunks of `observer` on every axis.
pub open spec fn in_range_set(observer: ChunkCoordinate, radius: int) -> Set<ChunkCoordinate> {
    Set::new(|c: ChunkCoordinate| c.within(observer, radius))
}

/// Whether some request in `events` is about `coord`.
pub open spec fn names(events: Seq<RenderRequest>, coord: ChunkCoordinate) -> bool {
    exists|k: int| 0 <= k < events.len() && (#[trigger] events[k]).chunk_coord == coord
}

/// Whether some entry of `flushed` is the chunk of `coord`.
pub open spec fn holds(flushed: Seq<EvictedChunk>, coord: ChunkCoordinate) -> bool {
    exists|k: int| 0 <= k < flushed.len() && (#[trigger] flushed[k]).coord == coord
}

/// `events` holds exactly one request for each coordinate that is in one of
/// `before` and `after` but not in the other, with the reason that fits, and
/// no other request.
pub open spec fn reports_transitions(
    events: Seq<RenderRequest>,
    before: Set<ChunkCoordinate>,
    after: Set<ChunkCoordinate>,
) -> bool {
    &&& forall|i: int, j: int|
        0 <= i < j < events.len() ==> (#[trigger] events[i]).chunk_coord != (
        #[trigger] events[j]).chunk_coord
    &&& forall|i: int|
        0 <= i < events.len() ==> match (#[trigger] events[i]).reason {
            RenderReason::Loaded => !before.contains(events[i].chunk_coord) && after.contains(
                events[i].chunk_coord,
            ),
            RenderReason::Unloaded => before.contains(events[i].chunk_coord) && !after.contains(
                events[i].chunk_coord,
            ),
            RenderReason::Mutated => false,
        }
    &&& forall|c: ChunkCoordinate|
        before.contains(c) != after.contains(c) ==> #[trigger] names(events, c)
}

/// `flushed` holds, once each and with the content they had, exactly the
/// chunks of `before` that are dirty and whose coordinate is not in `after`.
pub open spec fn flushes_dirty(
    flushed: Seq<EvictedChunk>,
    before: StoreView,
    after: Set<ChunkCoordinate>,
) -> bool {
    &&& forall|i: int, j: int|
        0 <= i < j < flushed.len() ==> (#[trigger] flushed[i]).coord != (#[trigger] flushed[j]).coord
    &&& forall|i: int|
        0 <= i < flushed.len() ==> {
            let e = #[trigger] flushed[i];
            &&& before.contains_key(e.coord)
            &&& !after.contains(e.coord)
            &&& before[e.coord].dirty
            &&& e.chunk@ == before[e.coord]
            &&& e.chunk.wf()
        }
    &&& forall|c: ChunkCoordinate|
        before.contains_key(c) && !after.contains(c) && before[c].dirty ==> #[trigger] holds(
            flushed,
            c,
        )
}

/// One who keeps the world loaded around it: a chunk and a radius in chunks.
#[derive(Clone, Copy, Debug, PartialEq, Eq, Structural)]
pub struct Observer {
    pub chunk: ChunkCoordinate,
    pub radius: u32,
}

/// Whether `c` is within the radius of one of `observers`.
pub open spec fn observed(c: ChunkCoordinate, observers: Seq<Observer>) -> bool {
    exists|i: int|
        0 <= i < observers.len() && c.within(
            (#[trigger] observers[i]).chunk,
            observers[i].radius as int,
        )
}

/// The coordinates within the radius of one of `observers`.
pub open spec fn observed_set(observers: Seq<Observer>) -> Set<ChunkCoordinate> {
    Set::new(|c: ChunkCoordinate| observed(c, observers))
}

fn is_observed(c: &ChunkCoordinate, observers: &Vec<Observer>) -> (b: bool)
    ensures
        b == observed(*c, observers@),
{
    let mut i: usize = 0;
    while i < observers.len()
        invariant
            i <= observers@.len(),
            forall|j: int|
                0 <= j < i ==> !c.within((#[trigger] observers@[j]).chunk, observers@[j].radius as int),
        decreases observers@.len() - i,
    {
        if c.is_within(&observers[i].chunk, observers[i].radius) {
            return true;
        }
        i = i + 1;
    }
    false
}

/// The store while the first `done` coordinates of `coords` have been dealt
/// with: those of them that no observer keeps are gone.
spec fn partly_unloaded(
    before: StoreView,
    observers: Seq<Observer>,
    coords: Seq<ChunkCoordinate>,
    done: int,
) -> StoreView {
    Map::new(
        |c: ChunkCoordinate|
            before.contains_key(c) && (observed(c, observers) || !coords.take(done).contains(c)),
        |c: ChunkCoordinate| before[c],
    )
}

/// What the first `done + 1` coordinates hold: what the first `done` hold,
/// and the one after them.
pub(crate) proof fn lemma_take_contains(
    coords: Seq<ChunkCoordinate>,
    done: int,
    c: ChunkCoordinate,
)
    requires
        0 <= done < coords.len(),
    ensures
        coords.take(done + 1).contains(c) <==> (coords.take(done).contains(c) || coords[done] == c),
        coords.no_duplicates() ==> !coords.take(done).contains(coords[done]),
{
    let short = coords.take(done);
    let long = coords.take(done + 1);
    if long.contains(c) {
        let k = choose|k: int| 0 <= k < long.len() && long[k] == c;
        if k < done {
            assert(short[k] == c);
        }
    }
    if short.contains(c) {
        let k = choose|k: int| 0 <= k < short.len() && short[k] == c;
        assert(long[k] == c);
    }
    if coords[done] == c {
        assert(long[done] == c);
    }
    if coords.no_duplicates() && short.contains(coords[done]) {
        let k = choose|k: int| 0 <= k < short.len() && short[k] == coords[done];
        assert(coords[k] == coords[done]);
    }
}

/// Unloads every chunk that is within the radius of none of `observers`,
/// and reports each of them.
pub fn unload_unobserved(store: &mut VoxelStore, observers: &Vec<Observer>) -> (report:
    StreamReport)
    requires
        old(store).wf(),
    ensures
        final(store).wf(),
        final(store)@ == old(store)@.restrict(observed_set(observers@)),
        reports_transitions(report.events@, old(store)@.dom(), final(store)@.dom()),
        flushes_dirty(report.flushed@, old(store)@, final(store)@.dom()),
{
    let coords = store.loaded_coordinates();
    let mut events: Vec<RenderRequest> = Vec::new();
    let mut flushed: Vec<EvictedChunk> = Vec::new();
    let ghost before = store@;
    let ghost watch = observers@;
    assert(store@ =~= partly_unloaded(before, watch, coords@, 0));
    let mut i: usize = 0;
    while i < coords.len()
        invariant
            i <= coords@.len(),
            watch == observers@,
            store.wf(),
            coords@.no_duplicates(),
            coords@.to_set() == before.dom(),
            store@ == partly_unloaded(before, watch, coords@, i as int),
            forall|a: int, b: int|
                0 <= a < b < events@.len() ==> (#[trigger] events@[a]).chunk_coord != (
                #[trigger] events@[b]).chunk_coord,
            forall|k: int|
                0 <= k < events@.len() ==> {
                    let e = #[trigger] events@[k];
                    &&& e.reason == RenderReason::Unloaded
                    &&& before.contains_key(e.chunk_coord)
                    &&& !observed(e.chunk_coord, watch)
                    &&& coords@.take(i as int).contains(e.chunk_coord)
                },
            forall|c: ChunkCoordinate|
                coords@.take(i as int).contains(c) && !observed(c, watch) ==> #[trigger] names(
                    events@,
                    c,
                ),
            forall|a: int, b: int|
                0 <= a < b < flushed@.len() ==> (#[trigger] flushed@[a]).coord != (
                #[trigger] flushed@[b]).coord,
            forall|k: int|
                0 <= k < flushed@.len() ==> {
                    let e = #[trigger] flushed@[k];
                    &&& before.contains_key(e.coord)
                    &&& !observed(e.coord, watch)
                    &&& coords@.take(i as int).contains(e.coord)
                    &&& before[e.coord].dirty
                    &&& e.chunk@ == before[e.coord]
                    &&& e.chunk.wf()
                },
            forall|c: ChunkCoordinate|
                coords@.take(i as int).contains(c) && !observed(c, watch) && before[c].dirty
                    ==> #[trigger] holds(flushed@, c),
        decreases coords@.len() - i,
    {
        let coord = coords[i];
        let ghost events_before = events@;
        let ghost flushed_before = flushed@;
        let ghost store_before = store@;
        proof {
            assert(coords@.to_set().contains(coord));
            assert forall|c: ChunkCoordinate|
                coords@.take(i + 1).contains(c) <==> (coords@.take(i as int).contains(c)
                    || coord == c) by {
                lemma_take_contains(coords@, i as int, c);
            }
            lemma_take_contains(coords@, i as int, coord);
        }
        if !is_observed(&coord, observers) {
            let evicted = store.unload_chunk(coord);
            let chunk = evicted.unwrap();
            events.push(RenderRequest { chunk_coord: coord, reason: RenderReason::Unloaded });
            let was_dirty = chunk.is_dirty();
            if was_dirty {
                flushed.push(EvictedChunk { coord, chunk });
            }
            proof {
                assert(events@[events_before.len() as int].chunk_coord == coord);
                assert forall|c: ChunkCoordinate|
                    coords@.take(i + 1).contains(c) && !observed(c, watch) implies #[trigger] names(
                    events@,
                    c,
                ) by {
                    if c != coord {
                        assert(names(events_before, c));
                        let k = choose|k: int|
                            0 <= k < events_before.len() && (#[trigger] events_before[k]).chunk_coord
                                == c;
                        assert(events@[k].chunk_coord == c);
                    }
                }
                if was_dirty {
                    assert(flushed@[flushed_before.len() as int].coord == coord);
                }
                assert forall|c: ChunkCoordinate|
                    coords@.take(i + 1).contains(c) && !observed(c, watch)
                        && before[c].dirty implies #[trigger] holds(flushed@, c) by {
                    if c != coord {
                        assert(holds(flushed_before, c));
                        let k = choose|k: int|
                            0 <= k < flushed_before.len() && (#[trigger] flushed_before[k]).coord
                                == c;
                        assert(flushed@[k].coord == c);
                    }
                }
            }
        }
        i = i + 1;
        assert(store@ =~= partly_unloaded(before, watch, coords@, i as int));
    }
    proof {
        assert(coords@.take(i as int) =~= coords@);
        assert forall|c: ChunkCoordinate| before.contains_key(c) implies coords@.contains(c) by {
            assert(coords@.to_set().contains(c));
        }
        assert(store@ =~= before.restrict(observed_set(watch)));
    }
    StreamReport { events, flushed }
}

/// Unloads every chunk that lies further than `radius` chunks from
/// `observer`, and reports each of them.
pub fn unload_out_of_range(
    store: &mut VoxelStore,
    observer: ChunkCoordinate,
    radius: u32,
) -> (report: StreamReport)
    requires
        old(store).wf(),
    ensures
        final(store).wf(),
        final(store)@ == old(store)@.restrict(in_range_set(observer, radius as int)),
        reports_transitions(report.events@, old(store)@.dom(), final(store)@.dom()),
        flushes_dirty(report.flushed@, old(store)@, final(store)@.dom()),
{
    let mut observers: Vec<Observer> = Vec::new();
    observers.push(Observer { chunk: observer, radius });
    proof {
        assert forall|c: ChunkCoordinate|
            observed(c, observers@) <==> c.within(observer, radius as int) by {
            if c.within(observer, radius as int) {
                assert(c.within(observers@[0].chunk, observers@[0].radius as int));
            }
        }
        assert(observed_set(observers@) =~= in_range_set(observer, radius as int));
    }
    unload_unobserved(store, &observers)
}

/// The content that a chunk has when `source` made it and nothing was written.
pub open spec fn fresh_chunk<S: ChunkSource>(source: &S, coord: ChunkCoordinate) -> ChunkView {
    ChunkView { blocks: source.content(coord), dirty: false }
}

/// `before` with a fresh chunk from `source` wherever a coordinate within
/// `radius` of `observer` had none. Chunks of `before` are kept as they are.
pub open spec fn loaded_around<S: ChunkSource>(
    before: StoreView,
    source: &S,
    observer: ChunkCoordinate,
    radius: int,
) -> StoreView {
    Map::new(
        |c: ChunkCoordinate| before.contains_key(c) || c.within(observer, radius),
        |c: ChunkCoordinate|
            if before.contains_key(c) {
                before[c]
            } else {
                fresh_chunk(source, c)
            },
    )
}

/// Whether `c` comes before `(x, y, z)` in the order in which the cube around
/// the observer is walked.
spec fn visited(c: ChunkCoordinate, x: int, y: int, z: int) -> bool {
    c.x < x || (c.x == x && (c.y < y || (c.y == y && c.z < z)))
}

spec fn partly_loaded<S: ChunkSource>(
    before: StoreView,
    source: &S,
    observer: ChunkCoordinate,
    radius: int,
    x: int,
    y: int,
    z: int,
) -> StoreView {
    Map::new(
        |c: ChunkCoordinate|
            before.contains_key(c) || (c.within(observer, radius) && visited(c, x, y, z)),
        |c: ChunkCoordinate|
            if before.contains_key(c) {
                before[c]
            } else {
                fresh_chunk(source, c)
            },
    )
}

fn low_bound(center: i32, radius: u32) -> (lo: i64)
    ensures
        lo == if center - radius < i32::MIN {
            i32::MIN as int
        } else {
            center - radius
        },
{
    let lo: i64 = center as i64 - radius as i64;
    if lo < i32::MIN as i64 {
        i32::MIN as i64
    } else {
        lo
    }
}

fn high_bound(center: i32, radius: u32) -> (hi: i64)
    ensures
        hi == if center + radius > i32::MAX {
            i32::MAX as int
        } else {
            center + radius
        },
{
    let hi: i64 = center as i64 + radius as i64;
    if hi > i32::MAX as i64 {
        i32::MAX as i64
    } else {
        hi
    }
}

/// Loads a fresh chunk from `source` at every coordinate within `radius`
/// chunks of `observer` that has none, and reports each of them. Chunks that
/// are loaded already are neither replaced nor reported.
pub fn load_in_range<S: ChunkSource>(
    store: &mut VoxelStore,
    source: &S,
    observer: ChunkCoordinate,
    radius: u32,
) -> (events: Vec<RenderRequest>)
    requires
        old(store).wf(),
    ensures
        final(store).wf(),
        final(store)@ == loaded_around(old(store)@, source, observer, radius as int),
        reports_transitions(events@, old(store)@.dom(), final(store)@.dom()),
{
    let lo_x = low_bound(observer.x, radius);
    let hi_x = high_bound(observer.x, radius);
    let lo_y = low_bound(observer.y, radius);
    let hi_y = high_bound(observer.y, radius);
    let lo_z = low_bound(observer.z, radius);
    let hi_z = high_bound(observer.z, radius);
    let ghost before = store@;
    let ghost r = radius as int;
    let mut events: Vec<RenderRequest> = Vec::new();
    let mut x: i64 = lo_x;
    let mut y: i64 = lo_y;
    let mut z: i64 = lo_z;
    assert(store@ =~= partly_loaded(before, source, observer, r, x as int, y as int, z as int));
    while x <= hi_x
        invariant
            r == radius as int,
            forall|c: ChunkCoordinate|
                c.within(observer, r) <==> (lo_x <= c.x <= hi_x && lo_y <= c.y <= hi_y && lo_z
                    <= c.z <= hi_z),
            i32::MIN <= lo_x <= x <= hi_x + 1,
            hi_x <= i32::MAX,
            i32::MIN <= lo_y <= y <= hi_y <= i32::MAX,
            i32::MIN <= lo_z <= z <= hi_z <= i32::MAX,
            store.wf(),
            store@ == partly_loaded(before, source, observer, r, x as int, y as int, z as int),
            forall|a: int, b: int|
                0 <= a < b < events@.len() ==> (#[trigger] events@[a]).chunk_coord != (
                #[trigger] events@[b]).chunk_coord,
            forall|k: int|
                0 <= k < events@.len() ==> {
                    let e = #[trigger] events@[k];
                    &&& e.reason == RenderReason::Loaded
                    &&& !before.contains_key(e.chunk_coord)
                    &&& e.chunk_coord.within(observer, r)
                    &&& visited(e.chunk_coord, x as int, y as int, z as int)
                },
            forall|c: ChunkCoordinate|
                !before.contains_key(c) && c.within(observer, r) && visited(
                    c,
                    x as int,
                    y as int,
                    z as int,
                ) ==> #[trigger] names(events@, c),
        decreases hi_x - x + 1, hi_y - y, hi_z - z,
    {
        let coord = ChunkCoordinate { x: x as i32, y: y as i32, z: z as i32 };
        let ghost events_before = events@;
        let ghost (x0, y0, z0) = (x as int, y as int, z as int);
        let mut added = false;
        if !store.contains(coord) {
            let chunk = source.produce(coord);
            store.load_chunk(coord, chunk);
            events.push(RenderRequest { chunk_coord: coord, reason: RenderReason::Loaded });
            added = true;
        }
        if z < hi_z {
            z = z + 1;
        } else {
            z = lo_z;
            if y < hi_y {
                y = y + 1;
            } else {
                y = lo_y;
                x = x + 1;
            }
        }
        proof {
            assert forall|c: ChunkCoordinate| c.within(observer, r) implies (visited(
                c,
                x as int,
                y as int,
                z as int,
            ) <==> (visited(c, x0, y0, z0) || c == coord)) by {}
            if added {
                assert(events@[events_before.len() as int].chunk_coord == coord);
            }
            assert forall|c: ChunkCoordinate|
                !before.contains_key(c) && c.within(observer, r) && visited(
                    c,
                    x as int,
                    y as int,
                    z as int,
                ) implies #[trigger] names(events@, c) by {
                if c != coord {
                    assert(names(events_before, c));
                    let k = choose|k: int|
                        0 <= k < events_before.len() && (#[trigger] events_before[k]).chunk_coord
                            == c;
                    assert(events@[k].chunk_coord == c);
                }
            }
            assert(store@ =~= partly_loaded(
                before,
                source,
                observer,
                r,
                x as int,
                y as int,
                z as int,
            ));
        }
    }
    proof {
        assert(store@ =~= loaded_around(before, source, observer, r));
    }
    events
}

/// What the store holds after a streaming tick: a chunk at exactly the
/// coordinates within `radius` of `observer`, the one that `before` had there
/// or else a fresh one from `source`.
pub open spec fn streamed<S: ChunkSource>(
    before: StoreView,
    source: &S,
    observer: ChunkCoordinate,
    radius: int,
) -> StoreView {
    Map::new(
        |c: ChunkCoordinate| c.within(observer, radius),
        |c: ChunkCoordinate|
            if before.contains_key(c) {
                before[c]
            } else {
                fresh_chunk(source, c)
            },
    )
}

/// `before` with a fresh chunk from `source` wherever a coordinate within
/// the radius of one of `observers` had none.
pub open spec fn loaded_for<S: ChunkSource>(
    before: StoreView,
    source: &S,
    observers: Seq<Observer>,
) -> StoreView {
    Map::new(
        |c: ChunkCoordinate| before.contains_key(c) || observed(c, observers),
        |c: ChunkCoordinate|
            if before.contains_key(c) {
                before[c]
            } else {
                fresh_chunk(source, c)
            },
    )
}

/// What the store holds after a streaming tick for several observers: a
/// chunk at exactly the coordinates within the radius of one of them, the
/// one that `before` had there or else a fresh one from `source`.
pub open spec fn streamed_for<S: ChunkSource>(
    before: StoreView,
    source: &S,
    observers: Seq<Observer>,
) -> StoreView {
    Map::new(
        |c: ChunkCoordinate| observed(c, observers),
        |c: ChunkCoordinate|
            if before.contains_key(c) {
                before[c]
            } else {
                fresh_chunk(source, c)
            },
    )
}

/// Requests that report the change from `a` to `b`, followed by requests
/// that report the change from `b` to `c`, report the change from `a` to
/// `c`, where nothing that the first change touches is touched again.
pub proof fn lemma_reports_compose(
    first: Seq<RenderRequest>,
    second: Seq<RenderRequest>,
    a: Set<ChunkCoordinate>,
    b: Set<ChunkCoordinate>,
    c: Set<ChunkCoordinate>,
)
    requires
        reports_transitions(first, a, b),
        reports_transitions(second, b, c),
        forall|x: ChunkCoordinate| a.contains(x) != b.contains(x) ==> b.contains(x) == c.contains(x),
    ensures
        reports_transitions(first + second, a, c),
{
    let events = first + second;
    assert forall|i: int| 0 <= i < events.len() implies match (#[trigger] events[i]).reason {
        RenderReason::Loaded => !a.contains(events[i].chunk_coord) && c.contains(
            events[i].chunk_coord,
        ),
        RenderReason::Unloaded => a.contains(events[i].chunk_coord) && !c.contains(
            events[i].chunk_coord,
        ),
        RenderReason::Mutated => false,
    } by {
        if i < first.len() {
            assert(events[i] == first[i]);
        } else {
            assert(events[i] == second[i - first.len()]);
        }
    }
    assert forall|i: int, j: int| 0 <= i < j < events.len() implies (#[trigger] events[i]).chunk_coord
        != (#[trigger] events[j]).chunk_coord by {
        if i < first.len() {
            assert(events[i] == first[i]);
        } else {
            assert(events[i] == second[i - first.len()]);
        }
        if j < first.len() {
            assert(events[j] == first[j]);
        } else {
            assert(events[j] == second[j - first.len()]);
        }
    }
    assert forall|x: ChunkCoordinate| a.contains(x) != c.contains(x) implies #[trigger] names(
        events,
        x,
    ) by {
        if a.contains(x) != b.contains(x) {
            assert(names(first, x));
            let k = choose|k: int| 0 <= k < first.len() && (#[trigger] first[k]).chunk_coord == x;
            assert(events[k].chunk_coord == x);
        } else {
            assert(names(second, x));
            let k = choose|k: int| 0 <= k < second.len() && (#[trigger] second[k]).chunk_coord == x;
            assert(events[k + first.len()].chunk_coord == x);
        }
    }
}

/// One tick of the streaming manager for several observers, as on a server.
///
/// Afterwards the store holds a chunk at every coordinate within the radius
/// of one of the observers and at no other. Chunks that stay keep their
/// content; chunks that enter come from `source`; chunks that leave are
/// handed back if they have unsaved writes. One render request is issued per
/// chunk that entered or left.
pub fn stream_tick_for<S: ChunkSource>(
    store: &mut VoxelStore,
    source: &S,
    observers: &Vec<Observer>,
) -> (report: StreamReport)
    requires
        old(store).wf(),
    ensures
        final(store).wf(),
        final(store)@ == streamed_for(old(store)@, source, observers@),
        final(store)@.dom() == observed_set(observers@),
        reports_transitions(report.events@, old(store)@.dom(), final(store)@.dom()),
        flushes_dirty(report.flushed@, old(store)@, final(store)@.dom()),
{
    let ghost before = store@;
    let mut report = unload_unobserved(store, observers);
    let ghost kept = store@;
    let ghost unloads = report.events@;
    let mut loads: Vec<RenderRequest> = Vec::new();
    let mut i: usize = 0;
    assert(store@ =~= loaded_for(kept, source, observers@.take(0)));
    assert(reports_transitions(loads@, kept.dom(), store@.dom()));
    while i < observers.len()
        invariant
            i <= observers@.len(),
            store.wf(),
            store@ == loaded_for(kept, source, observers@.take(i as int)),
            reports_transitions(loads@, kept.dom(), store@.dom()),
        decreases observers@.len() - i,
    {
        let ghost mid = store@;
        let ghost loads_before = loads@;
        let mut more = load_in_range(store, source, observers[i].chunk, observers[i].radius);
        let ghost added = more@;
        loads.append(&mut more);
        proof {
            let o = observers@[i as int];
            let seen = observers@.take(i as int);
            let seen_next = observers@.take(i + 1);
            assert forall|c: ChunkCoordinate|
                observed(c, seen_next) <==> (observed(c, seen) || c.within(
                    o.chunk,
                    o.radius as int,
                )) by {
                if observed(c, seen_next) {
                    let k = choose|k: int|
                        0 <= k < seen_next.len() && c.within(
                            (#[trigger] seen_next[k]).chunk,
                            seen_next[k].radius as int,
                        );
                    if k < i {
                        assert(c.within(seen[k].chunk, seen[k].radius as int));
                    }
                }
                if observed(c, seen) {
                    let k = choose|k: int|
                        0 <= k < seen.len() && c.within(
                            (#[trigger] seen[k]).chunk,
                            seen[k].radius as int,
                        );
                    assert(c.within(seen_next[k].chunk, seen_next[k].radius as int));
                }
                if c.within(o.chunk, o.radius as int) {
                    assert(c.within(seen_next[i as int].chunk, seen_next[i as int].radius as int));
                }
            }
            assert(store@ =~= loaded_for(kept, source, seen_next));
            assert(loads@ =~= loads_before + added);
            lemma_reports_compose(loads_before, added, kept.dom(), mid.dom(), store@.dom());
        }
        i = i + 1;
    }
    let ghost loaded = loads@;
    report.events.append(&mut loads);
    proof {
        assert(observers@.take(i as int) =~= observers@);
        assert(store@ =~= streamed_for(before, source, observers@));
        assert(store@.dom() =~= observed_set(observers@));
        assert(report.events@ =~= unloads + loaded);
        lemma_reports_compose(unloads, loaded, before.dom(), kept.dom(), store@.dom());
    }
    report
}

/// One tick of the streaming manager for an observer in chunk `observer`.
///
/// Afterwards the store holds a chunk at every coordinate within the render
/// distance of the observer and at no other. Chunks that stay keep their
/// content; chunks that enter come from `source`; chunks that leave are
/// handed back if they have unsaved writes. One render request is issued per
/// chunk that entered or left.
pub fn stream_tick<S: ChunkSource>(
    store: &mut VoxelStore,
    source: &S,
    observer: ChunkCoordinate,
    render_distance: &RenderDistance,
) -> (report: StreamReport)
    requires
        old(store).wf(),
    ensures
        final(store).wf(),
        final(store)@ == streamed(old(store)@, source, observer, render_distance.radius()),
        final(store)@.dom() == in_range_set(observer, render_distance.radius()),
        reports_transitions(report.events@, old(store)@.dom(), final(store)@.dom()),
        flushes_dirty(report.flushed@, old(store)@, final(store)@.dom()),
{
    let radius = render_distance.effective_radius();
    let mut observers: Vec<Observer> = Vec::new();
    observers.push(Observer { chunk: observer, radius });
    let report = stream_tick_for(store, source, &observers);
    proof {
        assert forall|c: ChunkCoordinate|
            observed(c, observers@) <==> c.within(observer, radius as int) by {
            if c.within(observer, radius as int) {
                assert(c.within(observers@[0].chunk, observers@[0].radius as int));
            }
        }
        assert(observed_set(observers@) =~= in_range_set(observer, radius as int));
        assert(store@ =~= streamed(old(store)@, source, observer, radius as int));
    }
    report
}

/// A streaming tick with a wider radius around the same observer keeps every
/// chunk that the narrower radius had loaded, with its content, and adds
/// chunks only outside the narrower radius.
pub proof fn lemma_wider_radius_keeps_loaded<S: ChunkSource>(
    before: StoreView,
    source: &S,
    observer: ChunkCoordinate,
    narrow: int,
    wide: int,
)
    requires
        narrow <= wide,
    ensures
        ({
            let first = streamed(before, source, observer, narrow);
            let second = streamed(first, source, observer, wide);
            &&& forall|c: ChunkCoordinate| #[trigger]
                first.contains_key(c) ==> second.contains_key(c) && second[c] == first[c]
            &&& forall|c: ChunkCoordinate|
                second.contains_key(c) && !#[trigger] first.contains_key(c) ==> !c.within(
                    observer,
                    narrow,
                ) && c.within(observer, wide)
        }),
{
}

/// A streaming tick that finds the store as a tick for the same observer and
/// radius left it changes nothing.
pub proof fn lemma_streaming_settles<S: ChunkSource>(
    before: StoreView,
    source: &S,
    observer: ChunkCoordinate,
    radius: int,
)
    ensures
        streamed(streamed(before, source, observer, radius), source, observer, radius) == streamed(
            before,
            source,
            observer,
            radius,
        ),
{
    let first = streamed(before, source, observer, radius);
    assert(streamed(first, source, observer, radius) =~= first);
}

} // verus!
