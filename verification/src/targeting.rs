//! The targeting resolver: which block a ray from the eye hits first, and
//! the block mutations that breaking and placing make of it.

use vstd::prelude::*;
use crate::block::BlockId;
use crate::controller::near;
use crate::coords::{world_to_chunk_and_local, BlockPosition};
use crate::math::abs;
use crate::player::{Position, POSITION_LIMIT};
use crate::store::{block_at, solid_at, with_block, ChunkNotLoaded, StoreView, VoxelStore};
use crate::streaming::{RenderReason, RenderRequest};

verus! {

/// How far a ray reaches along each axis at most, in units.
pub const MAX_REACH: i64 = 5000;

/// A ray: the segment from `origin` to `origin` displaced by `(dx, dy, dz)`.
#[derive(Clone, Copy, Debug, PartialEq, Eq, Structural)]
pub struct Ray {
    pub origin: Position,
    pub dx: i64,
    pub dy: i64,
    pub dz: i64,
}

impl Ray {
    /// The origin is within the position limits and the ray is no longer
    /// than `MAX_REACH` along any axis.
    pub open spec fn wf(self) -> bool {
        &&& self.origin.in_limits()
        &&& abs(self.dx as int) <= MAX_REACH
        &&& abs(self.dy as int) <= MAX_REACH
        &&& abs(self.dz as int) <= MAX_REACH
    }

    /// The ray from `origin` by `(dx, dy, dz)`, or `None` where that is
    /// longer than `MAX_REACH` along an axis or `origin` is out of limits.
    pub fn new(origin: Position, dx: i64, dy: i64, dz: i64) -> (r: Option<Ray>)
        ensures
            r == if (Ray { origin, dx, dy, dz }).wf() {
                Some(Ray { origin, dx, dy, dz })
            } else {
                None
            },
    {
        if -POSITION_LIMIT <= origin.x && origin.x <= POSITION_LIMIT && -POSITION_LIMIT <= origin.y
            && origin.y <= POSITION_LIMIT && -POSITION_LIMIT <= origin.z && origin.z
            <= POSITION_LIMIT && -MAX_REACH <= dx && dx <= MAX_REACH && -MAX_REACH <= dy && dy
            <= MAX_REACH && -MAX_REACH <= dz && dz <= MAX_REACH {
            Some(Ray { origin, dx, dy, dz })
        } else {
            None
        }
    }
}

/// How far, along one axis, a ray that starts at `o` and advances by `d` is
/// from leaving the block with coordinate `c`: the distance from `o` to the
/// face of the block that lies in the direction of `d`.
pub open spec fn crossing(o: int, d: int, c: int) -> int {
    if d > 0 {
        c * 1000 + 500 - o
    } else {
        o - (c * 1000 - 500)
    }
}

/// Whether the ray leaves the block with coordinate `c` along this axis
/// before it ends.
pub open spec fn crosses(o: int, d: int, c: int) -> bool {
    d != 0 && crossing(o, d, c) <= abs(d)
}

/// Whether a face at distance `n1` on an axis of advance `d1` is reached no
/// later than a face at distance `n2` on an axis of advance `d2`.
pub open spec fn no_later(n1: int, d1: int, n2: int, d2: int) -> bool {
    n1 * abs(d2) <= n2 * abs(d1)
}

/// Whether the ray leaves `cell` through a face across the x axis: it
/// reaches that face before it ends and no later than the faces across the
/// other axes.
pub open spec fn leaves_by_x(ray: Ray, cell: BlockPosition) -> bool {
    let nx = crossing(ray.origin.x as int, ray.dx as int, cell.x as int);
    let ny = crossing(ray.origin.y as int, ray.dy as int, cell.y as int);
    let nz = crossing(ray.origin.z as int, ray.dz as int, cell.z as int);
    &&& crosses(ray.origin.x as int, ray.dx as int, cell.x as int)
    &&& crosses(ray.origin.y as int, ray.dy as int, cell.y as int) ==> no_later(
        nx,
        ray.dx as int,
        ny,
        ray.dy as int,
    )
    &&& crosses(ray.origin.z as int, ray.dz as int, cell.z as int) ==> no_later(
        nx,
        ray.dx as int,
        nz,
        ray.dz as int,
    )
}

/// Whether the ray leaves `cell` through a face across the y axis.
pub open spec fn leaves_by_y(ray: Ray, cell: BlockPosition) -> bool {
    let ny = crossing(ray.origin.y as int, ray.dy as int, cell.y as int);
    let nz = crossing(ray.origin.z as int, ray.dz as int, cell.z as int);
    &&& !leaves_by_x(ray, cell)
    &&& crosses(ray.origin.y as int, ray.dy as int, cell.y as int)
    &&& crosses(ray.origin.z as int, ray.dz as int, cell.z as int) ==> no_later(
        ny,
        ray.dy as int,
        nz,
        ray.dz as int,
    )
}

/// Whether the ray leaves `cell` through a face across the z axis.
pub open spec fn leaves_by_z(ray: Ray, cell: BlockPosition) -> bool {
    &&& !leaves_by_x(ray, cell)
    &&& !leaves_by_y(ray, cell)
    &&& crosses(ray.origin.z as int, ray.dz as int, cell.z as int)
}

/// One step along an axis in the direction of `d`.
pub open spec fn toward(c: i64, d: i64) -> i64 {
    if d > 0 {
        (c + 1) as i64
    } else {
        (c - 1) as i64
    }
}

/// The block that the ray enters when it leaves `cell`, or `None` where the
/// ray ends inside `cell`.
pub open spec fn ray_next(ray: Ray, cell: BlockPosition) -> Option<BlockPosition> {
    if leaves_by_x(ray, cell) {
        Some(BlockPosition { x: toward(cell.x, ray.dx), y: cell.y, z: cell.z })
    } else if leaves_by_y(ray, cell) {
        Some(BlockPosition { x: cell.x, y: toward(cell.y, ray.dy), z: cell.z })
    } else if leaves_by_z(ray, cell) {
        Some(BlockPosition { x: cell.x, y: cell.y, z: toward(cell.z, ray.dz) })
    } else {
        None
    }
}

/// How much of the ray is left along one axis once it is in the block with
/// coordinate `c`; 0 where it does not leave that block along this axis.
pub open spec fn axis_left(o: int, d: int, c: int) -> nat {
    if crosses(o, d, c) {
        (abs(d) - crossing(o, d, c) + 1) as nat
    } else {
        0
    }
}

/// How much of the ray is left once it is in `cell`. Each step to the next
/// block makes it smaller.
pub open spec fn ray_left(ray: Ray, cell: BlockPosition) -> nat {
    axis_left(ray.origin.x as int, ray.dx as int, cell.x as int) + axis_left(
        ray.origin.y as int,
        ray.dy as int,
        cell.y as int,
    ) + axis_left(ray.origin.z as int, ray.dz as int, cell.z as int)
}

/// A block that a ray hit, and the block from which the ray entered it.
#[derive(Clone, Copy, Debug, PartialEq, Eq, Structural)]
pub struct RayHit {
    /// The first solid block on the ray.
    pub block: BlockPosition,
    /// The block that the ray was in just before, or `None` where the ray
    /// starts inside `block`.
    pub previous: Option<BlockPosition>,
}

/// Whether two blocks differ by one step along exactly one axis.
pub open spec fn shares_face(a: BlockPosition, b: BlockPosition) -> bool {
    abs(a.x - b.x) + abs(a.y - b.y) + abs(a.z - b.z) == 1
}

/// Whether `cell` is no further from the origin of `ray` than the ray can
/// take it.
pub open spec fn close_to_origin(ray: Ray, cell: BlockPosition) -> bool {
    &&& abs(cell.x * 1000 - ray.origin.x) <= 2 * MAX_REACH
    &&& abs(cell.y * 1000 - ray.origin.y) <= 2 * MAX_REACH
    &&& abs(cell.z * 1000 - ray.origin.z) <= 2 * MAX_REACH
}

/// A step along the ray shortens what is left of the ray.
pub proof fn lemma_ray_shortens(ray: Ray, cell: BlockPosition)
    requires
        ray_next(ray, cell) is Some,
    ensures
        ray_left(ray, ray_next(ray, cell).unwrap()) < ray_left(ray, cell),
{
}

/// A step along the ray leads to a block that shares a face with the one
/// that the ray leaves, and that is still close to the origin.
pub proof fn lemma_ray_step(ray: Ray, cell: BlockPosition)
    requires
        ray.wf(),
        close_to_origin(ray, cell),
        ray_next(ray, cell) is Some,
    ensures
        close_to_origin(ray, ray_next(ray, cell).unwrap()),
        shares_face(cell, ray_next(ray, cell).unwrap()),
{
}

/// The first solid block that the ray meets from `cell` on, where the ray
/// came into `cell` from `previous`; `None` where the ray ends before it
/// meets one.
pub open spec fn scan(
    m: StoreView,
    ray: Ray,
    cell: BlockPosition,
    previous: Option<BlockPosition>,
) -> Option<RayHit>
    decreases ray_left(ray, cell),
{
    if solid_at(m, cell) {
        Some(RayHit { block: cell, previous })
    } else if ray_next(ray, cell) is Some {
        proof {
            lemma_ray_shortens(ray, cell);
        }
        scan(m, ray, ray_next(ray, cell).unwrap(), Some(cell))
    } else {
        None
    }
}

/// The first solid block on the ray, with the block before it.
pub open spec fn target(m: StoreView, ray: Ray) -> Option<RayHit> {
    scan(m, ray, ray.origin.block(), None)
}

fn axis_crossing(o: i64, d: i64, c: i64) -> (n: i64)
    requires
        abs(o as int) <= POSITION_LIMIT,
        abs(c * 1000 - o) <= 2 * MAX_REACH,
    ensures
        n == crossing(o as int, d as int, c as int),
        abs(n as int) <= 2 * MAX_REACH + 500,
{
    if d > 0 {
        c * 1000 + 500 - o
    } else {
        o - (c * 1000 - 500)
    }
}

fn magnitude(d: i64) -> (a: i64)
    requires
        abs(d as int) <= MAX_REACH,
    ensures
        a == abs(d as int),
{
    if d < 0 {
        -d
    } else {
        d
    }
}

fn reached_no_later(n1: i64, d1: i64, n2: i64, d2: i64) -> (b: bool)
    requires
        abs(n1 as int) <= 2 * MAX_REACH + 500,
        abs(n2 as int) <= 2 * MAX_REACH + 500,
        abs(d1 as int) <= MAX_REACH,
        abs(d2 as int) <= MAX_REACH,
    ensures
        b == no_later(n1 as int, d1 as int, n2 as int, d2 as int),
{
    let a1 = magnitude(d1);
    let a2 = magnitude(d2);
    assert(abs(n1 * a2) <= 10500 * 5000 && abs(n2 * a1) <= 10500 * 5000) by (nonlinear_arith)
        requires
            -10500 <= n1 <= 10500,
            -10500 <= n2 <= 10500,
            0 <= a1 <= 5000,
            0 <= a2 <= 5000,
    ;
    n1 * a2 <= n2 * a1
}

fn step_toward(c: i64, d: i64) -> (r: i64)
    requires
        abs(c * 1000) <= POSITION_LIMIT + 2 * MAX_REACH,
    ensures
        r == toward(c, d),
{
    if d > 0 {
        c + 1
    } else {
        c - 1
    }
}

fn next_cell(ray: &Ray, cell: BlockPosition) -> (next: Option<BlockPosition>)
    requires
        ray.wf(),
        close_to_origin(*ray, cell),
    ensures
        next == ray_next(*ray, cell),
{
    let nx = axis_crossing(ray.origin.x, ray.dx, cell.x);
    let ny = axis_crossing(ray.origin.y, ray.dy, cell.y);
    let nz = axis_crossing(ray.origin.z, ray.dz, cell.z);
    let cx = ray.dx != 0 && nx <= magnitude(ray.dx);
    let cy = ray.dy != 0 && ny <= magnitude(ray.dy);
    let cz = ray.dz != 0 && nz <= magnitude(ray.dz);
    let by_x = cx && (!cy || reached_no_later(nx, ray.dx, ny, ray.dy)) && (!cz || reached_no_later(
        nx,
        ray.dx,
        nz,
        ray.dz,
    ));
    if by_x {
        return Some(BlockPosition { x: step_toward(cell.x, ray.dx), y: cell.y, z: cell.z });
    }
    let by_y = cy && (!cz || reached_no_later(ny, ray.dy, nz, ray.dz));
    if by_y {
        return Some(BlockPosition { x: cell.x, y: step_toward(cell.y, ray.dy), z: cell.z });
    }
    if cz {
        return Some(BlockPosition { x: cell.x, y: cell.y, z: step_toward(cell.z, ray.dz) });
    }
    None
}

/// Walks along `ray` and gives the first solid block on it, with the block
/// from which the ray enters it, or `None` where the ray ends before it
/// meets a solid block.
pub fn cast_ray(blocks: &VoxelStore, ray: &Ray) -> (hit: Option<RayHit>)
    requires
        blocks.wf(),
        ray.wf(),
    ensures
        hit == target(blocks@, *ray),
{
    let mut cell = ray.origin.containing_block();
    let mut previous: Option<BlockPosition> = None;
    loop
        invariant
            blocks.wf(),
            ray.wf(),
            close_to_origin(*ray, cell),
            scan(blocks@, *ray, cell, previous) == target(blocks@, *ray),
        decreases ray_left(*ray, cell),
    {
        let solid = match blocks.get_block(cell) {
            Some(b) => b.is_solid(),
            None => false,
        };
        if solid {
            return Some(RayHit { block: cell, previous });
        }
        match next_cell(ray, cell) {
            None => {
                return None;
            },
            Some(next) => {
                proof {
                    lemma_ray_shortens(*ray, cell);
                    lemma_ray_step(*ray, cell);
                }
                previous = Some(cell);
                cell = next;
            },
        }
    }
}

/// What `scan` finds is solid; the block before it, where there is one, is
/// not solid and shares a face with it.
pub proof fn lemma_scan_hit(
    m: StoreView,
    ray: Ray,
    cell: BlockPosition,
    previous: Option<BlockPosition>,
)
    requires
        ray.wf(),
        close_to_origin(ray, cell),
        previous matches Some(p) ==> !solid_at(m, p) && shares_face(p, cell),
    ensures
        scan(m, ray, cell, previous) matches Some(hit) ==> {
            &&& solid_at(m, hit.block)
            &&& close_to_origin(ray, hit.block)
            &&& hit.previous matches Some(p) ==> !solid_at(m, p) && shares_face(p, hit.block)
        },
    decreases ray_left(ray, cell),
{
    if !solid_at(m, cell) && ray_next(ray, cell) is Some {
        lemma_ray_shortens(ray, cell);
        lemma_ray_step(ray, cell);
        lemma_scan_hit(m, ray, ray_next(ray, cell).unwrap(), Some(cell));
    }
}

/// The block that a ray targets is solid, and the block from which the ray
/// enters it is an empty block on the other side of one of its faces.
pub proof fn lemma_target_hit(m: StoreView, ray: Ray)
    requires
        ray.wf(),
    ensures
        target(m, ray) matches Some(hit) ==> {
            &&& solid_at(m, hit.block)
            &&& hit.previous matches Some(p) ==> !solid_at(m, p) && shares_face(p, hit.block)
        },
{
    lemma_scan_hit(m, ray, ray.origin.block(), None);
}

/// What the acting player asks of the targeted block.
#[derive(Clone, Copy, Debug, PartialEq, Eq, Structural)]
pub enum Interaction {
    /// Remove the targeted block.
    Break,
    /// Put a block against the face of the targeted block that the ray enters.
    Place(BlockId),
}

/// One block that changed, or is to change.
#[derive(Clone, Copy, Debug, PartialEq, Eq, Structural)]
pub struct BlockChange {
    pub position: BlockPosition,
    pub block: BlockId,
}

impl BlockChange {
    /// The request to rebuild the chunk that holds the changed block; `None`
    /// where the block belongs to no chunk.
    pub fn render_request(&self) -> (r: Option<RenderRequest>)
        ensures
            r == if self.position.in_world() {
                Some(
                    RenderRequest {
                        chunk_coord: self.position.chunk(),
                        reason: RenderReason::Mutated,
                    },
                )
            } else {
                None
            },
    {
        match world_to_chunk_and_local(self.position) {
            Some((coord, _)) => Some(
                RenderRequest { chunk_coord: coord, reason: RenderReason::Mutated },
            ),
            None => None,
        }
    }
}

/// How an interaction ended.
#[derive(Clone, Copy, Debug, PartialEq, Eq, Structural)]
pub enum InteractionOutcome {
    /// The store holds the change; it is to be passed on to the peers.
    Changed(BlockChange),
    /// The ray met no solid block.
    NoTarget,
    /// There is no room for the block: the ray starts inside the targeted
    /// block, or the block would overlap the acting player.
    Obstructed,
    /// The block would lie in a chunk that is not loaded.
    NotLoaded,
}

/// The change that `action` asks for along `ray`, for a player at `actor`:
/// breaking turns the targeted block into air, placing puts the block where
/// the ray was before it entered the targeted block, unless that is within
/// the collision margin of the player.
pub open spec fn wanted_change(
    m: StoreView,
    ray: Ray,
    actor: Position,
    action: Interaction,
) -> Option<BlockChange> {
    match target(m, ray) {
        None => None,
        Some(hit) => match action {
            Interaction::Break => Some(BlockChange { position: hit.block, block: BlockId::Air }),
            Interaction::Place(block) => match hit.previous {
                None => None,
                Some(p) => if near(p, actor.x as int, actor.y as int, actor.z as int) {
                    None
                } else {
                    Some(BlockChange { position: p, block })
                },
            },
        },
    }
}

/// How `action` along `ray` ends on a store with content `m`.
pub open spec fn interaction_outcome(
    m: StoreView,
    ray: Ray,
    actor: Position,
    action: Interaction,
) -> InteractionOutcome {
    if target(m, ray) is None {
        InteractionOutcome::NoTarget
    } else {
        match wanted_change(m, ray, actor, action) {
            None => InteractionOutcome::Obstructed,
            Some(change) => if block_at(m, change.position) is Some {
                InteractionOutcome::Changed(change)
            } else {
                InteractionOutcome::NotLoaded
            },
        }
    }
}

fn is_near(b: BlockPosition, p: Position) -> (r: bool)
    requires
        p.in_limits(),
        abs(b.x * 1000) <= 2 * POSITION_LIMIT,
        abs(b.y * 1000) <= 2 * POSITION_LIMIT,
        abs(b.z * 1000) <= 2 * POSITION_LIMIT,
    ensures
        r == near(b, p.x as int, p.y as int, p.z as int),
{
    let dx: i64 = b.x * 1000 - p.x;
    let dy: i64 = b.y * 1000 - p.y;
    let dz: i64 = b.z * 1000 - p.z;
    -750 < dx && dx < 750 && -750 < dy && dy < 750 && -750 < dz && dz < 750
}

/// Writes `change` to the store and gives the render request for the chunk
/// that holds it. Fails, changing nothing, where that chunk is not loaded.
pub fn apply_block_change(store: &mut VoxelStore, change: BlockChange) -> (r: Result<
    RenderRequest,
    ChunkNotLoaded,
>)
    requires
        old(store).wf(),
    ensures
        final(store).wf(),
        r is Ok <==> block_at(old(store)@, change.position) is Some,
        r matches Ok(request) ==> {
            &&& final(store)@ == with_block(old(store)@, change.position, change.block)
            &&& request == (RenderRequest {
                chunk_coord: change.position.chunk(),
                reason: RenderReason::Mutated,
            })
        },
        r is Err ==> final(store)@ == old(store)@,
{
    match store.set_block(change.position, change.block) {
        Err(e) => Err(e),
        Ok(()) => {
            let (coord, _) = world_to_chunk_and_local(change.position).unwrap();
            Ok(RenderRequest { chunk_coord: coord, reason: RenderReason::Mutated })
        },
    }
}

/// Resolves one break or place action of a player at `actor` who looks
/// along `ray`, and writes the resulting change to the store.
pub fn interact(
    store: &mut VoxelStore,
    ray: &Ray,
    actor: Position,
    action: Interaction,
) -> (outcome: InteractionOutcome)
    requires
        old(store).wf(),
        ray.wf(),
        actor.in_limits(),
    ensures
        final(store).wf(),
        outcome == interaction_outcome(old(store)@, *ray, actor, action),
        final(store)@ == match outcome {
            InteractionOutcome::Changed(change) => with_block(
                old(store)@,
                change.position,
                change.block,
            ),
            _ => old(store)@,
        },
{
    let hit = match cast_ray(store, ray) {
        None => {
            return InteractionOutcome::NoTarget;
        },
        Some(hit) => hit,
    };
    proof {
        lemma_scan_hit(store@, *ray, ray.origin.block(), None);
    }
    let change = match action {
        Interaction::Break => BlockChange { position: hit.block, block: BlockId::Air },
        Interaction::Place(block) => match hit.previous {
            None => {
                return InteractionOutcome::Obstructed;
            },
            Some(p) => {
                if is_near(p, actor) {
                    return InteractionOutcome::Obstructed;
                }
                BlockChange { position: p, block }
            },
        },
    };
    match store.set_block(change.position, change.block) {
        Ok(()) => InteractionOutcome::Changed(change),
        Err(_) => InteractionOutcome::NotLoaded,
    }
}

} // verus!
