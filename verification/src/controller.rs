//! The collision and movement resolver: one tick of a player's physics
//! against the voxel store.

use bevy_input::ButtonInput;
use vstd::prelude::*;
use crate::coords::BlockPosition;
use crate::keyboard::{
    action_active, held_keys, is_action_just_pressed, is_action_pressed, pressed_now, GameAction,
    KeyCode, KeyMap,
};
use crate::math::{abs, div_toward_zero, floor_div, int_sqrt, isqrt, toward_zero};
use crate::player::{spawn_position, Heading, Player, Position, POSITION_LIMIT, VELOCITY_LIMIT};
use crate::store::{solid_at, StoreView, VoxelStore};

verus! {

/// Horizontal speed of a walking player, in units per second.
pub const SPEED: i64 = 5000;

/// Vertical acceleration of a player in the air, in units per second squared.
pub const GRAVITY: i64 = -39200;

/// Vertical velocity that a jump gives, in units per second.
pub const JUMP_VELOCITY: i64 = 10000;

/// A block stops a point that comes closer than this to its centre on every axis.
pub const COLLISION_MARGIN: i64 = 750;

/// A player whose feet are below this height has fallen out of the world.
pub const WORLD_FLOOR: i64 = -10000;

/// Height of a player's centre above the centre of the block it stands on.
pub const STANDING_HEIGHT: i64 = 1000;

/// Microseconds per second: tick lengths are given in microseconds.
pub const MICROS_PER_SECOND: i64 = 1_000_000;

/// Whether the centre of a block with coordinate `b` on some axis is within
/// the collision margin of the coordinate `v` of a point.
pub open spec fn axis_near(b: int, v: int) -> bool {
    abs(b * 1000 - v) < COLLISION_MARGIN
}

/// Whether the centre of block `b` is within the collision margin of the
/// point `(x, y, z)` on every axis.
pub open spec fn near(b: BlockPosition, x: int, y: int, z: int) -> bool {
    axis_near(b.x as int, x) && axis_near(b.y as int, y) && axis_near(b.z as int, z)
}

/// Whether a solid block is within the collision margin of the point `(x, y, z)`.
pub open spec fn blocked(m: StoreView, x: int, y: int, z: int) -> bool {
    exists|b: BlockPosition| near(b, x, y, z) && #[trigger] solid_at(m, b)
}

/// Whether `top` is the height of the highest solid block within the
/// collision margin of the point `(x, y, z)`.
pub open spec fn is_support_top(m: StoreView, x: int, y: int, z: int, top: int) -> bool {
    &&& exists|b: BlockPosition| near(b, x, y, z) && #[trigger] solid_at(m, b) && b.y == top
    &&& forall|b: BlockPosition| near(b, x, y, z) && #[trigger] solid_at(m, b) ==> b.y <= top
}

/// The height of the highest solid block within the collision margin of the
/// point `(x, y, z)`, or `None` where there is no such block.
pub open spec fn support_top(m: StoreView, x: int, y: int, z: int) -> Option<int> {
    if blocked(m, x, y, z) {
        Some(choose|top: int| is_support_top(m, x, y, z, top))
    } else {
        None
    }
}

/// The lowest and the highest block coordinate whose centre is within the
/// collision margin of `v`; they differ by one at most.
fn axis_candidates(v: i64) -> (r: (i64, i64))
    ensures
        r.0 <= r.1 <= r.0 + 1,
        forall|b: int| #[trigger] axis_near(b, v as int) <==> (b == r.0 || b == r.1),
{
    let lo = floor_div(v as i128 + 250, 1000);
    let hi = floor_div(v as i128 + 749, 1000);
    (lo as i64, hi as i64)
}

fn is_solid_block(blocks: &VoxelStore, x: i64, y: i64, z: i64) -> (s: bool)
    requires
        blocks.wf(),
    ensures
        s == solid_at(blocks@, BlockPosition { x, y, z }),
{
    match blocks.get_block(BlockPosition { x, y, z }) {
        Some(b) => b.is_solid(),
        None => false,
    }
}

fn solid_in_layer(blocks: &VoxelStore, xs: (i64, i64), y: i64, zs: (i64, i64)) -> (s: bool)
    requires
        blocks.wf(),
    ensures
        s == (solid_at(blocks@, BlockPosition { x: xs.0, y, z: zs.0 }) || solid_at(
            blocks@,
            BlockPosition { x: xs.1, y, z: zs.0 },
        ) || solid_at(blocks@, BlockPosition { x: xs.0, y, z: zs.1 }) || solid_at(
            blocks@,
            BlockPosition { x: xs.1, y, z: zs.1 },
        )),
{
    is_solid_block(blocks, xs.0, y, zs.0) || is_solid_block(blocks, xs.1, y, zs.0)
        || is_solid_block(blocks, xs.0, y, zs.1) || is_solid_block(blocks, xs.1, y, zs.1)
}

/// The height of the highest solid block within the collision margin of the
/// point, if there is one.
pub fn find_support(x: i64, y: i64, z: i64, blocks: &VoxelStore) -> (top: Option<i64>)
    requires
        blocks.wf(),
    ensures
        match top {
            Some(t) => support_top(blocks@, x as int, y as int, z as int) == Some(t as int),
            None => support_top(blocks@, x as int, y as int, z as int) is None,
        },
        top matches Some(t) ==> is_support_top(blocks@, x as int, y as int, z as int, t as int),
{
    let xs = axis_candidates(x);
    let ys = axis_candidates(y);
    let zs = axis_candidates(z);
    let ghost m = blocks@;
    let upper = solid_in_layer(blocks, xs, ys.1, zs);
    let lower = solid_in_layer(blocks, xs, ys.0, zs);
    proof {
        assert forall|b: BlockPosition| near(b, x as int, y as int, z as int) implies (b.x == xs.0
            || b.x == xs.1) && (b.y == ys.0 || b.y == ys.1) && (b.z == zs.0 || b.z == zs.1) by {}
        assert(near(BlockPosition { x: xs.0, y: ys.0, z: zs.0 }, x as int, y as int, z as int));
        assert(near(BlockPosition { x: xs.1, y: ys.1, z: zs.1 }, x as int, y as int, z as int));
    }
    if upper {
        proof {
            let b = choose_solid(m, xs, ys.1, zs);
            assert(near(b, x as int, y as int, z as int));
            assert(is_support_top(m, x as int, y as int, z as int, ys.1 as int));
            lemma_support_top(m, x as int, y as int, z as int, ys.1 as int);
        }
        Some(ys.1)
    } else if lower {
        proof {
            let b = choose_solid(m, xs, ys.0, zs);
            assert(near(b, x as int, y as int, z as int));
            assert forall|c: BlockPosition|
                near(c, x as int, y as int, z as int) && #[trigger] solid_at(m, c) implies c.y
                <= ys.0 by {
                if c.y == ys.1 && ys.1 != ys.0 {
                    assert(c == BlockPosition { x: c.x, y: ys.1, z: c.z });
                }
            }
            assert(is_support_top(m, x as int, y as int, z as int, ys.0 as int));
            lemma_support_top(m, x as int, y as int, z as int, ys.0 as int);
        }
        Some(ys.0)
    } else {
        proof {
            assert forall|c: BlockPosition|
                near(c, x as int, y as int, z as int) implies !#[trigger] solid_at(m, c) by {
                assert(c == BlockPosition { x: c.x, y: c.y, z: c.z });
            }
        }
        None
    }
}

/// A solid block of the layer, where the layer holds one.
spec fn choose_solid(m: StoreView, xs: (i64, i64), y: i64, zs: (i64, i64)) -> BlockPosition {
    if solid_at(m, BlockPosition { x: xs.0, y, z: zs.0 }) {
        BlockPosition { x: xs.0, y, z: zs.0 }
    } else if solid_at(m, BlockPosition { x: xs.1, y, z: zs.0 }) {
        BlockPosition { x: xs.1, y, z: zs.0 }
    } else if solid_at(m, BlockPosition { x: xs.0, y, z: zs.1 }) {
        BlockPosition { x: xs.0, y, z: zs.1 }
    } else {
        BlockPosition { x: xs.1, y, z: zs.1 }
    }
}

/// There is one highest supporting block height at most, so the one that is
/// found is the one that `support_top` names.
pub proof fn lemma_support_top(m: StoreView, x: int, y: int, z: int, top: int)
    requires
        is_support_top(m, x, y, z, top),
    ensures
        blocked(m, x, y, z),
        support_top(m, x, y, z) == Some(top),
{
    let b = choose|b: BlockPosition| near(b, x, y, z) && #[trigger] solid_at(m, b) && b.y == top;
    assert(near(b, x, y, z) && solid_at(m, b));
    let other = choose|t: int| is_support_top(m, x, y, z, t);
    assert(is_support_top(m, x, y, z, other));
    let c = choose|c: BlockPosition|
        near(c, x, y, z) && #[trigger] solid_at(m, c) && c.y == other;
    assert(c.y <= top);
    assert(b.y <= other);
}

/// Whether a solid block is within the collision margin of the point.
pub fn is_block_at_position(x: i64, y: i64, z: i64, blocks: &VoxelStore) -> (b: bool)
    requires
        blocks.wf(),
    ensures
        b == blocked(blocks@, x as int, y as int, z as int),
{
    find_support(x, y, z, blocks).is_some()
}

/// The movement actions that are active during one tick.
#[derive(Clone, Copy, Debug, PartialEq, Eq, Structural)]
pub struct Controls {
    pub forward: bool,
    pub backward: bool,
    pub left: bool,
    pub right: bool,
    pub jump: bool,
    pub toggle_view_mode: bool,
}

/// The controls that a keyboard stands for under the given bindings, where
/// the keys with a code in `pressed` are held down and those with a code in
/// `just_pressed` went down during this tick.
pub open spec fn controls_of(
    pressed: Set<u32>,
    just_pressed: Set<u32>,
    bindings: Map<GameAction, Seq<KeyCode>>,
) -> Controls {
    Controls {
        forward: action_active(GameAction::MoveForward, pressed, bindings),
        backward: action_active(GameAction::MoveBackward, pressed, bindings),
        left: action_active(GameAction::MoveLeft, pressed, bindings),
        right: action_active(GameAction::MoveRight, pressed, bindings),
        jump: action_active(GameAction::Jump, pressed, bindings),
        toggle_view_mode: action_active(GameAction::ToggleViewMode, just_pressed, bindings),
    }
}

/// Reads the movement actions off the keyboard.
pub fn read_controls(keyboard_input: &ButtonInput<u32>, key_map: &KeyMap) -> (c: Controls)
    requires
        key_map.wf(),
    ensures
        c == controls_of(held_keys(*keyboard_input), pressed_now(*keyboard_input), key_map@),
{
    Controls {
        forward: is_action_pressed(GameAction::MoveForward, keyboard_input, key_map),
        backward: is_action_pressed(GameAction::MoveBackward, keyboard_input, key_map),
        left: is_action_pressed(GameAction::MoveLeft, keyboard_input, key_map),
        right: is_action_pressed(GameAction::MoveRight, keyboard_input, key_map),
        jump: is_action_pressed(GameAction::Jump, keyboard_input, key_map),
        toggle_view_mode: is_action_just_pressed(
            GameAction::ToggleViewMode,
            keyboard_input,
            key_map,
        ),
    }
}

/// The direction in which the controls ask to walk: forward and backward
/// along the heading, right and left along the heading turned by a quarter.
pub open spec fn intent(c: Controls, h: Heading) -> (int, int) {
    let fx = if c.forward { h.x as int } else { 0 };
    let fz = if c.forward { h.z as int } else { 0 };
    let bx = if c.backward { h.x as int } else { 0 };
    let bz = if c.backward { h.z as int } else { 0 };
    let rx = if c.right { -(h.z as int) } else { 0 };
    let rz = if c.right { h.x as int } else { 0 };
    let lx = if c.left { -(h.z as int) } else { 0 };
    let lz = if c.left { h.x as int } else { 0 };
    (fx - bx + rx - lx, fz - bz + rz - lz)
}

/// The horizontal step of one tick: the intent scaled to the length that
/// `SPEED` covers in `delta_micros`, each component rounded towards zero.
pub open spec fn displacement(d: (int, int), delta_micros: int) -> (int, int) {
    if d.0 == 0 && d.1 == 0 {
        (0, 0)
    } else {
        let len = int_sqrt(d.0 * d.0 + d.1 * d.1);
        (
            toward_zero(d.0 * (SPEED * delta_micros), len * MICROS_PER_SECOND),
            toward_zero(d.1 * (SPEED * delta_micros), len * MICROS_PER_SECOND),
        )
    }
}

/// Where the horizontal step of one tick would take a player.
pub open spec fn destination(p: Position, c: Controls, h: Heading, delta_micros: int) -> (int, int) {
    let s = displacement(intent(c, h), delta_micros);
    (p.x + s.0, p.z + s.1)
}

/// The position after the horizontal step: the destination, unless there is
/// no intent, a solid block is in the way there, or it lies out of limits.
pub open spec fn after_horizontal(
    p: Position,
    c: Controls,
    h: Heading,
    delta_micros: int,
    m: StoreView,
) -> Position {
    let d = intent(c, h);
    let dest = destination(p, c, h, delta_micros);
    if (d.0 != 0 || d.1 != 0) && !blocked(m, dest.0, p.y as int, dest.1) && abs(dest.0)
        <= POSITION_LIMIT && abs(dest.1) <= POSITION_LIMIT {
        Position { x: dest.0 as i64, y: p.y, z: dest.1 as i64 }
    } else {
        p
    }
}

/// The vertical velocity after one tick: the jump impulse for a grounded
/// player that jumps, else the old velocity with gravity added, held at the
/// velocity limit.
pub open spec fn velocity_after(v: int, on_ground: bool, jump: bool, delta_micros: int) -> int {
    if on_ground && jump {
        JUMP_VELOCITY as int
    } else {
        let w = v + toward_zero(GRAVITY * delta_micros, MICROS_PER_SECOND as int);
        if w < -VELOCITY_LIMIT {
            -VELOCITY_LIMIT
        } else {
            w
        }
    }
}

/// The height that a player at height `y` reaches in one tick at velocity
/// `v`, held at the position limit.
pub open spec fn height_after(y: int, v: int, delta_micros: int) -> int {
    let h = y + toward_zero(v * delta_micros, MICROS_PER_SECOND as int);
    if h > POSITION_LIMIT {
        POSITION_LIMIT as int
    } else {
        h
    }
}

/// Height, vertical velocity and grounding of the player after the vertical
/// move, before the world floor is looked at. A solid block within the
/// collision margin of the point one block below the new position grounds
/// the player on top of the highest such block; else the player is in the air.
pub open spec fn settled(
    p: Player,
    c: Controls,
    h: Heading,
    delta_micros: int,
    m: StoreView,
) -> (int, int, bool) {
    let hp = after_horizontal(p.position, c, h, delta_micros, m);
    let v1 = velocity_after(p.vertical_velocity as int, p.on_ground, c.jump, delta_micros);
    let ny = height_after(hp.y as int, v1, delta_micros);
    match support_top(m, hp.x as int, ny - STANDING_HEIGHT, hp.z as int) {
        Some(top) => (top * 1000 + STANDING_HEIGHT, 0, true),
        None => (ny, v1, false),
    }
}

/// Whether the tick ends with the player's feet below the world floor.
pub open spec fn falls_out(
    p: Player,
    c: Controls,
    h: Heading,
    delta_micros: int,
    m: StoreView,
) -> bool {
    settled(p, c, h, delta_micros, m).0 - STANDING_HEIGHT < WORLD_FLOOR
}

/// The player after one tick of `delta_micros` microseconds.
///
/// The horizontal step is taken as a whole or not at all. Then the vertical
/// velocity and the new height follow, and the player is grounded or not. A
/// player whose feet end below the world floor is put back at the spawn
/// position, at rest and grounded.
pub open spec fn stepped(
    p: Player,
    c: Controls,
    h: Heading,
    delta_micros: int,
    m: StoreView,
) -> Player {
    let view_mode = if c.toggle_view_mode {
        p.view_mode.toggled()
    } else {
        p.view_mode
    };
    let hp = after_horizontal(p.position, c, h, delta_micros, m);
    let (y2, v2, grounded) = settled(p, c, h, delta_micros, m);
    if falls_out(p, c, h, delta_micros, m) {
        Player {
            position: spawn_position(),
            vertical_velocity: 0,
            on_ground: true,
            view_mode,
            ui_mode: p.ui_mode,
        }
    } else {
        Player {
            position: Position { x: hp.x, y: y2 as i64, z: hp.z },
            vertical_velocity: v2 as i64,
            on_ground: grounded,
            view_mode,
            ui_mode: p.ui_mode,
        }
    }
}

fn walk_intent(c: Controls, h: Heading) -> (d: (i64, i64))
    requires
        h.wf(),
    ensures
        d.0 == intent(c, h).0,
        d.1 == intent(c, h).1,
        abs(d.0 as int) <= 2000,
        abs(d.1 as int) <= 2000,
{
    let mut dx: i64 = 0;
    let mut dz: i64 = 0;
    if c.backward {
        dx = dx - h.x;
        dz = dz - h.z;
    }
    if c.forward {
        dx = dx + h.x;
        dz = dz + h.z;
    }
    if c.left {
        dx = dx + h.z;
        dz = dz - h.x;
    }
    if c.right {
        dx = dx - h.z;
        dz = dz + h.x;
    }
    (dx, dz)
}

fn walk_step(d: (i64, i64), delta_micros: u32) -> (s: (i64, i64))
    requires
        abs(d.0 as int) <= 2000,
        abs(d.1 as int) <= 2000,
    ensures
        s.0 == displacement((d.0 as int, d.1 as int), delta_micros as int).0,
        s.1 == displacement((d.0 as int, d.1 as int), delta_micros as int).1,
        abs(s.0 as int) <= 50_000_000_000_000_000,
        abs(s.1 as int) <= 50_000_000_000_000_000,
{
    if d.0 == 0 && d.1 == 0 {
        return (0, 0);
    }
    assert(0 <= d.0 * d.0 <= 4_000_000 && 0 <= d.1 * d.1 <= 4_000_000 && d.0 * d.0 + d.1 * d.1
        >= 1) by (nonlinear_arith)
        requires
            -2000 <= d.0 <= 2000,
            -2000 <= d.1 <= 2000,
            d.0 != 0 || d.1 != 0,
    ;
    let square: u64 = (d.0 * d.0 + d.1 * d.1) as u64;
    let len = isqrt(square);
    assert(1 <= len <= 2829) by (nonlinear_arith)
        requires
            len * len <= square,
            square < (len + 1) * (len + 1),
            1 <= square <= 8_000_000,
            0 <= len,
    ;
    let reach: i128 = SPEED as i128 * delta_micros as i128;
    let per: i128 = len as i128 * 1_000_000;
    assert(per == len * MICROS_PER_SECOND);
    assert(abs(d.0 * reach) <= 2000 * reach && abs(d.1 * reach) <= 2000 * reach)
        by (nonlinear_arith)
        requires
            -2000 <= d.0 <= 2000,
            -2000 <= d.1 <= 2000,
            0 <= reach,
    ;
    let sx = div_toward_zero(d.0 as i128 * reach, per);
    let sz = div_toward_zero(d.1 as i128 * reach, per);
    (sx as i64, sz as i64)
}

fn horizontal_move(
    position: Position,
    controls: Controls,
    heading: Heading,
    delta_micros: u32,
    blocks: &VoxelStore,
) -> (hp: Position)
    requires
        position.in_limits(),
        heading.wf(),
        blocks.wf(),
    ensures
        hp == after_horizontal(position, controls, heading, delta_micros as int, blocks@),
        hp.in_limits(),
        hp.y == position.y,
{
    let d = walk_intent(controls, heading);
    if d.0 != 0 || d.1 != 0 {
        let s = walk_step(d, delta_micros);
        let new_x: i64 = position.x + s.0;
        let new_z: i64 = position.z + s.1;
        if -POSITION_LIMIT <= new_x && new_x <= POSITION_LIMIT && -POSITION_LIMIT <= new_z
            && new_z <= POSITION_LIMIT {
            if !is_block_at_position(new_x, position.y, new_z, blocks) {
                return Position { x: new_x, y: position.y, z: new_z };
            }
        }
    }
    position
}

fn vertical_velocity(v: i64, on_ground: bool, jump: bool, delta_micros: u32) -> (v1: i64)
    requires
        abs(v as int) <= VELOCITY_LIMIT,
    ensures
        v1 == velocity_after(v as int, on_ground, jump, delta_micros as int),
        abs(v1 as int) <= VELOCITY_LIMIT,
{
    if on_ground && jump {
        JUMP_VELOCITY
    } else {
        assert(-39200 * 0x1_0000_0000 <= GRAVITY * delta_micros <= 0) by (nonlinear_arith)
            requires
                GRAVITY == -39200,
                0 <= delta_micros < 0x1_0000_0000,
        ;
        let pull: i128 = GRAVITY as i128 * delta_micros as i128;
        let gained = div_toward_zero(pull, 1_000_000);
        let w: i128 = v as i128 + gained;
        if w < -(VELOCITY_LIMIT as i128) {
            -VELOCITY_LIMIT
        } else {
            w as i64
        }
    }
}

fn reach_height(y: i64, v: i64, delta_micros: u32) -> (ny: i64)
    requires
        abs(y as int) <= POSITION_LIMIT,
        abs(v as int) <= VELOCITY_LIMIT,
    ensures
        ny == height_after(y as int, v as int, delta_micros as int),
        -POSITION_LIMIT - VELOCITY_LIMIT * 0x1_0000_0000 <= ny <= POSITION_LIMIT,
{
    assert(abs(v * delta_micros) <= VELOCITY_LIMIT * 0x1_0000_0000) by (nonlinear_arith)
        requires
            -VELOCITY_LIMIT <= v <= VELOCITY_LIMIT,
            0 <= delta_micros < 0x1_0000_0000,
    ;
    let rise = div_toward_zero(v as i128 * delta_micros as i128, 1_000_000);
    let reached: i128 = y as i128 + rise;
    if reached > POSITION_LIMIT as i128 {
        POSITION_LIMIT
    } else {
        reached as i64
    }
}

fn settle(x: i64, ny: i64, z: i64, v1: i64, blocks: &VoxelStore) -> (r: (i64, i64, bool))
    requires
        blocks.wf(),
        -POSITION_LIMIT - VELOCITY_LIMIT * 0x1_0000_0000 <= ny <= POSITION_LIMIT,
    ensures
        match support_top(blocks@, x as int, ny - STANDING_HEIGHT, z as int) {
            Some(top) => r == (((top * 1000 + STANDING_HEIGHT) as i64), 0i64, true),
            None => r == (ny, v1, false),
        },
        r.0 as int - STANDING_HEIGHT >= WORLD_FLOOR ==> abs(r.0 as int) <= POSITION_LIMIT,
        r.0 >= -POSITION_LIMIT - VELOCITY_LIMIT * 0x1_0000_0000,
        r.0 == match support_top(blocks@, x as int, ny - STANDING_HEIGHT, z as int) {
            Some(top) => top * 1000 + STANDING_HEIGHT,
            None => ny as int,
        },
{
    match find_support(x, ny - STANDING_HEIGHT, z, blocks) {
        Some(top) => {
            proof {
                let b = choose|b: BlockPosition|
                    near(b, x as int, ny - STANDING_HEIGHT, z as int) && #[trigger] solid_at(
                        blocks@,
                        b,
                    ) && b.y == top;
                assert(b.in_world());
            }
            (top * 1000 + STANDING_HEIGHT, 0, true)
        },
        None => (ny, v1, false),
    }
}

/// Advances `player` by one tick of `delta_micros` microseconds.
pub fn step_player(
    player: &mut Player,
    controls: Controls,
    heading: Heading,
    delta_micros: u32,
    blocks: &VoxelStore,
)
    requires
        old(player).wf(),
        heading.wf(),
        blocks.wf(),
    ensures
        *final(player) == stepped(*old(player), controls, heading, delta_micros as int, blocks@),
        final(player).wf(),
{
    let view_mode = if controls.toggle_view_mode {
        match player.view_mode {
            crate::player::ViewMode::FirstPerson => crate::player::ViewMode::ThirdPerson,
            crate::player::ViewMode::ThirdPerson => crate::player::ViewMode::FirstPerson,
        }
    } else {
        player.view_mode
    };
    let hp = horizontal_move(player.position, controls, heading, delta_micros, blocks);
    let v1 = vertical_velocity(
        player.vertical_velocity,
        player.on_ground,
        controls.jump,
        delta_micros,
    );
    let ny = reach_height(hp.y, v1, delta_micros);
    let (y2, v2, grounded) = settle(hp.x, ny, hp.z, v1, blocks);
    assert(settled(*old(player), controls, heading, delta_micros as int, blocks@) == (
        y2 as int,
        v2 as int,
        grounded,
    ));
    if y2 - STANDING_HEIGHT < WORLD_FLOOR {
        *player = Player {
            position: Position { x: 0, y: 1000, z: 0 },
            vertical_velocity: 0,
            on_ground: true,
            view_mode,
            ui_mode: player.ui_mode,
        };
    } else {
        *player = Player {
            position: Position { x: hp.x, y: y2, z: hp.z },
            vertical_velocity: v2,
            on_ground: grounded,
            view_mode,
            ui_mode: player.ui_mode,
        };
    }
}

/// One tick of the player: reads the keyboard, then moves the player.
///
/// Says whether the player asked to leave the game; the player is then left
/// as it was.
pub fn player_movement_system(
    delta_micros: u32,
    keyboard_input: &ButtonInput<u32>,
    key_map: &KeyMap,
    player: &mut Player,
    camera: &Heading,
    blocks: &VoxelStore,
) -> (exit: bool)
    requires
        key_map.wf(),
        old(player).wf(),
        camera.wf(),
        blocks.wf(),
    ensures
        exit == action_active(GameAction::Escape, pressed_now(*keyboard_input), key_map@),
        exit ==> *final(player) == *old(player),
        !exit ==> *final(player) == stepped(
            *old(player),
            controls_of(held_keys(*keyboard_input), pressed_now(*keyboard_input), key_map@),
            *camera,
            delta_micros as int,
            blocks@,
        ),
        final(player).wf(),
{
    if is_action_just_pressed(GameAction::Escape, keyboard_input, key_map) {
        return true;
    }
    let controls = read_controls(keyboard_input, key_map);
    step_player(player, controls, *camera, delta_micros, blocks);
    false
}

/// A player that walks into a solid block keeps its horizontal position,
/// unless it falls out of the world during the same tick.
pub proof fn lemma_blocked_step_keeps_place(
    p: Player,
    c: Controls,
    h: Heading,
    delta_micros: int,
    m: StoreView,
)
    requires
        blocked(
            m,
            destination(p.position, c, h, delta_micros).0,
            p.position.y as int,
            destination(p.position, c, h, delta_micros).1,
        ),
        !falls_out(p, c, h, delta_micros, m),
    ensures
        stepped(p, c, h, delta_micros, m).position.x == p.position.x,
        stepped(p, c, h, delta_micros, m).position.z == p.position.z,
{
}

/// A player that ends the vertical move with a solid block within the
/// collision margin of the point one block below it is grounded and at rest
/// after the tick.
pub proof fn lemma_supported_player_is_grounded(
    p: Player,
    c: Controls,
    h: Heading,
    delta_micros: int,
    m: StoreView,
)
    requires
        ({
            let hp = after_horizontal(p.position, c, h, delta_micros, m);
            let v1 = velocity_after(p.vertical_velocity as int, p.on_ground, c.jump, delta_micros);
            let ny = height_after(hp.y as int, v1, delta_micros);
            blocked(m, hp.x as int, ny - STANDING_HEIGHT, hp.z as int)
        }),
    ensures
        stepped(p, c, h, delta_micros, m).on_ground,
        stepped(p, c, h, delta_micros, m).vertical_velocity == 0,
{
}

/// A player at rest on top of a solid block, that does not walk, is grounded
/// and at rest after a tick of 50 milliseconds or less; unless it jumps, it
/// is where it was.
pub proof fn lemma_standing_player_stays(
    p: Player,
    c: Controls,
    h: Heading,
    delta_micros: int,
    m: StoreView,
    b: BlockPosition,
)
    requires
        solid_at(m, b),
        b.y >= -10,
        p.position.x == b.x * 1000,
        p.position.y == b.y * 1000 + STANDING_HEIGHT,
        p.position.z == b.z * 1000,
        p.on_ground,
        p.vertical_velocity == 0,
        intent(c, h) == (0int, 0int),
        0 <= delta_micros <= 50_000,
    ensures
        stepped(p, c, h, delta_micros, m).on_ground,
        stepped(p, c, h, delta_micros, m).vertical_velocity == 0,
        !c.jump ==> stepped(p, c, h, delta_micros, m).position == p.position,
{
    let hp = after_horizontal(p.position, c, h, delta_micros, m);
    assert(hp == p.position);
    let v1 = velocity_after(0, true, c.jump, delta_micros);
    let ny = height_after(hp.y as int, v1, delta_micros);
    let probe = ny - STANDING_HEIGHT;
    assert(-1960 <= v1 <= 10000);
    assert(-100 * 1_000_000 <= v1 * delta_micros <= 500 * 1_000_000) by (nonlinear_arith)
        requires
            -1960 <= v1 <= 10000,
            0 <= delta_micros <= 50_000,
    ;
    assert(b.in_world());
    assert(near(b, hp.x as int, probe, hp.z as int));
    if !c.jump {
        assert(v1 * delta_micros <= 0) by (nonlinear_arith)
            requires
                v1 <= 0,
                0 <= delta_micros,
        ;
        assert forall|o: BlockPosition|
            near(o, hp.x as int, probe, hp.z as int) && #[trigger] solid_at(m, o) implies o.y
            <= b.y by {}
        assert(is_support_top(m, hp.x as int, probe, hp.z as int, b.y as int));
        lemma_support_top(m, hp.x as int, probe, hp.z as int, b.y as int);
    }
}

/// A player in the air that is not rising, and is so low that no block under
/// it could hold it above the world floor, is put back at the spawn position,
/// at rest and grounded.
pub proof fn lemma_below_floor_respawns(
    p: Player,
    c: Controls,
    h: Heading,
    delta_micros: int,
    m: StoreView,
)
    requires
        p.wf(),
        !p.on_ground,
        p.vertical_velocity <= 0,
        p.position.y + COLLISION_MARGIN <= WORLD_FLOOR + STANDING_HEIGHT,
        0 <= delta_micros,
    ensures
        stepped(p, c, h, delta_micros, m).position == spawn_position(),
        stepped(p, c, h, delta_micros, m).vertical_velocity == 0,
        stepped(p, c, h, delta_micros, m).on_ground,
{
    let hp = after_horizontal(p.position, c, h, delta_micros, m);
    let v1 = velocity_after(p.vertical_velocity as int, false, c.jump, delta_micros);
    assert(v1 <= 0);
    assert(v1 * delta_micros <= 0) by (nonlinear_arith)
        requires
            v1 <= 0,
            0 <= delta_micros,
    ;
    let ny = height_after(hp.y as int, v1, delta_micros);
    assert(ny <= p.position.y);
    let probe = ny - STANDING_HEIGHT;
    if blocked(m, hp.x as int, probe, hp.z as int) {
        let top = choose|top: int| is_support_top(m, hp.x as int, probe, hp.z as int, top);
        let witness = choose|o: BlockPosition|
            near(o, hp.x as int, probe, hp.z as int) && #[trigger] solid_at(m, o);
        lemma_some_support_top(m, hp.x as int, probe, hp.z as int, witness);
        let o = choose|o: BlockPosition|
            near(o, hp.x as int, probe, hp.z as int) && #[trigger] solid_at(m, o) && o.y == top;
        assert(top * 1000 < probe + COLLISION_MARGIN);
    }
}

/// Where a solid block is within the collision margin of a point, one of the
/// two heights that the margin spans is the highest such block's.
pub proof fn lemma_some_support_top(m: StoreView, x: int, y: int, z: int, b: BlockPosition)
    requires
        near(b, x, y, z),
        solid_at(m, b),
    ensures
        exists|top: int| is_support_top(m, x, y, z, top),
{
    let lo = (y + 250) / 1000;
    let hi = (y + 749) / 1000;
    assert forall|o: BlockPosition| near(o, x, y, z) implies o.y == lo || o.y == hi by {}
    if exists|o: BlockPosition| near(o, x, y, z) && #[trigger] solid_at(m, o) && o.y == hi {
        assert(is_support_top(m, x, y, z, hi));
    } else {
        assert(b.y == lo);
        assert(is_support_top(m, x, y, z, lo));
    }
}

} // verus!
