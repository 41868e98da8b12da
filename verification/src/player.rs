//! The player entity and the fixed-point quantities its physics is stated in.

use vstd::prelude::*;
use crate::coords::BlockPosition;
use crate::math::{abs, floor_div};

verus! {

/// Length units per block edge: positions are counted in thousandths of a block.
pub const UNITS_PER_BLOCK: i64 = 1000;

/// No coordinate of an entity lies further than this from the origin.
pub const POSITION_LIMIT: i64 = 1_000_000_000_000_000;

/// No entity moves faster than this along the vertical, in units per second.
pub const VELOCITY_LIMIT: i64 = 1_000_000_000;

/// A point of the world, in thousandths of a block. Block `b` is the unit
/// cube centred on `b * UNITS_PER_BLOCK`.
#[derive(Clone, Copy, Debug, PartialEq, Eq, Structural, Hash)]
pub struct Position {
    pub x: i64,
    pub y: i64,
    pub z: i64,
}

impl Position {
    pub fn new(x: i64, y: i64, z: i64) -> (p: Self)
        ensures
            p == (Position { x, y, z }),
    {
        Position { x, y, z }
    }

    /// Every coordinate is within `POSITION_LIMIT` of the origin.
    pub open spec fn in_limits(self) -> bool {
        abs(self.x as int) <= POSITION_LIMIT && abs(self.y as int) <= POSITION_LIMIT && abs(
            self.z as int,
        ) <= POSITION_LIMIT
    }

    /// The block whose cube holds this point.
    pub open spec fn block(self) -> BlockPosition {
        BlockPosition {
            x: ((self.x + 500) / 1000) as i64,
            y: ((self.y + 500) / 1000) as i64,
            z: ((self.z + 500) / 1000) as i64,
        }
    }

    /// Computes `block`.
    pub fn containing_block(&self) -> (b: BlockPosition)
        ensures
            b == self.block(),
    {
        BlockPosition {
            x: floor_div(self.x as i128 + 500, 1000) as i64,
            y: floor_div(self.y as i128 + 500, 1000) as i64,
            z: floor_div(self.z as i128 + 500, 1000) as i64,
        }
    }
}

/// From where the player looks at the world.
#[derive(Clone, Copy, Debug, PartialEq, Eq, Structural)]
pub enum ViewMode {
    FirstPerson,
    ThirdPerson,
}

/// Whether a menu is open over the game.
#[derive(Clone, Copy, Debug, PartialEq, Eq, Structural)]
pub enum UIMode {
    Opened,
    Closed,
}

/// Where a player is put when it enters the world or falls out of it.
pub open spec fn spawn_position() -> Position {
    Position { x: 0, y: 1000, z: 0 }
}

/// A player: where it is, how it moves along the vertical, and how it is shown.
#[derive(Clone, Copy, Debug, PartialEq, Eq, Structural)]
pub struct Player {
    pub position: Position,
    /// Units per second, upwards positive.
    pub vertical_velocity: i64,
    pub on_ground: bool,
    pub view_mode: ViewMode,
    pub ui_mode: UIMode,
}

impl Player {
    /// Position and velocity are within the limits of the simulation.
    pub open spec fn wf(self) -> bool {
        self.position.in_limits() && abs(self.vertical_velocity as int) <= VELOCITY_LIMIT
    }

    /// A player at rest at the spawn position, seen in first person.
    pub fn new() -> (p: Player)
        ensures
            p.wf(),
            p.position == spawn_position(),
            p.vertical_velocity == 0,
            p.on_ground,
            p.view_mode == ViewMode::FirstPerson,
            p.ui_mode == UIMode::Closed,
    {
        Player {
            position: Position { x: 0, y: 1000, z: 0 },
            vertical_velocity: 0,
            on_ground: true,
            view_mode: ViewMode::FirstPerson,
            ui_mode: UIMode::Closed,
        }
    }

    /// Switches between first and third person.
    pub fn toggle_view_mode(&mut self)
        ensures
            final(self).view_mode == old(self).view_mode.toggled(),
            final(self).position == old(self).position,
            final(self).vertical_velocity == old(self).vertical_velocity,
            final(self).on_ground == old(self).on_ground,
            final(self).ui_mode == old(self).ui_mode,
    {
        self.view_mode = match self.view_mode {
            ViewMode::FirstPerson => ViewMode::ThirdPerson,
            ViewMode::ThirdPerson => ViewMode::FirstPerson,
        };
    }

    /// Whether the cursor is shown: it is while a menu is open.
    pub fn cursor_visible(&self) -> (v: bool)
        ensures
            v == (self.ui_mode == UIMode::Opened),
    {
        match self.ui_mode {
            UIMode::Opened => true,
            UIMode::Closed => false,
        }
    }
}

impl ViewMode {
    /// The other view mode.
    pub open spec fn toggled(self) -> ViewMode {
        match self {
            ViewMode::FirstPerson => ViewMode::ThirdPerson,
            ViewMode::ThirdPerson => ViewMode::FirstPerson,
        }
    }
}

/// The horizontal direction in which the camera looks, pitch left out: a
/// vector of length `UNITS_PER_BLOCK` or shorter on each axis.
#[derive(Clone, Copy, Debug, PartialEq, Eq, Structural)]
pub struct Heading {
    pub x: i64,
    pub z: i64,
}

impl Heading {
    /// No component is longer than one block.
    pub open spec fn wf(self) -> bool {
        abs(self.x as int) <= UNITS_PER_BLOCK && abs(self.z as int) <= UNITS_PER_BLOCK
    }

    /// A heading with the given components, or `None` where one is longer
    /// than a block.
    pub fn new(x: i64, z: i64) -> (h: Option<Heading>)
        ensures
            h == if (Heading { x, z }).wf() {
                Some(Heading { x, z })
            } else {
                None
            },
    {
        if -UNITS_PER_BLOCK <= x && x <= UNITS_PER_BLOCK && -UNITS_PER_BLOCK <= z && z
            <= UNITS_PER_BLOCK {
            Some(Heading { x, z })
        } else {
            None
        }
    }
}

} // verus!
