//! The flow of a level: units are picked, then a round spawns its mobs until
//! none are left.

use vstd::prelude::*;

use crate::geometry::Point;
use crate::unit::{Unit, UnitType};

verus! {

/// Units the player places before a round starts.
pub const MAX_PLACED_UNITS: u32 = 5;

/// Mobs spawned per round.
pub const MOBS_PER_ROUND: u32 = 10;

/// Ticks between two spawns.
pub const SPAWN_INTERVAL_TICKS: u32 = 60;

/// Range of a recruited warrior, in world units (36 pixels).
pub const WARRIOR_RANGE: u32 = 36_000;

/// The phase of a level.
#[derive(Clone, Copy, Debug, PartialEq, Eq, Structural)]
pub enum LevelState {
    PickUnit,
    RoundStart,
    RoundEnd,
}

/// What the player asked for.
#[derive(Clone, Copy, Debug, PartialEq, Eq, Structural)]
pub enum UserAction {
    BuildUnit,
}

/// Progress through a level.
#[derive(Clone, Copy, Debug)]
pub struct Level {
    pub state: LevelState,
    pub placed_units: u32,
    pub spawned_mobs: u32,
    /// Ticks since the round started (stops at the largest `u32`).
    pub current_ticks: u32,
}

impl Level {
    /// A level in which the player picks units.
    pub fn new() -> (r: Level)
        ensures
            r == (Level { state: LevelState::PickUnit, placed_units: 0, spawned_mobs: 0, current_ticks: 0 }),
    {
        Level { state: LevelState::PickUnit, placed_units: 0, spawned_mobs: 0, current_ticks: 0 }
    }

    /// Counts one tick of a started round and says whether a mob spawns on it:
    /// one every sixty ticks until ten have spawned.
    pub fn spawn_due(&mut self) -> (r: bool)
        ensures
            old(self).state != LevelState::RoundStart ==> !r && *final(self) == *old(self),
            old(self).state == LevelState::RoundStart ==> {
                let ticks = if old(self).current_ticks < u32::MAX {
                    old(self).current_ticks + 1
                } else {
                    old(self).current_ticks as int
                };
                &&& final(self).current_ticks == ticks
                &&& r == (old(self).spawned_mobs < MOBS_PER_ROUND && ticks % (SPAWN_INTERVAL_TICKS as int) == 0)
                &&& final(self).spawned_mobs == old(self).spawned_mobs + if r { 1int } else { 0int }
                &&& final(self).state == old(self).state
                &&& final(self).placed_units == old(self).placed_units
            },
    {
        if self.state != LevelState::RoundStart {
            return false;
        }
        if self.current_ticks < u32::MAX {
            self.current_ticks = self.current_ticks + 1;
        }
        if self.spawned_mobs < MOBS_PER_ROUND && self.current_ticks % SPAWN_INTERVAL_TICKS == 0 {
            self.spawned_mobs = self.spawned_mobs + 1;
            true
        } else {
            false
        }
    }

    /// Ends a started round once all its mobs have spawned and `mobs_left`
    /// is zero.
    pub fn finish_round(&mut self, mobs_left: usize)
        ensures
            *final(self) == (if old(self).state == LevelState::RoundStart && old(self).spawned_mobs
                == MOBS_PER_ROUND && mobs_left == 0 {
                Level { state: LevelState::RoundEnd, ..*old(self) }
            } else {
                *old(self)
            }),
    {
        if self.state == LevelState::RoundStart && self.spawned_mobs == MOBS_PER_ROUND && mobs_left
            == 0 {
            self.state = LevelState::RoundEnd;
        }
    }

    /// Whether the player may place another unit.
    pub fn may_build(&self) -> (r: bool)
        ensures
            r == (self.state == LevelState::PickUnit && self.placed_units < MAX_PLACED_UNITS),
    {
        self.state == LevelState::PickUnit && self.placed_units < MAX_PLACED_UNITS
    }

    /// Records a placed unit; the fifth one starts the round.
    pub fn unit_built(&mut self)
        requires
            old(self).state == LevelState::PickUnit,
            old(self).placed_units < MAX_PLACED_UNITS,
        ensures
            final(self).placed_units == old(self).placed_units + 1,
            final(self).spawned_mobs == old(self).spawned_mobs,
            final(self).placed_units == MAX_PLACED_UNITS ==> final(self).state
                == LevelState::RoundStart && final(self).current_ticks == 0,
            final(self).placed_units < MAX_PLACED_UNITS ==> final(self).state == old(self).state
                && final(self).current_ticks == old(self).current_ticks,
    {
        self.placed_units = self.placed_units + 1;
        if self.placed_units == MAX_PLACED_UNITS {
            self.state = LevelState::RoundStart;
            self.current_ticks = 0;
        }
    }
}

/// The warrior a build action places on tile `at`.
pub fn recruit(at: Point) -> (r: Unit)
    ensures
        r == (Unit {
            unit_type: UnitType::Warrior,
            range: WARRIOR_RANGE,
            tile_position: at,
            ..Unit::default_spec()
        }),
        r.wf(),
{
    let mut unit = Unit::new();
    unit.unit_type = UnitType::Warrior;
    unit.range = WARRIOR_RANGE;
    unit.tile_position = at;
    unit
}

} // verus!
