//! Stationary units and their attack clock.

use vstd::prelude::*;

use crate::geometry::Point;

verus! {

/// Rank of a unit, used by the combination rules.
pub type Rank = u16;

/// The kinds of unit.
#[derive(Clone, Copy, Debug, PartialEq, Eq, Hash, Structural)]
pub enum UnitType {
    Warrior,
    Mage,
    Cleric,
    Ranger,
    Scout,
    Knight,
    DarkKnight,
    HeavyKnight,
    Android,
    Sorcerer,
    Geomancer,
    MagicKnight,
    Clergy,
    Sage,
    Celestial,
    Archer,
    Gunner,
    Gunslinger,
    Valkyrie,
    Wall,
}

/// A stationary, player-placed entity that strikes mobs in range.
#[derive(Clone, Copy, Debug)]
pub struct Unit {
    /// Attack range in world units.
    pub range: u32,
    /// Damage dealt by one strike.
    pub damage: u32,
    /// Strikes per thousand seconds; must be positive.
    pub attack_speed_milli: u32,
    pub unit_type: UnitType,
    pub rank: Rank,
    pub attacks: bool,
    /// The tile the unit stands on.
    pub tile_position: Point,
    /// Simulated time (ms) of the last strike that found a target.
    pub last_attacked: u64,
}

impl Unit {
    /// The attack speed is positive.
    pub open spec fn wf(self) -> bool {
        self.attack_speed_milli > 0
    }

    /// Milliseconds between two strikes: a thousand divided by the strikes per
    /// second, truncated.
    pub open spec fn interval_spec(self) -> int {
        1_000_000int / (self.attack_speed_milli as int)
    }

    /// Whether the attack clock is ready at time `now`.
    pub open spec fn ready(self, now: int) -> bool {
        now >= self.last_attacked + self.interval_spec()
    }

    pub open spec fn default_spec() -> Unit {
        Unit {
            range: 0,
            damage: 10,
            attack_speed_milli: 2000,
            unit_type: UnitType::Wall,
            rank: 1,
            attacks: false,
            tile_position: Point { x: 0, y: 0 },
            last_attacked: 0,
        }
    }

    /// A wall of rank one at the origin, two strikes per second, ten damage.
    pub fn new() -> (r: Unit)
        ensures
            r == Unit::default_spec(),
    {
        Unit {
            range: 0,
            damage: 10,
            attack_speed_milli: 2000,
            unit_type: UnitType::Wall,
            rank: 1,
            attacks: false,
            tile_position: Point { x: 0, y: 0 },
            last_attacked: 0,
        }
    }

    /// Milliseconds between two strikes.
    pub fn attack_speed(&self) -> (r: u64)
        requires
            self.wf(),
        ensures
            r == self.interval_spec(),
    {
        1_000_000u64 / (self.attack_speed_milli as u64)
    }

    /// The damage of a strike if the clock is ready at `now`; does not change
    /// the clock.
    pub fn check_attack(&self, now: u64) -> (r: Option<u32>)
        requires
            self.wf(),
        ensures
            r == (if self.ready(now as int) { Some(self.damage) } else { None::<u32> }),
    {
        let interval = self.attack_speed();
        if now >= self.last_attacked && now - self.last_attacked >= interval {
            Some(self.damage)
        } else {
            None
        }
    }

    /// Records a strike at `now`: the clock waits a full interval again.
    pub fn perform_attack(&mut self, now: u64)
        ensures
            *final(self) == (Unit { last_attacked: now, ..*old(self) }),
    {
        self.last_attacked = now;
    }
}

impl Default for Unit {
    fn default() -> (r: Unit)
        ensures
            r == Unit::default_spec(),
    {
        Unit::new()
    }
}

/// After a strike at `t`, the clock is ready at `now` exactly when a full
/// interval has passed, and never before.
pub proof fn lemma_ready_after_interval(u: Unit, t: u64, now: int)
    requires
        u.wf(),
    ensures
        (Unit { last_attacked: t, ..u }).ready(now) <==> now >= t + u.interval_spec(),
{
}

/// At two strikes per second the clock is ready once per 500 ms: exactly when
/// 500 ms have passed since the last strike.
pub proof fn lemma_two_per_second(u: Unit, t: u64, now: int)
    requires
        u.attack_speed_milli == 2000,
    ensures
        (Unit { last_attacked: t, ..u }).ready(now) <==> now >= t + 500,
{
    assert(u.interval_spec() == 500);
}

} // verus!
