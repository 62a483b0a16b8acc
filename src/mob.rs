//! Mobs: their definitions, movement toward a destination tile, health.

use vstd::prelude::*;
use vstd::arithmetic::div_mod::{lemma_div_is_ordered, lemma_div_by_multiple};
use vstd::arithmetic::mul::lemma_mul_inequality;

use crate::geometry::{
    dist_sq, distance_squared, floor_sqrt, isqrt, to_world, world_of, Point, WorldPoint,
};

verus! {

/// A mob closer to its destination than this many world units has arrived
/// (one pixel).
pub const ARRIVAL_DISTANCE: i64 = 1_000;

/// Movement speed of a freshly spawned mob, in world units per second.
pub const SPAWN_SPEED: u32 = 50_000;

/// How long after being damaged a mob shows its health bar, in ms.
pub const HEALTH_BAR_MS: u64 = 5_000;

/// The template a mob is spawned from.
#[derive(Clone, Copy, Debug)]
pub struct MobDefinition {
    pub health: i32,
    pub physical_defense: i32,
    pub magical_defense: i32,
    pub invisible: bool,
    pub spritesheet_id: u32,
}

/// Where a mob is in its walk to its destination.
#[derive(Clone, Copy, Debug, PartialEq, Eq, Structural)]
pub enum MobEntityStatus {
    Walking,
    FinishedPath,
}

/// A mobile hostile entity.
#[derive(Clone, Copy, Debug)]
pub struct MobEntity {
    /// Current position in world units.
    pub position: WorldPoint,
    /// Position before the last move, for interpolated rendering.
    pub last_position: WorldPoint,
    /// The tile the mob walks to.
    pub destination: Point,
    /// Index of `destination` in the route.
    pub path_index: u32,
    /// World units per second.
    pub movement_speed: u32,
    pub max_health: i32,
    pub current_health: i32,
    pub physical_defense: i32,
    pub magical_defense: i32,
    pub invisible: bool,
    pub status: MobEntityStatus,
    /// Simulated time (ms) of the last damage taken, or of the spawn.
    pub last_damaged_at: u64,
}

/// One coordinate moved `step` units along a direction whose component is
/// `delta` and whose length is `dist`, rounded toward the start.
pub open spec fn approach(from: int, delta: int, step: int, dist: int) -> int {
    if delta >= 0 {
        from + delta * step / dist
    } else {
        from - (-delta) * step / dist
    }
}

/// The point `step` world units from `from` on the straight line to `to`,
/// or `to` itself when it is that close.
pub open spec fn moved_toward(from: WorldPoint, to: WorldPoint, step: int) -> WorldPoint {
    let d2 = dist_sq(from, to);
    if step * step >= d2 {
        to
    } else {
        let dist = floor_sqrt(d2 as nat) as int;
        WorldPoint {
            x: approach(from.x as int, to.x - from.x, step, dist) as i64,
            y: approach(from.y as int, to.y - from.y, step, dist) as i64,
        }
    }
}

/// Whether `from` lies within the arrival distance of `to`.
pub open spec fn arrived(from: WorldPoint, to: WorldPoint) -> bool {
    dist_sq(from, to) < ARRIVAL_DISTANCE * ARRIVAL_DISTANCE
}

/// World units covered at `speed` units per second in `dt` ms.
pub open spec fn step_len(speed: u32, dt: u32) -> int {
    (speed as int) * (dt as int) / 1000
}

/// Health after `amount` damage, stopping at the smallest `i32`.
pub open spec fn damaged_health(health: i32, amount: u32) -> i32 {
    if health - amount < i32::MIN {
        i32::MIN
    } else {
        (health - amount) as i32
    }
}

impl MobEntity {
    /// Positions lie within the world and health does not exceed its maximum.
    pub open spec fn wf(self) -> bool {
        self.position.in_world() && self.last_position.in_world() && self.current_health
            <= self.max_health
    }

    pub open spec fn alive(self) -> bool {
        self.current_health > 0
    }

    /// The mob after one movement update of `dt` ms.
    pub open spec fn updated(self, dt: u32) -> MobEntity {
        if self.status == MobEntityStatus::FinishedPath {
            self
        } else if arrived(self.position, world_of(self.destination)) {
            MobEntity { status: MobEntityStatus::FinishedPath, ..self }
        } else {
            MobEntity {
                last_position: self.position,
                position: moved_toward(
                    self.position,
                    world_of(self.destination),
                    step_len(self.movement_speed, dt),
                ),
                ..self
            }
        }
    }

    /// The mob after taking `amount` damage at `now`.
    pub open spec fn damaged(self, amount: u32, now: u64) -> MobEntity {
        MobEntity {
            current_health: damaged_health(self.current_health, amount),
            last_damaged_at: now,
            ..self
        }
    }

    /// A new mob walking from tile `spawn` toward tile `destination`, with the
    /// definition's health, defenses and invisibility.
    pub open spec fn spawned(
        definition: MobDefinition,
        spawn: Point,
        destination: Point,
        now: u64,
    ) -> MobEntity {
        MobEntity {
            position: world_of(spawn),
            last_position: world_of(spawn),
            destination,
            path_index: 0,
            movement_speed: SPAWN_SPEED,
            max_health: definition.health,
            current_health: definition.health,
            physical_defense: definition.physical_defense,
            magical_defense: definition.magical_defense,
            invisible: definition.invisible,
            status: MobEntityStatus::Walking,
            last_damaged_at: now,
        }
    }

    /// Spawns a mob from `definition` at tile `spawn`, walking toward tile
    /// `destination`; `now` counts as its last damage for the health bar.
    pub fn spawn(definition: &MobDefinition, spawn: Point, destination: Point, now: u64) -> (r:
        MobEntity)
        ensures
            r == MobEntity::spawned(*definition, spawn, destination, now),
            r.wf(),
    {
        let position = to_world(spawn);
        MobEntity {
            position,
            last_position: position,
            destination,
            path_index: 0,
            movement_speed: SPAWN_SPEED,
            max_health: definition.health,
            current_health: definition.health,
            physical_defense: definition.physical_defense,
            magical_defense: definition.magical_defense,
            invisible: definition.invisible,
            status: MobEntityStatus::Walking,
            last_damaged_at: now,
        }
    }

    /// Advances the mob by `dt` ms: a walking mob within the arrival distance of
    /// its destination finishes its path without moving; otherwise it moves
    /// toward the destination at its speed and remembers where it was.
    pub fn update(&mut self, dt: u32)
        requires
            old(self).wf(),
        ensures
            *final(self) == old(self).updated(dt),
            final(self).wf(),
    {
        if self.status == MobEntityStatus::FinishedPath {
            return;
        }
        let target = to_world(self.destination);
        let d2 = distance_squared(self.position, target);
        if d2 < (ARRIVAL_DISTANCE as u128) * (ARRIVAL_DISTANCE as u128) {
            self.status = MobEntityStatus::FinishedPath;
            return;
        }
        let speed = self.movement_speed as u64;
        let time = dt as u64;
        assert(speed * time <= u64::MAX) by (nonlinear_arith)
            requires
                speed <= u32::MAX,
                time <= u32::MAX,
        ;
        let step: u64 = speed * time / 1000;
        proof {
            lemma_div_is_ordered((speed * time) as int, u64::MAX as int, 1000);
        }
        let next = step_toward(self.position, target, step, d2);
        self.last_position = self.position;
        self.position = next;
    }

    /// Takes `amount` damage at `now`; liveness is not checked here.
    pub fn damage(&mut self, amount: u32, now: u64)
        ensures
            *final(self) == old(self).damaged(amount, now),
    {
        let health = self.current_health as i64 - amount as i64;
        self.current_health = if health < i32::MIN as i64 {
            i32::MIN
        } else {
            health as i32
        };
        self.last_damaged_at = now;
    }

    /// Whether the mob was damaged (or spawned) less than five seconds before `now`.
    pub fn show_health_bar(&self, now: u64) -> (r: bool)
        ensures
            r == (now < self.last_damaged_at + HEALTH_BAR_MS),
    {
        now < self.last_damaged_at || now - self.last_damaged_at < HEALTH_BAR_MS
    }

    pub fn is_alive(&self) -> (r: bool)
        ensures
            r == self.alive(),
    {
        self.current_health > 0
    }
}

/// A coordinate moved toward its target stays between the two.
proof fn lemma_approach_between(from: int, delta: int, step: int, dist: int)
    requires
        0 <= step <= dist,
        0 < dist,
    ensures
        delta >= 0 ==> from <= approach(from, delta, step, dist) <= from + delta,
        delta < 0 ==> from + delta <= approach(from, delta, step, dist) <= from,
{
    let a = if delta >= 0 {
        delta
    } else {
        -delta
    };
    lemma_mul_inequality(step, dist, a);
    assert(0 <= a * step) by (nonlinear_arith)
        requires
            0 <= a,
            0 <= step,
    ;
    assert(step * a == a * step && dist * a == a * dist) by (nonlinear_arith);
    lemma_div_is_ordered(a * step, a * dist, dist);
    lemma_div_by_multiple(a, dist);
    lemma_div_is_ordered(0, a * step, dist);
}

/// The position `step` world units from `from` toward `to`, or `to` when that
/// is within reach; `d2` is the squared distance between them.
fn step_toward(from: WorldPoint, to: WorldPoint, step: u64, d2: u128) -> (r: WorldPoint)
    requires
        from.in_world(),
        to.in_world(),
        d2 == dist_sq(from, to),
        step <= u64::MAX / 1000,
    ensures
        r == moved_toward(from, to, step as int),
        r.in_world(),
{
    let s: u128 = step as u128;
    assert(s * s <= 0x1_0000_0000_0000_0000_0000_0000_0000u128) by (nonlinear_arith)
        requires
            s <= 0x80_0000_0000_0000u128,
    ;
    if s * s >= d2 {
        return to;
    }
    let dist = isqrt(d2);
    proof {
        if dist < s {
            assert((dist + 1) * (dist + 1) <= s * s) by (nonlinear_arith)
                requires
                    0 <= dist,
                    dist + 1 <= s,
            ;
        }
        if dist == 0 {
            assert(d2 < 1) by (nonlinear_arith)
                requires
                    dist == 0,
                    d2 < (dist + 1) * (dist + 1),
            ;
        }
    }
    let dx: i64 = to.x - from.x;
    let dy: i64 = to.y - from.y;
    proof {
        lemma_approach_between(from.x as int, dx as int, s as int, dist as int);
        lemma_approach_between(from.y as int, dy as int, s as int, dist as int);
    }
    let x = shifted(from.x, dx, s, dist);
    let y = shifted(from.y, dy, s, dist);
    WorldPoint { x, y }
}

/// `approach` on one coordinate.
fn shifted(from: i64, delta: i64, step: u128, dist: u128) -> (r: i64)
    requires
        -0x1_0000_0000_0000 <= from <= 0x1_0000_0000_0000,
        -0x1_0000_0000_0000 <= from + delta <= 0x1_0000_0000_0000,
        step <= dist,
        0 < dist,
        step <= 0x80_0000_0000_0000u128,
    ensures
        r == approach(from as int, delta as int, step as int, dist as int),
{
    proof {
        lemma_approach_between(from as int, delta as int, step as int, dist as int);
    }
    let a: u128 = if delta >= 0 {
        delta as u128
    } else {
        (-delta) as u128
    };
    assert(a * step <= 0x2_0000_0000_0000u128 * 0x80_0000_0000_0000u128) by (nonlinear_arith)
        requires
            a <= 0x2_0000_0000_0000u128,
            step <= 0x80_0000_0000_0000u128,
    ;
    let m: u128 = a * step / dist;
    if delta >= 0 {
        from + m as i64
    } else {
        from - m as i64
    }
}

/// A walking mob whose destination is the tile it stands on finishes its path
/// on its first update, without moving.
pub proof fn lemma_arrives_in_place(m: MobEntity, dt: u32)
    requires
        m.status == MobEntityStatus::Walking,
        m.position == world_of(m.destination),
    ensures
        m.updated(dt).status == MobEntityStatus::FinishedPath,
        m.updated(dt).position == m.position,
        m.updated(dt).last_position == m.last_position,
{
}

} // verus!
