//! Combat resolution: ready units strike the first mob in range, defeated
//! mobs leave the board, and only a strike that lands resets its unit's clock.

use vstd::prelude::*;

use crate::board::{first_index, lemma_first_index, unit_index, Board};
use crate::geometry::{dist_sq, distance_squared, to_world, world_of, Point, WorldPoint};
use crate::mob::MobEntity;
use crate::unit::Unit;

verus! {

/// One unit's strike during one resolution pass.
#[derive(Clone, Copy, Debug)]
pub struct DamageEvent {
    pub damage: u32,
    /// The tile of the striking unit.
    pub unit_position: Point,
    /// Where the strike comes from, in world units.
    pub source: WorldPoint,
    /// Range of the strike in world units.
    pub range: u32,
    /// Whether the strike has found its target.
    pub applied: bool,
}

impl DamageEvent {
    /// A strike that has not found a target yet.
    pub fn new(damage: u32, unit_position: Point, source: WorldPoint, range: u32) -> (r:
        DamageEvent)
        ensures
            r == (DamageEvent { damage, unit_position, source, range, applied: false }),
    {
        DamageEvent { damage, unit_position, source, range, applied: false }
    }
}

/// The mob stands within `range` world units of `source`.
pub open spec fn in_range(m: MobEntity, source: WorldPoint, range: u32) -> bool {
    dist_sq(m.position, source) <= range * range
}

/// The first mob in range of the strike.
pub open spec fn target_index(mobs: Seq<MobEntity>, ev: DamageEvent) -> Option<int> {
    first_index(mobs, |m: MobEntity| in_range(m, ev.source, ev.range))
}

/// The mobs after one strike at `now`, and whether it hit: the first mob in
/// range takes the full damage and leaves the collection if it dies.
pub open spec fn strike(mobs: Seq<MobEntity>, ev: DamageEvent, now: u64) -> (Seq<MobEntity>, bool) {
    match target_index(mobs, ev) {
        None => (mobs, false),
        Some(i) => {
            let hurt = mobs[i].damaged(ev.damage, now);
            if hurt.alive() {
                (mobs.update(i, hurt), true)
            } else {
                (mobs.remove(i), true)
            }
        },
    }
}

/// The strike of unit `u`, from its tile's world position.
pub open spec fn event_of(u: Unit) -> DamageEvent {
    DamageEvent {
        damage: u.damage,
        unit_position: u.tile_position,
        source: world_of(u.tile_position),
        range: u.range,
        applied: false,
    }
}

/// The strikes of the units that are ready at `now`, in unit order.
pub open spec fn damage_events(units: Seq<Unit>, now: int) -> Seq<DamageEvent>
    decreases units.len(),
{
    if units.len() == 0 {
        Seq::empty()
    } else {
        let rest = damage_events(units.drop_last(), now);
        if units.last().ready(now) {
            rest.push(event_of(units.last()))
        } else {
            rest
        }
    }
}

/// The units after the first unit on `p` struck at `now`.
pub open spec fn commit_at(units: Seq<Unit>, p: Point, now: u64) -> Seq<Unit> {
    match unit_index(units, p) {
        Some(i) => units.update(i, Unit { last_attacked: now, ..units[i] }),
        None => units,
    }
}

/// Units and mobs after the strikes `events`, in order.
pub open spec fn resolve_events(
    units: Seq<Unit>,
    mobs: Seq<MobEntity>,
    events: Seq<DamageEvent>,
    now: u64,
) -> (Seq<Unit>, Seq<MobEntity>)
    decreases events.len(),
{
    if events.len() == 0 {
        (units, mobs)
    } else {
        let (u, m) = resolve_events(units, mobs, events.drop_last(), now);
        let (m2, hit) = strike(m, events.last(), now);
        (
            if hit {
                commit_at(u, events.last().unit_position, now)
            } else {
                u
            },
            m2,
        )
    }
}

/// Units and mobs after one resolution pass at `now`.
pub open spec fn resolved(units: Seq<Unit>, mobs: Seq<MobEntity>, now: u64) -> (
    Seq<Unit>,
    Seq<MobEntity>,
) {
    resolve_events(units, mobs, damage_events(units, now as int), now)
}

/// Every mob has health left.
pub open spec fn all_alive(mobs: Seq<MobEntity>) -> bool {
    forall|i: int| 0 <= i < mobs.len() ==> (#[trigger] mobs[i]).alive()
}

/// Every mob is well formed.
pub open spec fn all_wf(mobs: Seq<MobEntity>) -> bool {
    forall|i: int| 0 <= i < mobs.len() ==> (#[trigger] mobs[i]).wf()
}

/// The strikes of the units ready at `now`.
fn collect_damage_events(units: &Vec<Unit>, now: u64) -> (r: Vec<DamageEvent>)
    requires
        forall|i: int| 0 <= i < units.len() ==> (#[trigger] units@[i]).wf(),
    ensures
        r@ == damage_events(units@, now as int),
        forall|i: int| 0 <= i < r.len() ==> (#[trigger] r@[i]).source.in_world(),
{
    let mut events: Vec<DamageEvent> = Vec::new();
    let mut i: usize = 0;
    while i < units.len()
        invariant
            i <= units.len(),
            forall|j: int| 0 <= j < units.len() ==> (#[trigger] units@[j]).wf(),
            events@ == damage_events(units@.take(i as int), now as int),
            forall|j: int| 0 <= j < events.len() ==> (#[trigger] events@[j]).source.in_world(),
        decreases units.len() - i,
    {
        assert(units@.take(i + 1).drop_last() =~= units@.take(i as int));
        let unit = units[i];
        match unit.check_attack(now) {
            Some(damage) => {
                let position = unit.tile_position;
                events.push(DamageEvent::new(damage, position, to_world(position), unit.range));
            },
            None => {},
        }
        i += 1;
    }
    assert(units@.take(i as int) =~= units@);
    events
}

/// Applies one strike: the first mob in range takes the damage and leaves the
/// collection if it dies. Returns whether the strike hit.
fn apply_damage_event(mobs: &mut Vec<MobEntity>, ev: &mut DamageEvent, now: u64) -> (hit: bool)
    requires
        all_wf(old(mobs)@),
        old(ev).source.in_world(),
    ensures
        (final(mobs)@, hit) == strike(old(mobs)@, *old(ev), now),
        *final(ev) == (DamageEvent { applied: old(ev).applied || hit, ..*old(ev) }),
        all_wf(final(mobs)@),
{
    proof {
        lemma_first_index(mobs@, |m: MobEntity| in_range(m, ev.source, ev.range));
    }
    let range: u128 = ev.range as u128;
    let mut index: usize = 0;
    while index != mobs.len()
        invariant
            index <= mobs.len(),
            mobs@ == old(mobs)@,
            *ev == *old(ev),
            all_wf(mobs@),
            ev.source.in_world(),
            range == ev.range,
            forall|j: int| 0 <= j < index ==> !in_range(#[trigger] mobs@[j], ev.source, ev.range),
        decreases mobs.len() - index,
    {
        assert(range * range <= u64::MAX) by (nonlinear_arith)
            requires
                range <= u32::MAX,
        ;
        let within = distance_squared(mobs[index].position, ev.source) <= range * range;
        if within {
            proof {
                lemma_first_index(mobs@, |m: MobEntity| in_range(m, ev.source, ev.range));
            }
            assert(target_index(mobs@, *ev) == Some(index as int));
            let mut hurt = mobs[index];
            hurt.damage(ev.damage, now);
            ev.applied = true;
            if hurt.is_alive() {
                mobs.set(index, hurt);
            } else {
                mobs.remove(index);
            }
            assert forall|j: int| 0 <= j < mobs.len() implies (#[trigger] mobs@[j]).wf() by {
                if !hurt.alive() && j >= index {
                    assert(mobs@[j] == old(mobs)@[j + 1]);
                }
            }
            return true;
        }
        index += 1;
    }
    assert(target_index(mobs@, *ev) is None);
    false
}

impl Board {
    /// One combat resolution pass at `now`. Every unit whose clock is ready
    /// strikes, in unit order, the first mob (in storage order) within its
    /// range; the mob takes the unit's full damage and is removed at once if
    /// its health drops to zero or below. A unit whose strike hit has its clock
    /// reset to `now`; a unit with no mob in range stays ready.
    pub fn update(&mut self, now: u64)
        requires
            old(self).wf(),
        ensures
            final(self).wf(),
            (final(self).tiles@, final(self).mobs@) == resolved(
                old(self).tiles@,
                old(self).mobs@,
                now,
            ),
            all_alive(old(self).mobs@) ==> all_alive(final(self).mobs@),
            final(self).width == old(self).width,
            final(self).height == old(self).height,
            final(self).spawn_tile == old(self).spawn_tile,
            final(self).route == old(self).route,
            final(self).waypoints == old(self).waypoints,
    {
        let events = collect_damage_events(&self.tiles, now);
        let ghost units0 = self.tiles@;
        let ghost mobs0 = self.mobs@;
        let mut k: usize = 0;
        while k < events.len()
            invariant
                k <= events.len(),
                events@ == damage_events(units0, now as int),
                forall|i: int| 0 <= i < events.len() ==> (#[trigger] events@[i]).source.in_world(),
                (self.tiles@, self.mobs@) == resolve_events(
                    units0,
                    mobs0,
                    events@.take(k as int),
                    now,
                ),
                self.tiles.len() == units0.len(),
                forall|i: int|
                    0 <= i < units0.len() ==> (#[trigger] self.tiles@[i]) == (Unit {
                        last_attacked: self.tiles@[i].last_attacked,
                        ..units0[i]
                    }),
                all_wf(self.mobs@),
                all_alive(mobs0) ==> all_alive(self.mobs@),
                self.width == old(self).width,
                self.height == old(self).height,
                self.spawn_tile == old(self).spawn_tile,
                self.route == old(self).route,
                self.waypoints == old(self).waypoints,
                units0 == old(self).tiles@,
                mobs0 == old(self).mobs@,
                old(self).wf(),
            decreases events.len() - k,
        {
            assert(events@.take(k + 1).drop_last() =~= events@.take(k as int));
            let ev0 = events[k];
            let mut ev = ev0;
            let ghost mobs_before = self.mobs@;
            let hit = apply_damage_event(&mut self.mobs, &mut ev, now);
            proof {
                lemma_strike_keeps_alive(mobs_before, ev0, now);
            }
            if hit {
                let ghost tiles_before = self.tiles@;
                proof {
                    lemma_first_index(tiles_before, |u: Unit| u.tile_position == ev.unit_position);
                }
                match self.at_position_mut(&ev.unit_position) {
                    Some(unit) => {
                        unit.perform_attack(now);
                    },
                    None => {},
                }
                assert(self.tiles@ == commit_at(tiles_before, ev0.unit_position, now));
            }
            k += 1;
        }
        assert(events@.take(k as int) =~= events@);
        proof {
            assert forall|i: int| 0 <= i < self.tiles.len() implies #[trigger] self.tiles[i].wf()
                && crate::board::in_bounds(self.width, self.height, self.tiles[i].tile_position)
                && self.tiles[i].tile_position == units0[i].tile_position by {
                assert(self.tiles@[i] == (Unit {
                    last_attacked: self.tiles@[i].last_attacked,
                    ..units0[i]
                }));
                assert(old(self).tiles[i].wf());
            }
        }
    }
}

/// A strike on live mobs leaves only live mobs.
proof fn lemma_strike_keeps_alive(mobs: Seq<MobEntity>, ev: DamageEvent, now: u64)
    ensures
        all_alive(mobs) ==> all_alive(strike(mobs, ev, now).0),
{
    lemma_first_index(mobs, |m: MobEntity| in_range(m, ev.source, ev.range));
    if all_alive(mobs) {
        match target_index(mobs, ev) {
            Some(i) => {
                let after = strike(mobs, ev, now).0;
                assert forall|j: int| 0 <= j < after.len() implies (#[trigger] after[j]).alive() by {
                    if !mobs[i].damaged(ev.damage, now).alive() && j >= i {
                        assert(after[j] == mobs[j + 1]);
                    }
                }
            },
            None => {},
        }
    }
}

/// Strikes on live mobs leave only live mobs.
proof fn lemma_events_keep_alive(
    units: Seq<Unit>,
    mobs: Seq<MobEntity>,
    events: Seq<DamageEvent>,
    now: u64,
)
    requires
        all_alive(mobs),
    ensures
        all_alive(resolve_events(units, mobs, events, now).1),
    decreases events.len(),
{
    if events.len() > 0 {
        lemma_events_keep_alive(units, mobs, events.drop_last(), now);
        let m = resolve_events(units, mobs, events.drop_last(), now).1;
        lemma_strike_keeps_alive(m, events.last(), now);
    }
}

/// A resolution pass over live mobs leaves only live mobs: a mob whose health
/// drops to zero or below during the pass is gone from the collection when the
/// pass ends.
pub proof fn lemma_defeated_mobs_removed(units: Seq<Unit>, mobs: Seq<MobEntity>, now: u64)
    requires
        all_alive(mobs),
    ensures
        all_alive(resolved(units, mobs, now).1),
{
    lemma_events_keep_alive(units, mobs, damage_events(units, now as int), now);
}

/// One ready unit with one mob in range: the mob loses exactly the unit's
/// damage (and is removed if that leaves it no health), the unit's clock is
/// reset to `now`, and a second pass at the same `now` changes nothing.
pub proof fn lemma_single_strike(u: Unit, m: MobEntity, now: u64)
    requires
        u.wf(),
        u.ready(now as int),
        u.interval_spec() > 0,
        in_range(m, world_of(u.tile_position), u.range),
        m.current_health - u.damage >= i32::MIN,
    ensures
        resolved(seq![u], seq![m], now).0 == seq![Unit { last_attacked: now, ..u }],
        m.current_health - u.damage > 0 ==> resolved(seq![u], seq![m], now).1.len() == 1
            && resolved(seq![u], seq![m], now).1[0].current_health == m.current_health - u.damage,
        m.current_health - u.damage <= 0 ==> resolved(seq![u], seq![m], now).1.len() == 0,
        resolved(resolved(seq![u], seq![m], now).0, resolved(seq![u], seq![m], now).1, now)
            == resolved(seq![u], seq![m], now),
{
    let units = seq![u];
    let mobs = seq![m];
    let ev = event_of(u);
    assert(units.drop_last() =~= Seq::<Unit>::empty());
    assert(mobs.drop_last() =~= Seq::<MobEntity>::empty());
    reveal_with_fuel(damage_events, 2);
    assert(damage_events(units, now as int) =~= seq![ev]);
    assert(seq![ev].drop_last() =~= Seq::<DamageEvent>::empty());
    reveal_with_fuel(first_index, 2);
    assert(target_index(mobs, ev) == Some(0int));
    assert(unit_index(units, u.tile_position) == Some(0int));
    reveal_with_fuel(resolve_events, 2);
    let (units1, mobs1) = resolved(units, mobs, now);
    assert(units1 =~= seq![Unit { last_attacked: now, ..u }]);
    let hurt = m.damaged(u.damage, now);
    if hurt.alive() {
        assert(mobs1 =~= seq![hurt]);
    } else {
        assert(mobs1 =~= Seq::<MobEntity>::empty());
    }
    assert(units1.drop_last() =~= Seq::<Unit>::empty());
    assert(!units1.last().ready(now as int));
    assert(damage_events(units1, now as int) =~= Seq::<DamageEvent>::empty());
}

} // verus!
