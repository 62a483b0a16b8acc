//! The board: grid bounds, the placed units, the live mobs and their route.

use vstd::prelude::*;

use crate::combat::resolved;
use crate::geometry::Point;
use crate::mob::{MobDefinition, MobEntity, MobEntityStatus};
use crate::path::route_of;
use crate::unit::Unit;

verus! {

/// Width of the default board, in tiles.
pub const BOARD_WIDTH: u32 = 40;

/// Height of the default board, in tiles.
pub const BOARD_HEIGHT: u32 = 40;

/// The aggregate that owns the grid's units, the live mobs and their route.
pub struct Board {
    /// Grid width in tiles.
    pub width: u32,
    /// Grid height in tiles.
    pub height: u32,
    /// The placed units, each on its own tile.
    pub tiles: Vec<Unit>,
    /// The live mobs, in storage order.
    pub mobs: Vec<MobEntity>,
    /// The tile where mobs spawn.
    pub spawn_tile: Point,
    /// The route that mobs walk, one tile after another.
    pub route: Vec<Point>,
    /// The (start, goal) pairs whose paths, joined, make up the route.
    pub waypoints: Vec<(Point, Point)>,
}

/// Why a unit could not be placed.
#[derive(Clone, Copy, Debug, PartialEq, Eq, Structural)]
pub enum PlacementError {
    /// Another unit stands on the tile.
    Occupied,
    /// The tile lies outside the grid.
    OutOfBounds,
}

/// The mob after its route cursor moved on by one (stopping at the largest
/// `u32`): walking toward the next route tile if there is one, otherwise left
/// where its path finished.
pub open spec fn advanced(m: MobEntity, route: Seq<Point>) -> MobEntity {
    let next = if m.path_index < u32::MAX {
        (m.path_index + 1) as u32
    } else {
        m.path_index
    };
    if next < route.len() {
        MobEntity {
            path_index: next,
            destination: route[next as int],
            status: MobEntityStatus::Walking,
            ..m
        }
    } else {
        MobEntity { path_index: next, ..m }
    }
}

/// The mob after the movement part of a tick of `dt` ms: it moves, and if that
/// finished its path it turns to the next tile of `route`.
pub open spec fn moved_mob(m: MobEntity, dt: u32, route: Seq<Point>) -> MobEntity {
    let u = m.updated(dt);
    if m.status == MobEntityStatus::Walking && u.status == MobEntityStatus::FinishedPath {
        advanced(u, route)
    } else {
        u
    }
}

/// The first index of `s` whose element satisfies `f`.
pub open spec fn first_index<T>(s: Seq<T>, f: spec_fn(T) -> bool) -> Option<int>
    decreases s.len(),
{
    if s.len() == 0 {
        None
    } else {
        match first_index(s.drop_last(), f) {
            Some(i) => Some(i),
            None => if f(s.last()) {
                Some(s.len() - 1)
            } else {
                None
            },
        }
    }
}

/// `first_index` finds the smallest satisfying index, or none when no element
/// satisfies `f`.
pub proof fn lemma_first_index<T>(s: Seq<T>, f: spec_fn(T) -> bool)
    ensures
        match first_index(s, f) {
            Some(i) => 0 <= i < s.len() && f(s[i]) && forall|j: int| 0 <= j < i ==> !f(#[trigger] s[j]),
            None => forall|j: int| 0 <= j < s.len() ==> !f(#[trigger] s[j]),
        },
    decreases s.len(),
{
    if s.len() > 0 {
        lemma_first_index(s.drop_last(), f);
        assert forall|j: int| 0 <= j < s.len() - 1 implies s[j] == s.drop_last()[j] by {}
    }
}

/// The index of the first unit standing on `p`.
pub open spec fn unit_index(units: Seq<Unit>, p: Point) -> Option<int> {
    first_index(units, |u: Unit| u.tile_position == p)
}

/// Whether `p` lies on a grid of `width` by `height` tiles.
pub open spec fn in_bounds(width: u32, height: u32, p: Point) -> bool {
    0 <= p.x < width && 0 <= p.y < height
}

/// The tiles on which a unit stands.
pub open spec fn occupied(units: Seq<Unit>) -> Set<Point> {
    Set::new(|p: Point| exists|i: int| 0 <= i < units.len() && (#[trigger] units[i]).tile_position == p)
}

impl Board {
    /// Grid dimensions fit tile coordinates.
    pub open spec fn grid_wf(self) -> bool {
        self.width <= i32::MAX && self.height <= i32::MAX
    }

    /// Grid dimensions fit tile coordinates; every unit stands in bounds on a
    /// tile of its own and has a positive attack speed; every mob is
    /// well formed.
    pub open spec fn wf(self) -> bool {
        &&& self.grid_wf()
        &&& forall|i: int|
            0 <= i < self.tiles.len() ==> #[trigger] self.tiles[i].wf() && in_bounds(
                self.width,
                self.height,
                self.tiles[i].tile_position,
            )
        &&& forall|i: int, j: int|
            0 <= i < self.tiles.len() && 0 <= j < self.tiles.len() && i != j
                ==> #[trigger] self.tiles[i].tile_position != #[trigger] self.tiles[j].tile_position
        &&& forall|i: int| 0 <= i < self.mobs.len() ==> #[trigger] self.mobs[i].wf()
    }

    /// The set of occupied tiles.
    pub open spec fn blocked(self) -> Set<Point> {
        occupied(self.tiles@)
    }

    /// The index of the first unit standing on `coordinates`.
    pub fn position_index(&self, coordinates: &Point) -> (r: Option<usize>)
        ensures
            match r {
                Some(i) => unit_index(self.tiles@, *coordinates) == Some(i as int) && i
                    < self.tiles.len(),
                None => unit_index(self.tiles@, *coordinates) is None,
            },
    {
        let mut i: usize = 0;
        while i < self.tiles.len()
            invariant
                i <= self.tiles.len(),
                unit_index(self.tiles@.take(i as int), *coordinates) is None,
            decreases self.tiles.len() - i,
        {
            assert(self.tiles@.take(i + 1).drop_last() =~= self.tiles@.take(i as int));
            if self.tiles[i].tile_position.x == coordinates.x && self.tiles[i].tile_position.y
                == coordinates.y {
                proof {
                    reveal_with_fuel(first_index, 2);
                }
                assert(unit_index(self.tiles@.take(i + 1), *coordinates) == Some(i as int));
                proof {
                    lemma_prefix_index(self.tiles@, *coordinates, i + 1);
                }
                return Some(i);
            }
            i += 1;
        }
        assert(self.tiles@.take(i as int) =~= self.tiles@);
        None
    }

    /// Whether a unit stands on `coordinates`.
    pub fn is_occupied(&self, coordinates: &Point) -> (r: bool)
        ensures
            r == self.blocked().contains(*coordinates),
    {
        proof {
            lemma_first_index(self.tiles@, |u: Unit| u.tile_position == *coordinates);
        }
        self.position_index(coordinates).is_some()
    }

    /// The unit standing on `coordinates`, if any.
    pub fn at_position(&self, coordinates: &Point) -> (r: Option<&Unit>)
        ensures
            r == (match unit_index(self.tiles@, *coordinates) {
                Some(i) => Some(&self.tiles@[i]),
                None => None::<&Unit>,
            }),
    {
        match self.position_index(coordinates) {
            Some(i) => {
                let u = &self.tiles[i];
                assert(*u == self.tiles@[i as int]);
                Some(u)
            },
            None => None,
        }
    }

    /// The unit standing on `coordinates`, if any, for changing it in place.
    pub fn at_position_mut(&mut self, coordinates: &Point) -> (r: Option<&mut Unit>)
        ensures
            match unit_index(old(self).tiles@, *coordinates) {
                Some(i) => r is Some && *r->Some_0 == old(self).tiles@[i] && final(self).tiles@
                    == old(self).tiles@.update(i, *final(r->Some_0)),
                None => r is None && *final(self) == *old(self),
            },
            final(self).width == old(self).width,
            final(self).height == old(self).height,
            final(self).mobs == old(self).mobs,
            final(self).spawn_tile == old(self).spawn_tile,
            final(self).route == old(self).route,
            final(self).waypoints == old(self).waypoints,
    {
        match self.position_index(coordinates) {
            Some(i) => {
                Some(&mut self.tiles[i])
            },
            None => None,
        }
    }
}

/// The first match within a prefix is the first match of the whole sequence.
proof fn lemma_prefix_index(units: Seq<Unit>, p: Point, n: int)
    requires
        0 <= n <= units.len(),
        unit_index(units.take(n), p) is Some,
    ensures
        unit_index(units, p) == unit_index(units.take(n), p),
{
    let f = |u: Unit| u.tile_position == p;
    lemma_first_index(units.take(n), f);
    lemma_first_index(units, f);
    let i = unit_index(units.take(n), p)->Some_0;
    assert(units.take(n)[i] == units[i]);
    match unit_index(units, p) {
        Some(k) => {
            if k < i {
                assert(units.take(n)[k] == units[k]);
            }
        },
        None => {},
    }
}

impl Board {
    /// An empty board of `width` by `height` tiles whose mobs spawn on
    /// `spawn_tile` and whose route runs through the pairs of `waypoints`.
    pub fn new(width: u32, height: u32, spawn_tile: Point, waypoints: Vec<(Point, Point)>) -> (r:
        Board)
        requires
            width <= i32::MAX,
            height <= i32::MAX,
        ensures
            r.wf(),
            r.width == width,
            r.height == height,
            r.spawn_tile == spawn_tile,
            r.waypoints@ == waypoints@,
            r.tiles@.len() == 0,
            r.mobs@.len() == 0,
            r.route@.len() == 0,
    {
        Board {
            width,
            height,
            tiles: Vec::new(),
            mobs: Vec::new(),
            spawn_tile,
            route: Vec::new(),
            waypoints,
        }
    }

    /// Places `unit` on tile `at`: refused with `OutOfBounds` for a tile off the
    /// grid and with `Occupied` for a tile that holds a unit, leaving the board
    /// unchanged; otherwise the unit joins the board on that tile.
    pub fn place_unit(&mut self, unit: Unit, at: Point) -> (r: Result<(), PlacementError>)
        requires
            old(self).wf(),
            unit.wf(),
        ensures
            final(self).wf(),
            !in_bounds(old(self).width, old(self).height, at) ==> r == Err::<(), PlacementError>(
                PlacementError::OutOfBounds,
            ) && *final(self) == *old(self),
            in_bounds(old(self).width, old(self).height, at) && old(self).blocked().contains(at)
                ==> r == Err::<(), PlacementError>(PlacementError::Occupied) && *final(self)
                == *old(self),
            in_bounds(old(self).width, old(self).height, at) && !old(self).blocked().contains(at)
                ==> r == Ok::<(), PlacementError>(()) && final(self).tiles@ == old(
                self,
            ).tiles@.push(Unit { tile_position: at, ..unit }) && final(self).mobs == old(self).mobs
                && final(self).width == old(self).width && final(self).height == old(self).height
                && final(self).spawn_tile == old(self).spawn_tile && final(self).route == old(
                self,
            ).route && final(self).waypoints == old(self).waypoints,
    {
        if at.x < 0 || at.y < 0 || at.x as i64 >= self.width as i64 || at.y as i64
            >= self.height as i64 {
            return Err(PlacementError::OutOfBounds);
        }
        proof {
            lemma_first_index(self.tiles@, |u: Unit| u.tile_position == at);
        }
        if self.position_index(&at).is_some() {
            return Err(PlacementError::Occupied);
        }
        let mut placed = unit;
        placed.tile_position = at;
        let ghost before = self.tiles@;
        self.tiles.push(placed);
        proof {
            assert forall|i: int| 0 <= i < before.len() implies self.tiles@[i] == before[i] by {}
            assert(!occupied(before).contains(at));
        }
        Ok(())
    }

    /// Spawns a mob from `definition` on the spawn tile, walking toward the
    /// first tile of the route (or staying on the spawn tile if the route is
    /// empty).
    pub fn spawn_mob(&mut self, definition: &MobDefinition, now: u64)
        requires
            old(self).wf(),
        ensures
            final(self).wf(),
            final(self).mobs@ == old(self).mobs@.push(
                MobEntity::spawned(
                    *definition,
                    old(self).spawn_tile,
                    if old(self).route.len() > 0 {
                        old(self).route@[0]
                    } else {
                        old(self).spawn_tile
                    },
                    now,
                ),
            ),
            final(self).tiles == old(self).tiles,
            final(self).width == old(self).width,
            final(self).height == old(self).height,
            final(self).spawn_tile == old(self).spawn_tile,
            final(self).route == old(self).route,
            final(self).waypoints == old(self).waypoints,
    {
        let destination = if self.route.len() > 0 {
            self.route[0]
        } else {
            self.spawn_tile
        };
        let mob = MobEntity::spawn(definition, self.spawn_tile, destination, now);
        self.mobs.push(mob);
        proof {
            assert forall|i: int| 0 <= i < self.mobs.len() implies #[trigger] self.mobs[i].wf() by {
                if i < old(self).mobs.len() {
                    assert(self.mobs@[i] == old(self).mobs@[i]);
                }
            }
        }
    }

    /// Computes the route through the waypoint pairs and, if every leg has a
    /// path, makes it the board's route. Returns whether it did.
    pub fn plan_route(&mut self) -> (r: bool)
        requires
            old(self).wf(),
        ensures
            final(self).wf(),
            r == route_of(old(self).width, old(self).height, old(self).blocked(), old(self).waypoints@) is Some,
            r ==> final(self).route@ == route_of(
                old(self).width,
                old(self).height,
                old(self).blocked(),
                old(self).waypoints@,
            )->Some_0,
            !r ==> final(self).route == old(self).route,
            final(self).tiles == old(self).tiles,
            final(self).mobs == old(self).mobs,
            final(self).width == old(self).width,
            final(self).height == old(self).height,
            final(self).spawn_tile == old(self).spawn_tile,
            final(self).waypoints == old(self).waypoints,
    {
        match self.calculate_paths() {
            Some(route) => {
                self.route = route;
                true
            },
            None => false,
        }
    }

    /// One simulation step of `dt` ms ending at `now`: every mob moves; a mob
    /// whose move finished its path turns to the next route tile, if any; then
    /// combat is resolved.
    pub fn tick(&mut self, dt: u32, now: u64)
        requires
            old(self).wf(),
        ensures
            final(self).wf(),
            (final(self).tiles@, final(self).mobs@) == resolved(
                old(self).tiles@,
                old(self).mobs@.map_values(|m: MobEntity| moved_mob(m, dt, old(self).route@)),
                now,
            ),
            final(self).width == old(self).width,
            final(self).height == old(self).height,
            final(self).spawn_tile == old(self).spawn_tile,
            final(self).route == old(self).route,
            final(self).waypoints == old(self).waypoints,
    {
        let ghost moved = old(self).mobs@.map_values(|m: MobEntity| moved_mob(m, dt, old(self).route@));
        let mut i: usize = 0;
        while i < self.mobs.len()
            invariant
                self.wf(),
                i <= self.mobs.len(),
                self.mobs.len() == old(self).mobs.len(),
                moved == old(self).mobs@.map_values(|m: MobEntity| moved_mob(m, dt, old(self).route@)),
                forall|j: int| 0 <= j < i ==> self.mobs@[j] == moved[j],
                forall|j: int| i <= j < self.mobs.len() ==> self.mobs@[j] == old(self).mobs@[j],
                self.tiles == old(self).tiles,
                self.width == old(self).width,
                self.height == old(self).height,
                self.spawn_tile == old(self).spawn_tile,
                self.route == old(self).route,
                self.waypoints == old(self).waypoints,
            decreases self.mobs.len() - i,
        {
            let mut m = self.mobs[i];
            let walking = m.status == MobEntityStatus::Walking;
            m.update(dt);
            if walking && m.status == MobEntityStatus::FinishedPath {
                let next: u32 = if m.path_index < u32::MAX {
                    m.path_index + 1
                } else {
                    m.path_index
                };
                if (next as usize) < self.route.len() {
                    m.destination = self.route[next as usize];
                    m.status = MobEntityStatus::Walking;
                }
                m.path_index = next;
            }
            assert(m == moved[i as int]);
            self.mobs.set(i, m);
            i += 1;
        }
        assert(self.mobs@ =~= moved);
        self.update(now);
    }
}

impl Default for Board {
    /// A 40 by 40 board whose mobs spawn on tile (5, 5) and patrol through
    /// (5, 19), (33, 19), (33, 5), (19, 5), (19, 33) and (33, 33).
    fn default() -> (r: Board)
        ensures
            r.wf(),
            r.width == BOARD_WIDTH,
            r.height == BOARD_HEIGHT,
            r.spawn_tile == (Point { x: 5, y: 5 }),
            r.waypoints@ == seq![
                (Point { x: 5, y: 19 }, Point { x: 33, y: 19 }),
                (Point { x: 33, y: 19 }, Point { x: 33, y: 5 }),
                (Point { x: 33, y: 5 }, Point { x: 19, y: 5 }),
                (Point { x: 19, y: 5 }, Point { x: 19, y: 33 }),
                (Point { x: 19, y: 33 }, Point { x: 33, y: 33 }),
            ],
            r.tiles@.len() == 0,
            r.mobs@.len() == 0,
            r.route@.len() == 0,
    {
        let waypoints = vec![
            (Point::new(5, 19), Point::new(33, 19)),
            (Point::new(33, 19), Point::new(33, 5)),
            (Point::new(33, 5), Point::new(19, 5)),
            (Point::new(19, 5), Point::new(19, 33)),
            (Point::new(19, 33), Point::new(33, 33)),
        ];
        Board::new(BOARD_WIDTH, BOARD_HEIGHT, Point::new(5, 5), waypoints)
    }
}

} // verus!
