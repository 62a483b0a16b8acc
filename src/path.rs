//! Path planning on the board's grid: the walkable-neighbour relation, A*
//! search between two tiles, and routes joined from several legs.

use vstd::prelude::*;

use crate::board::{in_bounds, lemma_first_index, occupied, unit_index, Board};
use crate::geometry::Point;
use crate::unit::Unit;

verus! {

/// `a` and `b` are distinct tiles that touch, by side or by corner.
pub open spec fn adjacent(a: Point, b: Point) -> bool {
    a != b && -1 <= b.x - a.x <= 1 && -1 <= b.y - a.y <= 1
}

/// A move from `a` to `b` is allowed: `b` touches `a`, lies on the grid and is
/// free of units. Moves across a corner between two occupied tiles are allowed.
pub open spec fn step_ok(width: u32, height: u32, blocked: Set<Point>, a: Point, b: Point) -> bool {
    adjacent(a, b) && in_bounds(width, height, b) && !blocked.contains(b)
}

/// `path` leads from `start` to `goal` by allowed moves.
pub open spec fn is_walk(
    width: u32,
    height: u32,
    blocked: Set<Point>,
    path: Seq<Point>,
    start: Point,
    goal: Point,
) -> bool {
    &&& path.len() > 0
    &&& path[0] == start
    &&& path.last() == goal
    &&& forall|i: int|
        0 <= i < path.len() - 1 ==> #[trigger] step_ok(width, height, blocked, path[i], path[i + 1])
}

/// Some walk leads from `start` to `goal`.
pub open spec fn reachable(
    width: u32,
    height: u32,
    blocked: Set<Point>,
    start: Point,
    goal: Point,
) -> bool {
    exists|path: Seq<Point>| is_walk(width, height, blocked, path, start, goal)
}

/// The path that A* search finds from `start` to `goal` on a grid of `width` by
/// `height` tiles with the tiles of `blocked` occupied, or `None`.
pub uninterp spec fn astar_route(
    width: u32,
    height: u32,
    blocked: Set<Point>,
    start: Point,
    goal: Point,
) -> Option<Seq<Point>>;

/// The route made of the legs found between each pair of `pairs`, in order;
/// `None` as soon as one leg has no path.
pub open spec fn route_of(
    width: u32,
    height: u32,
    blocked: Set<Point>,
    pairs: Seq<(Point, Point)>,
) -> Option<Seq<Point>>
    decreases pairs.len(),
{
    if pairs.len() == 0 {
        Some(Seq::empty())
    } else {
        match (
            route_of(width, height, blocked, pairs.drop_last()),
            astar_route(width, height, blocked, pairs.last().0, pairs.last().1),
        ) {
            (Some(front), Some(leg)) => Some(front + leg),
            _ => None,
        }
    }
}

/// The legs joined in order, or `None` if any leg is missing.
pub open spec fn joined(legs: Seq<Option<Seq<Point>>>) -> Option<Seq<Point>>
    decreases legs.len(),
{
    if legs.len() == 0 {
        Some(Seq::empty())
    } else {
        match (joined(legs.drop_last()), legs.last()) {
            (Some(front), Some(leg)) => Some(front + leg),
            _ => None,
        }
    }
}

/// The views of optional paths.
pub open spec fn legs_view(legs: Seq<Option<Vec<Point>>>) -> Seq<Option<Seq<Point>>> {
    legs.map_values(|l: Option<Vec<Point>>| match l {
        Some(v) => Some(v@),
        None => None,
    })
}

/// The neighbour of `p` in direction `k`, `0 <= k < 8`.
pub open spec fn neighbor(p: Point, k: int) -> (int, int) {
    let dx = if k == 0 || k == 3 || k == 5 {
        -1int
    } else if k == 1 || k == 6 {
        0int
    } else {
        1int
    };
    let dy = if k < 3 {
        -1int
    } else if k < 5 {
        0int
    } else {
        1int
    };
    (p.x + dx, p.y + dy)
}

/// The tile of the neighbour of `p` in direction `k`.
pub open spec fn candidate(p: Point, k: int) -> Point {
    Point { x: neighbor(p, k).0 as i32, y: neighbor(p, k).1 as i32 }
}

/// The neighbour of `p` in direction `k` lies on the grid and a move to it is
/// allowed.
pub open spec fn candidate_ok(width: u32, height: u32, blocked: Set<Point>, p: Point, k: int) -> bool {
    0 <= neighbor(p, k).0 < width && 0 <= neighbor(p, k).1 < height && step_ok(
        width,
        height,
        blocked,
        p,
        candidate(p, k),
    )
}

/// Both coordinates fit an `i32`.
pub open spec fn in_range_i32(c: (int, int)) -> bool {
    i32::MIN <= c.0 <= i32::MAX && i32::MIN <= c.1 <= i32::MAX
}

/// `q` is the neighbour of `p` in a direction below `k`, with coordinates that
/// fit an `i32`.
pub open spec fn from_direction_below(q: Point, p: Point, k: int) -> bool {
    exists|j: int| 0 <= j < k && q == #[trigger] candidate(p, j) && in_range_i32(neighbor(p, j))
}

/// Different directions give different tiles.
proof fn lemma_candidates_differ(p: Point, j: int, k: int)
    requires
        0 <= j < k < 8,
        in_range_i32(neighbor(p, j)),
        in_range_i32(neighbor(p, k)),
    ensures
        candidate(p, j) != candidate(p, k),
{
    assert(neighbor(p, j) != neighbor(p, k));
}

/// No unit stands on `p` exactly when the lookup finds none.
proof fn lemma_unit_index_none(units: Seq<Unit>, p: Point)
    ensures
        unit_index(units, p) is None <==> !occupied(units).contains(p),
{
    lemma_first_index(units, |u: Unit| u.tile_position == p);
}

/// Every tile adjacent to `p` is one of its eight neighbours.
proof fn lemma_adjacent_is_neighbor(p: Point, q: Point)
    requires
        adjacent(p, q),
    ensures
        exists|k: int| 0 <= k < 8 && #[trigger] neighbor(p, k) == (q.x as int, q.y as int),
{
    let dx = q.x - p.x;
    let dy = q.y - p.y;
    let k = if dy == -1 {
        dx + 1
    } else if dy == 0 {
        if dx == -1 {
            3int
        } else {
            4int
        }
    } else {
        dx + 6
    };
    assert(neighbor(p, k) == (q.x as int, q.y as int));
}

/// The distance from `p` to `goal` in moves along the axes.
pub fn manhattan(p: &Point, goal: &Point) -> (r: u64)
    ensures
        r == (if goal.x >= p.x {
            goal.x - p.x
        } else {
            p.x - goal.x
        }) + (if goal.y >= p.y {
            goal.y - p.y
        } else {
            p.y - goal.y
        }),
{
    let dx: i64 = goal.x as i64 - p.x as i64;
    let dy: i64 = goal.y as i64 - p.y as i64;
    let ax: u64 = if dx >= 0 {
        dx as u64
    } else {
        (-dx) as u64
    };
    let ay: u64 = if dy >= 0 {
        dy as u64
    } else {
        (-dy) as u64
    };
    ax + ay
}

/// Whether `p` is the goal.
pub fn at_goal(p: &Point, goal: &Point) -> (r: bool)
    ensures
        r == (*p == *goal),
{
    p.x == goal.x && p.y == goal.y
}

/// A found path with its cost, one per move.
pub fn priced_path(found: Option<Vec<Point>>) -> (r: Option<(Vec<Point>, u64)>)
    ensures
        match found {
            Some(v) => r is Some && r->Some_0.0@ == v@ && r->Some_0.1 == (if v.len() > 0 {
                v.len() - 1
            } else {
                0
            }),
            None => r is None,
        },
{
    match found {
        Some(v) => {
            let cost: u64 = if v.len() > 0 {
                (v.len() - 1) as u64
            } else {
                0
            };
            Some((v, cost))
        },
        None => None,
    }
}

/// The legs joined into one route, or `None` when any leg has no path.
pub fn join_legs(legs: Vec<Option<Vec<Point>>>) -> (r: Option<Vec<Point>>)
    ensures
        match joined(legs_view(legs@)) {
            Some(route) => r is Some && r->Some_0@ == route,
            None => r is None,
        },
{
    let ghost lv = legs_view(legs@);
    let mut route: Vec<Point> = Vec::new();
    let mut i: usize = 0;
    while i < legs.len()
        invariant
            i <= legs.len(),
            lv == legs_view(legs@),
            joined(lv.take(i as int)) == Some(route@),
        decreases legs.len() - i,
    {
        assert(lv.take(i + 1).drop_last() =~= lv.take(i as int));
        match &legs[i] {
            Some(leg) => {
                let mut k: usize = 0;
                let ghost before = route@;
                while k < leg.len()
                    invariant
                        k <= leg.len(),
                        route@ == before + leg@.take(k as int),
                    decreases leg.len() - k,
                {
                    route.push(leg[k]);
                    k += 1;
                    assert(route@ =~= before + leg@.take(k as int));
                }
                assert(leg@.take(k as int) =~= leg@);
            },
            None => {
                proof {
                    lemma_joined_missing(lv, i as int);
                }
                return None;
            },
        }
        i += 1;
    }
    assert(lv.take(i as int) =~= lv);
    Some(route)
}

/// A missing leg leaves the whole route missing.
proof fn lemma_joined_missing(legs: Seq<Option<Seq<Point>>>, i: int)
    requires
        0 <= i < legs.len(),
        legs[i] is None,
    ensures
        joined(legs) is None,
    decreases legs.len(),
{
    if i < legs.len() - 1 {
        assert(legs.drop_last()[i] == legs[i]);
        lemma_joined_missing(legs.drop_last(), i);
    }
}

/// Relies on `pathfinding::directed::astar::astar`, called with this board's
/// `successors`, the Manhattan distance to `goal` as heuristic and equality with
/// `goal` as success test. What it returns is rebuilt from the parent links of
/// the nodes it expanded: it starts at `start`, each node is among the
/// successors of the node before it, and the last node passed the success test.
/// It returns `None` only after every node reachable from `start` was expanded
/// without success. Its search is deterministic: the result depends on the
/// successor lists alone, which depend on the grid size and occupied tiles.
#[verifier::external_body]
fn astar_search(board: &Board, start: &Point, goal: &Point) -> (r: Option<Vec<Point>>)
    requires
        board.grid_wf(),
    ensures
        match r {
            Some(v) => astar_route(board.width, board.height, board.blocked(), *start, *goal)
                == Some(v@),
            None => astar_route(board.width, board.height, board.blocked(), *start, *goal) is None,
        },
        r matches Some(v) ==> is_walk(board.width, board.height, board.blocked(), v@, *start, *goal),
        r is None ==> !reachable(board.width, board.height, board.blocked(), *start, *goal),
{
    pathfinding::directed::astar::astar(
        start,
        |p: &Point| board.successors(p),
        |p: &Point| manhattan(p, goal),
        |p: &Point| at_goal(p, goal),
    ).map(|found: (Vec<Point>, u64)| found.0)
}

impl Board {
    /// The tiles a mob on `point` may move to, each at cost one: the up to eight
    /// touching tiles that lie on the grid and hold no unit.
    pub fn successors(&self, point: &Point) -> (r: Vec<(Point, u64)>)
        requires
            self.grid_wf(),
        ensures
            forall|i: int|
                0 <= i < r.len() ==> (#[trigger] r@[i]).1 == 1 && step_ok(
                    self.width,
                    self.height,
                    self.blocked(),
                    *point,
                    r@[i].0,
                ),
            forall|q: Point|
                step_ok(self.width, self.height, self.blocked(), *point, q) ==> exists|i: int|
                    0 <= i < r.len() && (#[trigger] r@[i]).0 == q,
            r.len() <= 8,
            forall|i: int, j: int|
                0 <= i < j < r.len() ==> (#[trigger] r@[i]).0 != (#[trigger] r@[j]).0,
    {
        let dxs: [i64; 8] = [-1, 0, 1, -1, 1, -1, 0, 1];
        let dys: [i64; 8] = [-1, -1, -1, 0, 0, 1, 1, 1];
        let mut tiles: Vec<(Point, u64)> = Vec::with_capacity(8);
        let mut k: usize = 0;
        while k < 8
            invariant
                k <= 8,
                self.grid_wf(),
                forall|j: int|
                    0 <= j < 8 ==> dxs@[j] as int == neighbor(*point, j).0 - point.x && dys@[j]
                        as int == neighbor(*point, j).1 - point.y,
                forall|i: int|
                    0 <= i < tiles.len() ==> (#[trigger] tiles@[i]).1 == 1 && step_ok(
                        self.width,
                        self.height,
                        self.blocked(),
                        *point,
                        tiles@[i].0,
                    ),
                forall|j: int|
                    0 <= j < k && #[trigger] candidate_ok(
                        self.width,
                        self.height,
                        self.blocked(),
                        *point,
                        j,
                    ) ==> exists|i: int|
                        0 <= i < tiles.len() && (#[trigger] tiles@[i]).0 == candidate(*point, j),
                tiles.len() <= k,
                forall|i: int|
                    0 <= i < tiles.len() ==> #[trigger] from_direction_below(tiles@[i].0, *point, k as int),
                forall|i: int, j: int|
                    0 <= i < j < tiles.len() ==> (#[trigger] tiles@[i]).0 != (#[trigger] tiles@[j]).0,
            decreases 8 - k,
        {
            let ghost entry = tiles@;
            let nx: i64 = point.x as i64 + dxs[k];
            let ny: i64 = point.y as i64 + dys[k];
            if 0 <= nx && nx < self.width as i64 && 0 <= ny && ny < self.height as i64 {
                let q = Point { x: nx as i32, y: ny as i32 };
                assert(q == candidate(*point, k as int));
                let free = self.at_position(&q).is_none();
                proof {
                    lemma_unit_index_none(self.tiles@, q);
                    lemma_first_index(self.tiles@, |u: Unit| u.tile_position == q);
                }
                if free {
                    let ghost before = tiles@;
                    tiles.push((q, 1));
                    assert forall|j: int|
                        0 <= j < k && #[trigger] candidate_ok(
                            self.width,
                            self.height,
                            self.blocked(),
                            *point,
                            j,
                        ) implies exists|i: int|
                        0 <= i < tiles.len() && (#[trigger] tiles@[i]).0 == candidate(
                            *point,
                            j,
                        ) by {
                        let i = choose|i: int|
                            0 <= i < before.len() && (#[trigger] before[i]).0 == candidate(
                                *point,
                                j,
                            );
                        assert(tiles@[i] == before[i]);
                    }
                    assert(tiles@[tiles.len() - 1].0 == q);
                    assert forall|i: int| 0 <= i < tiles.len() implies #[trigger] from_direction_below(
                        tiles@[i].0,
                        *point,
                        k + 1,
                    ) by {
                        if i < before.len() {
                            assert(tiles@[i] == before[i]);
                            assert(from_direction_below(before[i].0, *point, k as int));
                        } else {
                            assert(tiles@[i].0 == candidate(*point, k as int));
                        }
                    }
                    assert forall|i: int, j: int| 0 <= i < j < tiles.len() implies (#[trigger] tiles@[i]).0
                        != (#[trigger] tiles@[j]).0 by {
                        assert(tiles@[i] == before[i]);
                        if j < before.len() {
                            assert(tiles@[j] == before[j]);
                        } else {
                            assert(from_direction_below(before[i].0, *point, k as int));
                            let m = choose|m: int|
                                0 <= m < k && before[i].0 == #[trigger] candidate(*point, m)
                                    && in_range_i32(neighbor(*point, m));
                            lemma_candidates_differ(*point, m, k as int);
                        }
                    }
                }
            } else {
                assert(!candidate_ok(self.width, self.height, self.blocked(), *point, k as int));
            }
            proof {
                if tiles@ == entry {
                    assert forall|i: int| 0 <= i < tiles.len() implies #[trigger] from_direction_below(
                        tiles@[i].0,
                        *point,
                        k + 1,
                    ) by {
                        assert(from_direction_below(entry[i].0, *point, k as int));
                    }
                }
            }
            k += 1;
        }
        proof {
            assert forall|q: Point|
                step_ok(self.width, self.height, self.blocked(), *point, q) implies exists|i: int|
                0 <= i < tiles.len() && (#[trigger] tiles@[i]).0 == q by {
                lemma_adjacent_is_neighbor(*point, q);
                let k = choose|k: int|
                    0 <= k < 8 && #[trigger] neighbor(*point, k) == (q.x as int, q.y as int);
                assert(candidate(*point, k) == q);
                assert(candidate_ok(self.width, self.height, self.blocked(), *point, k));
            }
        }
        tiles
    }

    /// A path from `from` to `goal` and its cost, one per move: `Some` exactly
    /// when a walk over free tiles connects them. The path starts at `from`,
    /// ends at `goal`, and each point touches the one before it.
    pub fn calculate_path(&self, from: &Point, goal: &Point) -> (r: Option<(Vec<Point>, u64)>)
        requires
            self.grid_wf(),
        ensures
            r is Some <==> reachable(self.width, self.height, self.blocked(), *from, *goal),
            match r {
                Some((path, cost)) => {
                    &&& is_walk(self.width, self.height, self.blocked(), path@, *from, *goal)
                    &&& cost == path.len() - 1
                    &&& astar_route(self.width, self.height, self.blocked(), *from, *goal) == Some(
                        path@,
                    )
                },
                None => astar_route(self.width, self.height, self.blocked(), *from, *goal) is None,
            },
    {
        let found = astar_search(self, from, goal);
        priced_path(found)
    }

    /// The route through the legs between each pair of `pairs`, joined in
    /// order; `None` if any leg has no path.
    pub fn find_route(&self, pairs: &Vec<(Point, Point)>) -> (r: Option<Vec<Point>>)
        requires
            self.grid_wf(),
        ensures
            match route_of(self.width, self.height, self.blocked(), pairs@) {
                Some(route) => r is Some && r->Some_0@ == route,
                None => r is None,
            },
    {
        let mut legs: Vec<Option<Vec<Point>>> = Vec::with_capacity(pairs.len());
        let mut i: usize = 0;
        while i < pairs.len()
            invariant
                i <= pairs.len(),
                self.grid_wf(),
                legs.len() == i,
                forall|j: int|
                    0 <= j < i ==> #[trigger] legs_view(legs@)[j] == astar_route(
                        self.width,
                        self.height,
                        self.blocked(),
                        pairs@[j].0,
                        pairs@[j].1,
                    ),
            decreases pairs.len() - i,
        {
            let (start, goal) = pairs[i];
            let leg = match self.calculate_path(&start, &goal) {
                Some((path, _)) => Some(path),
                None => None,
            };
            let ghost before = legs@;
            legs.push(leg);
            assert(legs_view(legs@)[i as int] == astar_route(
                self.width,
                self.height,
                self.blocked(),
                start,
                goal,
            ));
            assert forall|j: int| 0 <= j < i implies #[trigger] legs_view(legs@)[j] == legs_view(
                before,
            )[j] by {
                assert(legs@[j] == before[j]);
            }
            i += 1;
        }
        proof {
            lemma_joined_route(self.width, self.height, self.blocked(), pairs@, legs_view(legs@));
        }
        join_legs(legs)
    }

    /// The route through the board's waypoint pairs.
    pub fn calculate_paths(&self) -> (r: Option<Vec<Point>>)
        requires
            self.grid_wf(),
        ensures
            match route_of(self.width, self.height, self.blocked(), self.waypoints@) {
                Some(route) => r is Some && r->Some_0@ == route,
                None => r is None,
            },
    {
        self.find_route(&self.waypoints)
    }
}

/// Joining the legs found for each pair gives the route of the pairs.
proof fn lemma_joined_route(
    width: u32,
    height: u32,
    blocked: Set<Point>,
    pairs: Seq<(Point, Point)>,
    legs: Seq<Option<Seq<Point>>>,
)
    requires
        legs.len() == pairs.len(),
        forall|j: int|
            0 <= j < legs.len() ==> #[trigger] legs[j] == astar_route(
                width,
                height,
                blocked,
                pairs[j].0,
                pairs[j].1,
            ),
    ensures
        joined(legs) == route_of(width, height, blocked, pairs),
    decreases pairs.len(),
{
    if pairs.len() > 0 {
        let (lp, ll) = (pairs.drop_last(), legs.drop_last());
        assert forall|j: int| 0 <= j < ll.len() implies #[trigger] ll[j] == astar_route(
            width,
            height,
            blocked,
            lp[j].0,
            lp[j].1,
        ) by {
            assert(ll[j] == legs[j]);
            assert(lp[j] == pairs[j]);
        }
        lemma_joined_route(width, height, blocked, lp, ll);
        assert(legs.last() == legs[legs.len() - 1]);
    }
}

/// The route over waypoints `a`, `b`, `c` is the path from `a` to `b` followed
/// by the path from `b` to `c`, and there is none when either leg has no path,
/// whether or not the other has one.
pub proof fn lemma_route_concatenates(
    width: u32,
    height: u32,
    blocked: Set<Point>,
    a: Point,
    b: Point,
    c: Point,
)
    ensures
        route_of(width, height, blocked, seq![(a, b), (b, c)]) == (match (
            astar_route(width, height, blocked, a, b),
            astar_route(width, height, blocked, b, c),
        ) {
            (Some(first), Some(second)) => Some(first + second),
            _ => None,
        }),
{
    let pairs = seq![(a, b), (b, c)];
    assert(pairs.drop_last() =~= seq![(a, b)]);
    assert(seq![(a, b)].drop_last() =~= Seq::<(Point, Point)>::empty());
    reveal_with_fuel(route_of, 3);
    match astar_route(width, height, blocked, a, b) {
        Some(first) => {
            assert(Seq::<Point>::empty() + first =~= first);
        },
        None => {},
    }
}

} // verus!
