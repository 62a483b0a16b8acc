//! Tile coordinates, world positions and the integer arithmetic between them.

use vstd::prelude::*;

verus! {

/// World units along one side of a tile (a thousandth of a pixel each, with
/// tiles sixteen pixels wide).
pub const TILE_SIZE: i64 = 16_000;

/// Largest absolute value a world coordinate may take; every tile with `i32`
/// coordinates lies well inside it.
pub const WORLD_LIMIT: i64 = 0x1_0000_0000_0000;

/// An integer (x, y) pair addressing one grid cell.
#[derive(Clone, Copy, Debug, PartialEq, Eq, Hash, Structural)]
pub struct Point {
    pub x: i32,
    pub y: i32,
}

/// A position in world units.
#[derive(Clone, Copy, Debug, PartialEq, Eq, Hash, Structural)]
pub struct WorldPoint {
    pub x: i64,
    pub y: i64,
}

impl Point {
    pub fn new(x: i32, y: i32) -> (r: Point)
        ensures
            r.x == x,
            r.y == y,
    {
        Point { x, y }
    }
}

impl WorldPoint {
    pub fn new(x: i64, y: i64) -> (r: WorldPoint)
        ensures
            r.x == x,
            r.y == y,
    {
        WorldPoint { x, y }
    }

    /// Both coordinates lie within `WORLD_LIMIT`.
    pub open spec fn in_world(self) -> bool {
        -WORLD_LIMIT <= self.x <= WORLD_LIMIT && -WORLD_LIMIT <= self.y <= WORLD_LIMIT
    }
}

/// The world position of a tile's origin.
pub open spec fn world_of(p: Point) -> WorldPoint {
    WorldPoint { x: (p.x * TILE_SIZE) as i64, y: (p.y * TILE_SIZE) as i64 }
}

/// Squared Euclidean distance between two world positions.
pub open spec fn dist_sq(a: WorldPoint, b: WorldPoint) -> int {
    (b.x - a.x) * (b.x - a.x) + (b.y - a.y) * (b.y - a.y)
}

/// `r` is the integer square root of `n`: the largest `r` with `r * r <= n`.
pub open spec fn is_root(n: int, r: int) -> bool {
    0 <= r && r * r <= n < (r + 1) * (r + 1)
}

/// The integer square root of `n`.
pub open spec fn floor_sqrt(n: nat) -> nat {
    choose|r: nat| is_root(n as int, r as int)
}

/// Two integer square roots of one number are equal.
pub proof fn lemma_root_unique(n: int, r: int, s: int)
    requires
        is_root(n, r),
        is_root(n, s),
    ensures
        r == s,
{
    if r < s {
        assert((r + 1) * (r + 1) <= s * s) by (nonlinear_arith)
            requires
                0 <= r,
                r + 1 <= s,
        ;
    } else if s < r {
        assert((s + 1) * (s + 1) <= r * r) by (nonlinear_arith)
            requires
                0 <= s,
                s + 1 <= r,
        ;
    }
}

/// The integer square root, by bisection.
pub fn isqrt(n: u128) -> (r: u128)
    ensures
        is_root(n as int, r as int),
        r == floor_sqrt(n as nat),
{
    // The root lies in [lo, hi): lo * lo <= n < hi * hi.
    let mut lo: u128 = 0;
    let mut hi: u128 = 0x1_0000_0000_0000_0000;
    assert(hi * hi > n) by (nonlinear_arith)
        requires
            hi == 0x1_0000_0000_0000_0000u128,
            n <= u128::MAX,
    ;
    while hi - lo > 1
        invariant
            lo < hi <= 0x1_0000_0000_0000_0000u128,
            lo * lo <= n,
            n < hi * hi,
        decreases hi - lo,
    {
        let mid: u128 = lo + (hi - lo) / 2;
        assert(mid * mid <= u128::MAX) by (nonlinear_arith)
            requires
                mid < 0x1_0000_0000_0000_0000u128,
        ;
        if mid * mid <= n {
            lo = mid;
        } else {
            hi = mid;
        }
    }
    assert(hi == lo + 1);
    proof {
        let ghost w = floor_sqrt(n as nat);
        assert(is_root(n as int, lo as int));
        assert(is_root(n as int, w as int));
        lemma_root_unique(n as int, lo as int, w as int);
    }
    lo
}

/// The world position of a tile's origin.
pub fn to_world(p: Point) -> (r: WorldPoint)
    ensures
        r == world_of(p),
        r.in_world(),
{
    WorldPoint { x: p.x as i64 * TILE_SIZE, y: p.y as i64 * TILE_SIZE }
}

/// Squared Euclidean distance between two positions inside the world.
pub fn distance_squared(a: WorldPoint, b: WorldPoint) -> (r: u128)
    requires
        a.in_world(),
        b.in_world(),
    ensures
        r == dist_sq(a, b),
{
    let dx: i128 = b.x as i128 - a.x as i128;
    let dy: i128 = b.y as i128 - a.y as i128;
    assert(0 <= dx * dx <= 0x4_0000_0000_0000_0000_0000_0000) by (nonlinear_arith)
        requires
            -0x2_0000_0000_0000 <= dx <= 0x2_0000_0000_0000,
    ;
    assert(0 <= dy * dy <= 0x4_0000_0000_0000_0000_0000_0000) by (nonlinear_arith)
        requires
            -0x2_0000_0000_0000 <= dy <= 0x2_0000_0000_0000,
    ;
    (dx * dx + dy * dy) as u128
}

} // verus!
