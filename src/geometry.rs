//! Points on the integer plane, squared distances, floor square roots and
//! linear interpolation truncated toward the start point.
use vstd::prelude::*;

verus! {

/// The largest absolute value a coordinate may take.
pub const COORD_LIMIT: i64 = 4294967296;

/// A point of the plane, in pixels.
#[derive(Clone, Copy, Debug, PartialEq, Eq, Structural)]
pub struct Point {
    pub x: i64,
    pub y: i64,
}

/// Both coordinates lie within `COORD_LIMIT` of the origin.
pub open spec fn in_bounds(p: Point) -> bool {
    &&& -COORD_LIMIT <= p.x <= COORD_LIMIT
    &&& -COORD_LIMIT <= p.y <= COORD_LIMIT
}

/// Squared Euclidean distance between two points.
pub open spec fn dist_sq(a: Point, b: Point) -> int {
    (a.x - b.x) * (a.x - b.x) + (a.y - b.y) * (a.y - b.y)
}

/// `r` is the floor of the square root of `n`.
pub open spec fn is_floor_sqrt(n: int, r: int) -> bool {
    0 <= r && r * r <= n < (r + 1) * (r + 1)
}

/// The floor of the square root of a non-negative integer.
pub open spec fn floor_sqrt(n: int) -> int {
    choose|r: int| is_floor_sqrt(n, r)
}

/// Euclidean distance between two points, rounded down.
pub open spec fn distance(a: Point, b: Point) -> int {
    floor_sqrt(dist_sq(a, b))
}

/// The point `c / d` of the way from `a` to `b` on one axis, rounded toward
/// `a`; `a` itself when `d` is zero.
pub open spec fn lerp_int(a: int, b: int, c: int, d: int) -> int {
    if d == 0 {
        a
    } else if a <= b {
        a + (b - a) * c / d
    } else {
        a - (a - b) * c / d
    }
}

/// The point `c / d` of the way from `a` to `b`, each axis rounded toward `a`.
pub open spec fn lerp(a: Point, b: Point, c: int, d: int) -> Point {
    Point {
        x: lerp_int(a.x as int, b.x as int, c, d) as i64,
        y: lerp_int(a.y as int, b.y as int, c, d) as i64,
    }
}

/// The floor square root is unique, so `floor_sqrt` picks the one given.
pub proof fn lemma_floor_sqrt_unique(n: int, r: int)
    requires
        is_floor_sqrt(n, r),
    ensures
        floor_sqrt(n) == r,
{
    let s = floor_sqrt(n);
    assert(is_floor_sqrt(n, s));
    if s < r {
        assert((s + 1) * (s + 1) <= r * r) by (nonlinear_arith)
            requires
                0 <= s < r,
        ;
    } else if r < s {
        assert((r + 1) * (r + 1) <= s * s) by (nonlinear_arith)
            requires
                0 <= r < s,
        ;
    }
}

/// The squared distance between two points is never negative.
pub proof fn lemma_dist_sq_nonneg(a: Point, b: Point)
    ensures
        dist_sq(a, b) >= 0,
{
    let dx = a.x - b.x;
    let dy = a.y - b.y;
    assert(dx * dx >= 0 && dy * dy >= 0) by (nonlinear_arith);
}

/// Every non-negative integer has a floor square root.
pub proof fn lemma_floor_sqrt_exists(n: int)
    requires
        0 <= n,
    ensures
        is_floor_sqrt(n, floor_sqrt(n)),
    decreases n,
{
    if n == 0 {
        assert(is_floor_sqrt(0, 0));
    } else {
        lemma_floor_sqrt_exists(n - 1);
        let r = floor_sqrt(n - 1);
        if (r + 1) * (r + 1) <= n {
            assert((r + 2) * (r + 2) > n) by (nonlinear_arith)
                requires
                    0 <= r,
                    n - 1 < (r + 1) * (r + 1),
            ;
            assert(is_floor_sqrt(n, r + 1));
        } else {
            assert(is_floor_sqrt(n, r));
        }
    }
}

/// The distance between two points in bounds is at most 2^34.
pub proof fn lemma_distance_bound(a: Point, b: Point)
    requires
        in_bounds(a),
        in_bounds(b),
    ensures
        0 <= distance(a, b) <= 0x4_0000_0000,
{
    lemma_dist_sq_nonneg(a, b);
    let n = dist_sq(a, b);
    let dx = a.x - b.x;
    let dy = a.y - b.y;
    assert(n <= 0x8_0000_0000_0000_0000) by (nonlinear_arith)
        requires
            n == dx * dx + dy * dy,
            -0x2_0000_0000 <= dx <= 0x2_0000_0000,
            -0x2_0000_0000 <= dy <= 0x2_0000_0000,
    ;
    lemma_floor_sqrt_exists(n);
    let r = floor_sqrt(n);
    if r > 0x4_0000_0000 {
        assert(r * r > 0x10_0000_0000_0000_0000) by (nonlinear_arith)
            requires
                r > 0x4_0000_0000,
        ;
    }
}

/// The floor of the square root of `n`.
pub fn isqrt(n: u128) -> (r: u64)
    requires
        n < 0x1_0000_0000_0000_0000_0,
    ensures
        is_floor_sqrt(n as int, r as int),
        r as int == floor_sqrt(n as int),
        r <= 0x4_0000_0000,
{
    let mut lo: u128 = 0;
    let mut hi: u128 = 0x4_0000_0000;
    assert(hi * hi == 0x10_0000_0000_0000_0000) by (nonlinear_arith)
        requires
            hi == 0x4_0000_0000,
    ;
    while hi - lo > 1
        invariant
            lo < hi <= 0x4_0000_0000,
            lo * lo <= n,
            n < hi * hi,
        decreases hi - lo,
    {
        let mid = lo + (hi - lo) / 2;
        assert(mid * mid <= 0x10_0000_0000_0000_0000) by (nonlinear_arith)
            requires
                mid <= 0x4_0000_0000,
        ;
        if mid * mid <= n {
            lo = mid;
        } else {
            hi = mid;
        }
    }
    assert(hi == lo + 1);
    proof {
        lemma_floor_sqrt_unique(n as int, lo as int);
    }
    lo as u64
}

/// How far the share `c / d` of a non-negative span `span` reaches, rounded
/// down: never negative and never past the span.
proof fn lemma_share_of_span(span: int, c: int, d: int)
    requires
        0 <= span,
        0 <= c <= d,
        0 < d,
    ensures
        0 <= span * c / d <= span,
{
    vstd::arithmetic::mul::lemma_mul_inequality(c, d, span);
    assert(span * c <= span * d && span * c >= 0) by (nonlinear_arith)
        requires
            c * span <= d * span,
            0 <= span,
            0 <= c,
    ;
    vstd::arithmetic::div_mod::lemma_div_is_ordered(span * c, span * d, d);
    vstd::arithmetic::div_mod::lemma_div_multiples_vanish(span, d);
    assert(d * span == span * d) by (nonlinear_arith);
    vstd::arithmetic::div_mod::lemma_div_pos_is_pos(span * c, d);
}

/// The interpolated coordinate lies between its two ends.
pub proof fn lemma_lerp_int_between(a: int, b: int, c: int, d: int)
    requires
        0 <= c <= d,
    ensures
        a <= b ==> a <= lerp_int(a, b, c, d) <= b,
        b < a ==> b <= lerp_int(a, b, c, d) <= a,
{
    if d != 0 {
        if a <= b {
            lemma_share_of_span(b - a, c, d);
        } else {
            lemma_share_of_span(a - b, c, d);
        }
    }
}

/// The coordinate `c / d` of the way from `a` to `b`, rounded toward `a`.
pub fn lerp_coord(a: i64, b: i64, c: u64, d: u64) -> (r: i64)
    requires
        -COORD_LIMIT <= a <= COORD_LIMIT,
        -COORD_LIMIT <= b <= COORD_LIMIT,
        c <= d,
    ensures
        r == lerp_int(a as int, b as int, c as int, d as int),
{
    proof {
        lemma_lerp_int_between(a as int, b as int, c as int, d as int);
    }
    if d == 0 {
        a
    } else if a <= b {
        let span = (b - a) as u128;
        assert(span * (c as u128) < 0x10_0000_0000_0000_0000_0000_0000) by (nonlinear_arith)
            requires
                span <= 0x2_0000_0000,
                c < 0x1_0000_0000_0000_0000,
        ;
        let off = span * (c as u128) / (d as u128);
        a + off as i64
    } else {
        let span = (a - b) as u128;
        assert(span * (c as u128) < 0x10_0000_0000_0000_0000_0000_0000) by (nonlinear_arith)
            requires
                span <= 0x2_0000_0000,
                c < 0x1_0000_0000_0000_0000,
        ;
        let off = span * (c as u128) / (d as u128);
        a - off as i64
    }
}

/// The point `c / d` of the way from `a` to `b`, each axis rounded toward `a`.
pub fn lerp_point(a: Point, b: Point, c: u64, d: u64) -> (r: Point)
    requires
        in_bounds(a),
        in_bounds(b),
        c <= d,
    ensures
        r == lerp(a, b, c as int, d as int),
        in_bounds(r),
{
    proof {
        lemma_lerp_int_between(a.x as int, b.x as int, c as int, d as int);
        lemma_lerp_int_between(a.y as int, b.y as int, c as int, d as int);
    }
    Point { x: lerp_coord(a.x, b.x, c, d), y: lerp_coord(a.y, b.y, c, d) }
}

/// The squared distance between two points in bounds.
pub fn distance_squared(a: Point, b: Point) -> (r: u128)
    requires
        in_bounds(a),
        in_bounds(b),
    ensures
        r as int == dist_sq(a, b),
        r <= 0x8_0000_0000_0000_0000,
{
    let dx = (a.x as i128 - b.x as i128);
    let dy = (a.y as i128 - b.y as i128);
    let ax: u128 = if dx < 0 { (-dx) as u128 } else { dx as u128 };
    let ay: u128 = if dy < 0 { (-dy) as u128 } else { dy as u128 };
    assert(ax * ax <= 0x4_0000_0000_0000_0000 && ay * ay <= 0x4_0000_0000_0000_0000)
        by (nonlinear_arith)
        requires
            ax <= 0x2_0000_0000,
            ay <= 0x2_0000_0000,
    ;
    assert(ax * ax == dx * dx && ay * ay == dy * dy) by (nonlinear_arith)
        requires
            ax == dx || ax == -dx,
            ay == dy || ay == -dy,
    ;
    ax * ax + ay * ay
}

/// The distance between two points in bounds, rounded down.
pub fn distance_between(a: Point, b: Point) -> (r: u64)
    requires
        in_bounds(a),
        in_bounds(b),
    ensures
        r as int == distance(a, b),
        r <= 0x4_0000_0000,
{
    isqrt(distance_squared(a, b))
}

} // verus!
