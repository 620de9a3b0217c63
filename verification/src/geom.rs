//! Geometry in micro-units: points, the integer square root, the length
//! of a segment, and the four corners of the one-unit-wide rectangle laid
//! along a segment.

use vstd::prelude::*;

verus! {

/// Bound on any coordinate a path builder holds, in micro-units.
pub const POINT_LIMIT: i64 = 3000000000000000;

/// Bound on the coordinates of the sub-paths a builder accumulates
/// itself; only single-line sub-paths within it are rewritten to thin
/// rectangles.
pub const SEGMENT_LIMIT: i64 = 2500000000000000;

/// A point of the internal page space, in micro-units.
#[derive(Debug, Clone, Copy, PartialEq, Eq, Structural)]
pub struct Point {
    pub x: i64,
    pub y: i64,
}

/// A displacement or a point of the source page space, in micro-units.
pub type Vector = Point;

/// Builds a point.
pub fn point(x: i64, y: i64) -> (r: Point)
    ensures
        r.x == x,
        r.y == y,
{
    Point { x, y }
}

/// Both coordinates within `limit`.
pub open spec fn spec_in_bounds(p: Point, limit: int) -> bool {
    -limit <= p.x <= limit && -limit <= p.y <= limit
}

/// The integer square root: the greatest `r` with `r * r <= n`.
pub open spec fn spec_isqrt(n: int) -> int {
    choose|r: int| 0 <= r && #[trigger] (r * r) <= n && (r + 1) * (r + 1) > n
}

/// The integer square root exists for every non-negative number.
pub proof fn lemma_isqrt_exists(n: int) -> (r: int)
    requires
        n >= 0,
    ensures
        0 <= r && r * r <= n && (r + 1) * (r + 1) > n,
    decreases n,
{
    if n == 0 {
        0
    } else {
        let p = lemma_isqrt_exists(n - 1);
        if (p + 1) * (p + 1) <= n {
            assert((p + 2) * (p + 2) > n) by (nonlinear_arith)
                requires
                    (p + 1) * (p + 1) > n - 1,
                    (p + 1) * (p + 1) <= n,
                    p >= 0,
            ;
            p + 1
        } else {
            p
        }
    }
}

/// Any two integer square roots of the same number agree, so
/// `spec_isqrt` names the one root.
pub proof fn lemma_isqrt_unique(n: int, a: int, b: int)
    requires
        0 <= a && a * a <= n && (a + 1) * (a + 1) > n,
        0 <= b && b * b <= n && (b + 1) * (b + 1) > n,
    ensures
        a == b,
{
    assert(a == b) by (nonlinear_arith)
        requires
            0 <= a && a * a <= n && (a + 1) * (a + 1) > n,
            0 <= b && b * b <= n && (b + 1) * (b + 1) > n,
    ;
}

/// The characteristic facts of `spec_isqrt`, usable once existence holds.
pub proof fn lemma_isqrt_props(n: int)
    requires
        n >= 0,
    ensures
        0 <= spec_isqrt(n),
        spec_isqrt(n) * spec_isqrt(n) <= n,
        (spec_isqrt(n) + 1) * (spec_isqrt(n) + 1) > n,
{
    let w = lemma_isqrt_exists(n);
    lemma_isqrt_unique(n, w, spec_isqrt(n));
}

/// Computes the integer square root by bisection.
pub fn isqrt_u128(n: u128) -> (r: u128)
    ensures
        r == spec_isqrt(n as int),
{
    proof {
        lemma_isqrt_props(n as int);
    }
    let mut lo: u128 = 0;
    let mut hi: u128 = 18446744073709551616u128;
    proof {
        assert((n as int) < (hi as int) * (hi as int)) by (nonlinear_arith)
            requires
                hi == 18446744073709551616u128,
                n <= u128::MAX,
        ;
    }
    while hi - lo > 1
        invariant
            0 <= lo < hi <= 18446744073709551616u128,
            (lo as int) * (lo as int) <= n as int,
            (n as int) < (hi as int) * (hi as int),
        decreases hi - lo,
    {
        let mid = lo + (hi - lo) / 2;
        proof {
            assert(lo < mid < hi);
            assert(mid * mid <= u128::MAX) by (nonlinear_arith)
                requires
                    mid < 18446744073709551616u128,
            ;
        }
        if mid * mid <= n {
            lo = mid;
        } else {
            hi = mid;
        }
    }
    proof {
        assert(hi == lo + 1);
        lemma_isqrt_unique(n as int, lo as int, spec_isqrt(n as int));
    }
    lo
}

/// Length of the segment `(dx, dy)`, rounded down to micro-units.
pub open spec fn spec_hypot(dx: int, dy: int) -> int {
    spec_isqrt(dx * dx + dy * dy)
}

/// Computes the length of the segment `(dx, dy)` in micro-units.
pub fn hypot_micros(dx: i64, dy: i64) -> (r: i64)
    requires
        -9000000000000000 <= dx <= 9000000000000000,
        -9000000000000000 <= dy <= 9000000000000000,
    ensures
        r == spec_hypot(dx as int, dy as int),
        0 <= r <= 13000000000000000,
{
    proof {
        assert(0 <= (dx as int) * (dx as int) <= 81000000000000000000000000000000int && 0 <= (
        dy as int) * (dy as int) <= 81000000000000000000000000000000int) by (nonlinear_arith)
            requires
                -9000000000000000 <= dx <= 9000000000000000,
                -9000000000000000 <= dy <= 9000000000000000,
        ;
    }
    let dx2 = (dx as i128) * (dx as i128);
    let dy2 = (dy as i128) * (dy as i128);
    let sum = dx2 + dy2;
    let root = isqrt_u128(sum as u128);
    proof {
        lemma_isqrt_props(sum as int);
        assert(spec_isqrt(sum as int) <= 13000000000000000int) by (nonlinear_arith)
            requires
                spec_isqrt(sum as int) * spec_isqrt(sum as int) <= sum as int,
                sum as int <= 162000000000000000000000000000000int,
                spec_isqrt(sum as int) >= 0,
        ;
    }
    root as i64
}

/// Division truncating toward zero, as machine division does.
pub open spec fn spec_tdiv(a: int, b: int) -> int {
    if a >= 0 {
        a / b
    } else {
        -((-a) / b)
    }
}

/// The half-width offset of the thin rectangle along `(dx, dy)`: half a
/// unit along the left normal of the segment, scaled by its length.
pub open spec fn spec_half_offset(dx: int, dy: int) -> (int, int) {
    let len = spec_hypot(dx, dy);
    (spec_tdiv(-dy * 500000, len), spec_tdiv(dx * 500000, len))
}

/// The corners of the one-unit-wide rectangle whose long axis is the
/// segment `from..to`, in the order the rewritten sub-path visits them:
/// both ends shifted by the half-width offset, then both shifted back.
pub open spec fn spec_rect_corners(from: Point, to: Point) -> (Point, Point, Point, Point) {
    let dx = to.x - from.x;
    let dy = to.y - from.y;
    let h = spec_half_offset(dx, dy);
    (
        Point { x: (to.x + h.0) as i64, y: (to.y + h.1) as i64 },
        Point { x: (to.x - h.0) as i64, y: (to.y - h.1) as i64 },
        Point { x: (from.x - h.0) as i64, y: (from.y - h.1) as i64 },
        Point { x: (from.x + h.0) as i64, y: (from.y + h.1) as i64 },
    )
}

/// Truncating division keeps the magnitude bound of the numerator's
/// quotient.
proof fn lemma_tdiv_bound(a: int, b: int, m: int)
    requires
        b > 0,
        m >= 0,
        -m * b <= a <= m * b,
    ensures
        -m <= spec_tdiv(a, b) <= m,
{
    if a >= 0 {
        assert(0 <= a / b <= m) by (nonlinear_arith)
            requires
                b > 0,
                a >= 0,
                a <= m * b,
                m >= 0,
        ;
    } else {
        assert(0 <= (-a) / b <= m) by (nonlinear_arith)
            requires
                b > 0,
                a < 0,
                -m * b <= a,
                m >= 0,
        ;
    }
}

/// The half-width offset never exceeds half a unit in either coordinate.
pub proof fn lemma_half_offset_bound(dx: int, dy: int)
    requires
        !(dx == 0 && dy == 0),
        -9000000000000000 <= dx <= 9000000000000000,
        -9000000000000000 <= dy <= 9000000000000000,
    ensures
        ({
            let h = spec_half_offset(dx, dy);
            let len = spec_hypot(dx, dy);
            &&& len >= 1
            &&& len >= dx && len >= -dx && len >= dy && len >= -dy
            &&& -500000 <= h.0 <= 500000
            &&& -500000 <= h.1 <= 500000
        }),
{
    let len = spec_hypot(dx, dy);
    assert(dx * dx + dy * dy >= 1) by (nonlinear_arith)
        requires
            !(dx == 0 && dy == 0),
    ;
    lemma_isqrt_props(dx * dx + dy * dy);
    assert(len >= 1) by (nonlinear_arith)
        requires
            (len + 1) * (len + 1) > dx * dx + dy * dy,
            dx * dx + dy * dy >= 1,
            len >= 0,
    ;
    // the length dominates either coordinate's magnitude
    assert(len >= dx && len >= -dx && len >= dy && len >= -dy) by (nonlinear_arith)
        requires
            len >= 0,
            (len + 1) * (len + 1) > dx * dx + dy * dy,
    ;
    assert(-500000 * len <= -dy * 500000 <= 500000 * len) by (nonlinear_arith)
        requires
            len >= dy,
            len >= -dy,
            len >= 0,
    ;
    assert(-500000 * len <= dx * 500000 <= 500000 * len) by (nonlinear_arith)
        requires
            len >= dx,
            len >= -dx,
            len >= 0,
    ;
    lemma_tdiv_bound(-dy * 500000, len, 500000);
    lemma_tdiv_bound(dx * 500000, len, 500000);
}

/// Computes the corners of the one-unit-wide rectangle along `from..to`.
pub fn as_rect(from: Point, to: Point) -> (r: (Point, Point, Point, Point))
    requires
        !(from.x == to.x && from.y == to.y),
        spec_in_bounds(from, SEGMENT_LIMIT + 1000000),
        spec_in_bounds(to, SEGMENT_LIMIT + 1000000),
    ensures
        r == spec_rect_corners(from, to),
        spec_in_bounds(r.0, SEGMENT_LIMIT + 1500000),
        spec_in_bounds(r.1, SEGMENT_LIMIT + 1500000),
        spec_in_bounds(r.2, SEGMENT_LIMIT + 1500000),
        spec_in_bounds(r.3, SEGMENT_LIMIT + 1500000),
{
    let dx = to.x - from.x;
    let dy = to.y - from.y;
    let len = hypot_micros(dx, dy);
    proof {
        lemma_half_offset_bound(dx as int, dy as int);
    }
    let len_u = len as u128;
    let mag_x: u128 = (if dy >= 0 {
        dy as u128
    } else {
        (-(dy as i128)) as u128
    }) * 500000;
    let mag_y: u128 = (if dx >= 0 {
        dx as u128
    } else {
        (-(dx as i128)) as u128
    }) * 500000;
    proof {
        assert(mag_x <= 500000 * (len as int) && mag_y <= 500000 * (len as int))
            by (nonlinear_arith)
            requires
                mag_x == 500000 * (if dy >= 0 {
                    dy as int
                } else {
                    -(dy as int)
                }),
                mag_y == 500000 * (if dx >= 0 {
                    dx as int
                } else {
                    -(dx as int)
                }),
                len as int >= dx as int,
                len as int >= -(dx as int),
                len as int >= dy as int,
                len as int >= -(dy as int),
                len >= 1,
        ;
        assert(mag_x / len_u <= 500000 && mag_y / len_u <= 500000) by (nonlinear_arith)
            requires
                len_u >= 1,
                mag_x <= 500000 * (len_u as int),
                mag_y <= 500000 * (len_u as int),
        ;
    }
    let qx = (mag_x / len_u) as i64;
    let qy = (mag_y / len_u) as i64;
    // the numerator of the x offset is `-dy * 500000`, of the y offset
    // `dx * 500000`; their signs pick the direction of the quotient
    let hx: i64 = if dy <= 0 {
        qx
    } else {
        -qx
    };
    let hy: i64 = if dx >= 0 {
        qy
    } else {
        -qy
    };
    proof {
        let lh = len as int;
        assert(hx == spec_tdiv(-(dy as int) * 500000, lh)) by (nonlinear_arith)
            requires
                lh >= 1,
                qx == ({
                    let m = (if dy >= 0 {
                        dy as int
                    } else {
                        -(dy as int)
                    }) * 500000;
                    m / lh
                }),
                hx == (if dy <= 0 {
                    qx as int
                } else {
                    -(qx as int)
                }),
                spec_tdiv(-(dy as int) * 500000, lh) == (if -(dy as int) * 500000 >= 0 {
                    (-(dy as int) * 500000) / lh
                } else {
                    -((dy as int) * 500000 / lh)
                }),
        ;
        assert(hy == spec_tdiv((dx as int) * 500000, lh)) by (nonlinear_arith)
            requires
                lh >= 1,
                qy == ({
                    let m = (if dx >= 0 {
                        dx as int
                    } else {
                        -(dx as int)
                    }) * 500000;
                    m / lh
                }),
                hy == (if dx >= 0 {
                    qy as int
                } else {
                    -(qy as int)
                }),
                spec_tdiv((dx as int) * 500000, lh) == (if (dx as int) * 500000 >= 0 {
                    ((dx as int) * 500000) / lh
                } else {
                    -((-((dx as int) * 500000)) / lh)
                }),
        ;
    }
    (
        Point { x: to.x + hx, y: to.y + hy },
        Point { x: to.x - hx, y: to.y - hy },
        Point { x: from.x - hx, y: from.y - hy },
        Point { x: from.x + hx, y: from.y + hy },
    )
}

} // verus!
