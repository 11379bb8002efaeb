//! Integer plane geometry: square roots, polygon area, perimeter, centroid.
use vstd::prelude::*;
use vstd::arithmetic::div_mod::{lemma_small_mod, lemma_mod_self_0};

verus! {

/// Fixed-point subdivisions of one pixel (positions are in milli-pixels).
pub const SUBPIXELS: u64 = 1000;

/// The floor of the square root of `n`.
pub open spec fn isqrt(n: nat) -> nat
    decreases n,
{
    if n == 0 {
        0
    } else {
        let r = 2 * isqrt(n / 4);
        if (r + 1) * (r + 1) <= n {
            (r + 1) as nat
        } else {
            r
        }
    }
}

/// `isqrt(n)` is the largest integer whose square does not exceed `n`.
pub proof fn lemma_isqrt(n: nat)
    ensures
        isqrt(n) * isqrt(n) <= n,
        n < (isqrt(n) + 1) * (isqrt(n) + 1),
    decreases n,
{
    if n == 0 {
        assert(isqrt(0) == 0);
        assert(n < (isqrt(n) + 1) * (isqrt(n) + 1)) by (nonlinear_arith)
            requires
                isqrt(n) == 0,
                n == 0,
        ;
    } else {
        let m = n / 4;
        lemma_isqrt(m);
        let q = isqrt(m);
        let r = 2 * q;
        assert(4 * m <= n && n <= 4 * m + 3);
        assert(r * r <= n) by (nonlinear_arith)
            requires
                q * q <= m,
                r == 2 * q,
                4 * m <= n,
        ;
        assert(n < (r + 2) * (r + 2)) by (nonlinear_arith)
            requires
                m < (q + 1) * (q + 1),
                r == 2 * q,
                n <= 4 * m + 3,
        ;
        if (r + 1) * (r + 1) <= n {
            assert(isqrt(n) == r + 1);
            assert(n < (isqrt(n) + 1) * (isqrt(n) + 1) && isqrt(n) * isqrt(n) <= n)
                by (nonlinear_arith)
                requires
                    isqrt(n) == r + 1,
                    n < (r + 2) * (r + 2),
                    (r + 1) * (r + 1) <= n,
            ;
        } else {
            assert(isqrt(n) == r);
            assert(n < (isqrt(n) + 1) * (isqrt(n) + 1) && isqrt(n) * isqrt(n) <= n)
                by (nonlinear_arith)
                requires
                    isqrt(n) == r,
                    r * r <= n,
                    !((r + 1) * (r + 1) <= n),
            ;
        }
    }
}

/// The index that follows `i` around a cycle of length `n`.
proof fn lemma_next_index(i: int, n: int)
    requires
        0 <= i < n,
    ensures
        (i + 1) % n == if i + 1 == n {
            0
        } else {
            i + 1
        },
{
    if i + 1 < n {
        lemma_small_mod((i + 1) as nat, n as nat);
    } else {
        lemma_mod_self_0(n);
    }
}

/// The square root of a number below `b * b` is below `b`.
pub proof fn lemma_isqrt_below(n: nat, b: nat)
    requires
        n < b * b,
    ensures
        isqrt(n) < b,
{
    lemma_isqrt(n);
    let r = isqrt(n);
    if r >= b {
        assert(b * b <= r * r) by (nonlinear_arith)
            requires
                r >= b,
        ;
    }
}

/// The floor of the square root of `n`.
pub fn sqrt_floor(n: u128) -> (r: u128)
    ensures
        r == isqrt(n as nat),
    decreases n,
{
    if n == 0 {
        0
    } else {
        let q = sqrt_floor(n / 4);
        proof {
            lemma_isqrt((n / 4) as nat);
            if q >= 0x8000_0000_0000_0000 {
                assert(q * q >= 0x4000_0000_0000_0000_0000_0000_0000_0000) by (nonlinear_arith)
                    requires
                        q >= 0x8000_0000_0000_0000,
                ;
            }
            assert((2 * q + 1) * (2 * q + 1) <= 0xffff_ffff_ffff_ffff_ffff_ffff_ffff_ffff) by (nonlinear_arith)
                requires
                    q < 0x8000_0000_0000_0000,
            ;
        }
        let r = 2 * q;
        if (r + 1) * (r + 1) <= n {
            r + 1
        } else {
            r
        }
    }
}

/// Twice the signed area of the triangle (origin, a, b).
pub open spec fn cross(a: (i32, i32), b: (i32, i32)) -> int {
    a.0 * b.1 - b.0 * a.1
}

/// The shoelace sum over the first `k` edges of the closed polygon `pts`.
pub open spec fn shoelace_sum(pts: Seq<(i32, i32)>, k: int) -> int
    decreases k,
{
    if k <= 0 {
        0
    } else {
        shoelace_sum(pts, k - 1) + cross(pts[k - 1], pts[k % pts.len() as int])
    }
}

/// Twice the area enclosed by the closed polygon `pts` (shoelace formula).
pub open spec fn double_area(pts: Seq<(i32, i32)>) -> nat {
    let s = shoelace_sum(pts, pts.len() as int);
    if s < 0 {
        (-s) as nat
    } else {
        s as nat
    }
}

/// Length of the segment from `a` to `b`, in milli-pixels, rounded down.
pub open spec fn segment_length(a: (i32, i32), b: (i32, i32)) -> nat {
    let dx = b.0 - a.0;
    let dy = b.1 - a.1;
    isqrt((SUBPIXELS * SUBPIXELS * (dx * dx + dy * dy)) as nat)
}

/// The summed length of the first `k` edges of the closed polygon `pts`.
pub open spec fn perimeter_sum(pts: Seq<(i32, i32)>, k: int) -> nat
    decreases k,
{
    if k <= 0 {
        0
    } else {
        perimeter_sum(pts, k - 1) + segment_length(pts[k - 1], pts[k % pts.len() as int])
    }
}

/// Perimeter of the closed polygon `pts` in milli-pixels: the sum of its
/// edge lengths, each rounded down.
pub open spec fn perimeter(pts: Seq<(i32, i32)>) -> nat {
    perimeter_sum(pts, pts.len() as int)
}

/// Sum of the x (`axis == 0`) or y coordinates of the first `k` points.
pub open spec fn coord_sum(pts: Seq<(i32, i32)>, k: int, axis: int) -> int
    decreases k,
{
    if k <= 0 {
        0
    } else {
        coord_sum(pts, k - 1, axis) + if axis == 0 {
            pts[k - 1].0 as int
        } else {
            pts[k - 1].1 as int
        }
    }
}

/// The unweighted mean of the points' coordinates, in milli-pixels,
/// rounded down.
pub open spec fn mean_point(pts: Seq<(i32, i32)>) -> (int, int) {
    (
        SUBPIXELS * coord_sum(pts, pts.len() as int, 0) / pts.len() as int,
        SUBPIXELS * coord_sum(pts, pts.len() as int, 1) / pts.len() as int,
    )
}

/// Every point lies in the quadrant of non-negative coordinates.
pub open spec fn non_negative(pts: Seq<(i32, i32)>) -> bool {
    forall|i: int| 0 <= i < pts.len() ==> 0 <= #[trigger] pts[i].0 && 0 <= pts[i].1
}

/// Longest point sequence the polygon functions accept (no `Vec` of points
/// can be longer on a 64-bit machine).
pub const MAX_POINTS: u64 = 0x1000_0000_0000_0000;

/// Twice the area enclosed by the closed polygon `points` (shoelace formula).
pub fn polygon_area_x2(points: &Vec<(i32, i32)>) -> (r: u128)
    requires
        points@.len() <= MAX_POINTS,
    ensures
        r == double_area(points@),
        r <= points@.len() * 0x8000_0000_0000_0000,
{
    let n = points.len();
    let mut acc: i128 = 0;
    let mut i: usize = 0;
    while i < n
        invariant
            n == points@.len(),
            n <= MAX_POINTS,
            i <= n,
            acc == shoelace_sum(points@, i as int),
            -(i * 0x8000_0000_0000_0000) <= acc <= i * 0x8000_0000_0000_0000,
        decreases n - i,
    {
        let j = if i + 1 == n {
            0
        } else {
            i + 1
        };
        let a = points[i];
        let b = points[j];
        proof {
            lemma_next_index(i as int, n as int);
            let (ax, ay, bx, by) = (a.0 as int, a.1 as int, b.0 as int, b.1 as int);
            assert(-0x4000_0000_0000_0000 <= ax * by <= 0x4000_0000_0000_0000) by (nonlinear_arith)
                requires
                    -0x8000_0000 <= ax < 0x8000_0000,
                    -0x8000_0000 <= by < 0x8000_0000,
            ;
            assert(-0x4000_0000_0000_0000 <= bx * ay <= 0x4000_0000_0000_0000) by (nonlinear_arith)
                requires
                    -0x8000_0000 <= bx < 0x8000_0000,
                    -0x8000_0000 <= ay < 0x8000_0000,
            ;
        }
        let c = (a.0 as i128) * (b.1 as i128) - (b.0 as i128) * (a.1 as i128);
        acc = acc + c;
        i = i + 1;
    }
    if acc < 0 {
        (-acc) as u128
    } else {
        acc as u128
    }
}

/// Length in milli-pixels (rounded down) of the segment from `a` to `b`.
fn segment_length_exec(a: (i32, i32), b: (i32, i32)) -> (r: u128)
    ensures
        r == segment_length(a, b),
        r < 0x800_0000_0000,
{
    let dx = (b.0 as i64 - a.0 as i64) as i128;
    let dy = (b.1 as i64 - a.1 as i64) as i128;
    proof {
        assert(dx * dx <= 0x1_0000_0000_0000_0000) by (nonlinear_arith)
            requires
                -0x1_0000_0000 <= dx <= 0x1_0000_0000,
        ;
        assert(dy * dy <= 0x1_0000_0000_0000_0000) by (nonlinear_arith)
            requires
                -0x1_0000_0000 <= dy <= 0x1_0000_0000,
        ;
        assert(dx * dx >= 0 && dy * dy >= 0) by (nonlinear_arith);
    }
    let sq = (dx * dx + dy * dy) as u128;
    let n = 1_000_000u128 * sq;
    proof {
        lemma_isqrt_below(n as nat, 0x800_0000_0000);
    }
    sqrt_floor(n)
}

/// Perimeter of the closed polygon `points` in milli-pixels: the sum of its
/// edge lengths, each rounded down.
pub fn polygon_perimeter(points: &Vec<(i32, i32)>) -> (r: u128)
    requires
        points@.len() <= MAX_POINTS,
    ensures
        r == perimeter(points@),
        r <= points@.len() * 0x800_0000_0000,
{
    let n = points.len();
    let mut acc: u128 = 0;
    let mut i: usize = 0;
    while i < n
        invariant
            n == points@.len(),
            n <= MAX_POINTS,
            i <= n,
            acc == perimeter_sum(points@, i as int),
            acc <= i * 0x800_0000_0000,
        decreases n - i,
    {
        let j = if i + 1 == n {
            0
        } else {
            i + 1
        };
        proof {
            lemma_next_index(i as int, n as int);
        }
        let s = segment_length_exec(points[i], points[j]);
        acc = acc + s;
        i = i + 1;
    }
    acc
}

/// The unweighted mean of the points, in milli-pixels, rounded down.
pub fn centroid(points: &Vec<(i32, i32)>) -> (r: (u64, u64))
    requires
        0 < points@.len() <= MAX_POINTS,
        non_negative(points@),
    ensures
        r.0 == mean_point(points@).0,
        r.1 == mean_point(points@).1,
        r.0 < SUBPIXELS * 0x8000_0000,
        r.1 < SUBPIXELS * 0x8000_0000,
{
    let n = points.len();
    let mut sx: u128 = 0;
    let mut sy: u128 = 0;
    let mut i: usize = 0;
    while i < n
        invariant
            n == points@.len(),
            n <= MAX_POINTS,
            non_negative(points@),
            i <= n,
            sx == coord_sum(points@, i as int, 0),
            sy == coord_sum(points@, i as int, 1),
            sx <= i * 0x7fff_ffff,
            sy <= i * 0x7fff_ffff,
        decreases n - i,
    {
        let p = points[i];
        assert(0 <= p.0 && 0 <= p.1);
        sx = sx + p.0 as u128;
        sy = sy + p.1 as u128;
        i = i + 1;
    }
    let cx = 1000 * sx / (n as u128);
    let cy = 1000 * sy / (n as u128);
    proof {
        assert(1000 * sx / (n as int) < 1000 * 0x8000_0000) by (nonlinear_arith)
            requires
                sx <= n * 0x7fff_ffff,
                n > 0,
        ;
        assert(1000 * sy / (n as int) < 1000 * 0x8000_0000) by (nonlinear_arith)
            requires
                sy <= n * 0x7fff_ffff,
                n > 0,
        ;
    }
    (cx as u64, cy as u64)
}

} // verus!

verus! {

/// Bound on positions in milli-pixels: every point of a frame whose sides
/// fit in `i32` lies below it.
pub const COORD_LIMIT: u64 = 0x400_0000_0000;

/// Squared distance between two points.
pub open spec fn dist_sq(ax: int, ay: int, bx: int, by: int) -> int {
    (ax - bx) * (ax - bx) + (ay - by) * (ay - by)
}

/// Squared distance between two points below `COORD_LIMIT`.
pub fn dist_sq_exec(ax: u64, ay: u64, bx: u64, by: u64) -> (r: u128)
    requires
        ax < COORD_LIMIT,
        ay < COORD_LIMIT,
        bx < COORD_LIMIT,
        by < COORD_LIMIT,
    ensures
        r == dist_sq(ax as int, ay as int, bx as int, by as int),
        r < 0x20_0000_0000_0000_0000_0000,
{
    let dx: u128 = if ax >= bx {
        (ax - bx) as u128
    } else {
        (bx - ax) as u128
    };
    let dy: u128 = if ay >= by {
        (ay - by) as u128
    } else {
        (by - ay) as u128
    };
    proof {
        assert(dx * dx < 0x10_0000_0000_0000_0000_0000) by (nonlinear_arith)
            requires
                dx < 0x400_0000_0000,
        ;
        assert(dy * dy < 0x10_0000_0000_0000_0000_0000) by (nonlinear_arith)
            requires
                dy < 0x400_0000_0000,
        ;
        assert(dx * dx == (ax - bx) * (ax - bx)) by (nonlinear_arith)
            requires
                dx == ax - bx || dx == bx - ax,
        ;
        assert(dy * dy == (ay - by) * (ay - by)) by (nonlinear_arith)
            requires
                dy == ay - by || dy == by - ay,
        ;
    }
    dx * dx + dy * dy
}

} // verus!
