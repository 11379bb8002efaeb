//! Calibrated scoring, centre gating and shot tracking.
use vstd::prelude::*;
use crate::geometry::{COORD_LIMIT, SUBPIXELS, dist_sq, dist_sq_exec, isqrt, sqrt_floor, lemma_isqrt_below};
use crate::processor::{DetectionResult, holes_in_range};

verus! {

/// Width of one scoring ring, in micrometres.
pub const RING_WIDTH_UM: u64 = 8000;

/// Best score of a single shot, in tenths of a point (10.9).
pub const MAX_SHOT_SCORE: u64 = 109;

/// Two holes closer than this (in milli-pixels) are the same hole.
pub const SAME_HOLE_TOLERANCE: u64 = 10_000;

/// Calibration of the target: physical sizes in micrometres and the image
/// scale in pixels per metre.
#[derive(Clone, Copy, Debug)]
pub struct ScoringConfig {
    pub target_diameter_um: u32,
    pub ring_10_diameter_um: u32,
    pub bullet_diameter_um: u32,
    pub pixels_per_m: u32,
}

impl ScoringConfig {
    /// The 50 m rifle target with a first guess of 10 pixels per millimetre.
    pub fn default_50m_rifle() -> (r: Self)
        ensures
            r.target_diameter_um == 154_400,
            r.ring_10_diameter_um == 10_400,
            r.bullet_diameter_um == 4_500,
            r.pixels_per_m == 10_000,
    {
        ScoringConfig {
            target_diameter_um: 154_400,
            ring_10_diameter_um: 10_400,
            bullet_diameter_um: 4_500,
            pixels_per_m: 10_000,
        }
    }
}

/// Distance `d` (milli-pixels) from the centre, less the bullet's radius,
/// floored at zero, expressed in units of `1 / (2 * pixels_per_m)` micrometres.
///
/// With `p` pixels per metre a distance of `d` milli-pixels is `1000 * d / p`
/// micrometres, so the effective distance is
/// `(2000 * d - bullet * p) / (2 * p)` micrometres.
pub open spec fn scaled_effective_distance(d: int, cfg: ScoringConfig) -> int {
    let e = 2000 * d - cfg.bullet_diameter_um * cfg.pixels_per_m;
    if e < 0 {
        0
    } else {
        e
    }
}

/// Score in tenths of a point of a hole `d` milli-pixels from the centre:
/// `11 - effective_mm / ring_width_mm`, clamped to `[0, 10.9]` and rounded
/// half up to one decimal. A hole on the centre scores 10.9 on any scale; any
/// other hole on a zero scale is infinitely far and scores 0.
pub open spec fn score_at_distance(d: int, cfg: ScoringConfig) -> int {
    let p = cfg.pixels_per_m as int;
    if p == 0 {
        if d == 0 {
            MAX_SHOT_SCORE as int
        } else {
            0
        }
    } else {
        let unit = 2 * p * RING_WIDTH_UM;
        let t = 221 * p * RING_WIDTH_UM - 10 * scaled_effective_distance(d, cfg);
        if t <= 0 {
            0
        } else if t / unit > MAX_SHOT_SCORE {
            MAX_SHOT_SCORE as int
        } else {
            t / unit
        }
    }
}

/// Score in tenths of a point of a hole at `(hx, hy)` for the centre
/// `(cx, cy)`, all in milli-pixels; the distance is rounded down to whole
/// milli-pixels.
pub open spec fn shot_score(hx: int, hy: int, cx: int, cy: int, cfg: ScoringConfig) -> int {
    score_at_distance(isqrt(dist_sq(hx, hy, cx, cy) as nat) as int, cfg)
}

/// Score in tenths of a point of the hole at `(hole_x, hole_y)` against the
/// centre `(center_x, center_y)`, all in milli-pixels.
pub fn score(hole_x: u64, hole_y: u64, center_x: u64, center_y: u64, config: &ScoringConfig) -> (r: u64)
    requires
        hole_x < COORD_LIMIT,
        hole_y < COORD_LIMIT,
        center_x < COORD_LIMIT,
        center_y < COORD_LIMIT,
    ensures
        r == shot_score(hole_x as int, hole_y as int, center_x as int, center_y as int, *config),
        r <= MAX_SHOT_SCORE,
{
    let s = dist_sq_exec(hole_x, hole_y, center_x, center_y);
    let d = sqrt_floor(s);
    proof {
        lemma_isqrt_below(s as nat, 0x800_0000_0000);
    }
    let p = config.pixels_per_m as u128;
    if p == 0 {
        if d == 0 {
            return MAX_SHOT_SCORE;
        } else {
            return 0;
        }
    }
    proof {
        let b = config.bullet_diameter_um as int;
        assert(b * p <= 0xffff_ffff * 0xffff_ffff) by (nonlinear_arith)
            requires
                0 <= b <= 0xffff_ffff,
                0 <= p <= 0xffff_ffff,
        ;
    }
    let bp = (config.bullet_diameter_um as u128) * p;
    let e: u128 = if 2000 * d >= bp {
        2000 * d - bp
    } else {
        0
    };
    let unit = 2 * p * (RING_WIDTH_UM as u128);
    let top = 221 * p * (RING_WIDTH_UM as u128);
    if 10 * e >= top {
        0
    } else {
        let q = (top - 10 * e) / unit;
        if q > MAX_SHOT_SCORE as u128 {
            MAX_SHOT_SCORE
        } else {
            q as u64
        }
    }
}

/// A hole on the centre scores 10.9 whatever the scale.
pub proof fn lemma_center_scores_max(c: (int, int), cfg: ScoringConfig)
    ensures
        shot_score(c.0, c.1, c.0, c.1, cfg) == MAX_SHOT_SCORE,
{
    assert(dist_sq(c.0, c.1, c.0, c.1) == 0);
    assert(isqrt(0) == 0);
    if cfg.pixels_per_m > 0 {
        let p = cfg.pixels_per_m as int;
        let unit = 2 * p * RING_WIDTH_UM;
        assert((221 * p * RING_WIDTH_UM) / unit >= 110) by (nonlinear_arith)
            requires
                p > 0,
                unit == 2 * p * RING_WIDTH_UM,
                RING_WIDTH_UM == 8000,
        ;
    }
}

/// A hole whose effective distance is at least eleven ring widths scores
/// exactly 0.
pub proof fn lemma_far_scores_zero(d: int, cfg: ScoringConfig)
    requires
        d > 0,
        scaled_effective_distance(d, cfg) >= 2 * cfg.pixels_per_m * 11 * RING_WIDTH_UM,
    ensures
        score_at_distance(d, cfg) == 0,
{
    let p = cfg.pixels_per_m as int;
    if p > 0 {
        let unit = 2 * p * RING_WIDTH_UM;
        let t = 221 * p * RING_WIDTH_UM - 10 * scaled_effective_distance(d, cfg);
        if t > 0 {
            assert(t < unit);
            assert(t / unit == 0) by (nonlinear_arith)
                requires
                    0 < t < unit,
            ;
        }
    }
}

/// Whether the hole lies within 1.5 target radii of the centre `(cx, cy)`
/// (milli-pixels). That radius is `1.5 * T / 2` micrometres, or
/// `3 * T * P / 4000` milli-pixels for a target of `T` micrometres seen at `P`
/// pixels per metre; the comparison is made on squares, exactly.
pub open spec fn within_gate(h: (u64, u64, u64), cx: int, cy: int, cfg: ScoringConfig) -> bool {
    let q = 3 * (cfg.target_diameter_um * cfg.pixels_per_m);
    16_000_000 * dist_sq(h.0 as int, h.1 as int, cx, cy) <= q * q
}

/// The holes within reach of the centre `(cx, cy)`, order kept.
pub open spec fn gate_holes(holes: Seq<(u64, u64, u64)>, cx: int, cy: int, cfg: ScoringConfig) -> Seq<(u64, u64, u64)>
    decreases holes.len(),
{
    if holes.len() == 0 {
        Seq::empty()
    } else {
        let kept = gate_holes(holes.drop_last(), cx, cy, cfg);
        if within_gate(holes.last(), cx, cy, cfg) {
            kept.push(holes.last())
        } else {
            kept
        }
    }
}

/// The centre stored in a resolved detection: the manual centre truncated
/// to whole pixels (saturating at `u32::MAX`) when one is set, else the
/// detected one.
pub open spec fn resolved_center(detected: (u32, u32), manual: Option<(u64, u64)>) -> (u32, u32) {
    match manual {
        Some(m) => (
            if m.0 / SUBPIXELS > u32::MAX { u32::MAX } else { (m.0 / SUBPIXELS) as u32 },
            if m.1 / SUBPIXELS > u32::MAX { u32::MAX } else { (m.1 / SUBPIXELS) as u32 },
        ),
        None => detected,
    }
}

/// The centre, in milli-pixels, that gating measures from: the manual centre
/// itself when one is set, else the detected one.
pub open spec fn gate_center(detected: (u32, u32), manual: Option<(u64, u64)>) -> (int, int) {
    match manual {
        Some(m) => (m.0 as int, m.1 as int),
        None => (detected.0 * SUBPIXELS, detected.1 * SUBPIXELS),
    }
}

fn within_gate_exec(h: (u64, u64, u64), cx: u64, cy: u64, config: &ScoringConfig) -> (r: bool)
    requires
        h.0 < COORD_LIMIT,
        h.1 < COORD_LIMIT,
        cx < COORD_LIMIT,
        cy < COORD_LIMIT,
    ensures
        r == within_gate(h, cx as int, cy as int, *config),
{
    let s = dist_sq_exec(h.0, h.1, cx, cy);
    let lhs = 16_000_000 * s;
    let t = config.target_diameter_um as u128;
    let p = config.pixels_per_m as u128;
    proof {
        assert(t * p <= 0xffff_ffff * 0xffff_ffff) by (nonlinear_arith)
            requires
                0 <= t <= 0xffff_ffff,
                0 <= p <= 0xffff_ffff,
        ;
    }
    let q = 3 * (t * p);
    if q >= 0x1_0000_0000_0000_0000 {
        proof {
            assert(q * q >= 0x1_0000_0000_0000_0000 * 0x1_0000_0000_0000_0000) by (nonlinear_arith)
                requires
                    q >= 0x1_0000_0000_0000_0000,
            ;
        }
        true
    } else {
        proof {
            assert(q * q <= 0xffff_ffff_ffff_ffff * 0xffff_ffff_ffff_ffff) by (nonlinear_arith)
                requires
                    0 <= q <= 0xffff_ffff_ffff_ffff,
            ;
        }
        lhs <= q * q
    }
}

/// Picks the target centre (the manual one when set) and drops the holes
/// farther from it than 1.5 target radii.
pub fn resolve(detection: &DetectionResult, manual_center: Option<(u64, u64)>, config: &ScoringConfig) -> (r: DetectionResult)
    requires
        holes_in_range(detection.holes@),
        manual_center matches Some(m) ==> m.0 < COORD_LIMIT && m.1 < COORD_LIMIT,
    ensures
        r.target_center == resolved_center(detection.target_center, manual_center),
        r.holes@ == gate_holes(
            detection.holes@,
            gate_center(detection.target_center, manual_center).0,
            gate_center(detection.target_center, manual_center).1,
            *config,
        ),
        holes_in_range(r.holes@),
{
    let (center, gx, gy) = match manual_center {
        Some((mx, my)) => {
            let sx = mx / SUBPIXELS;
            let sy = my / SUBPIXELS;
            let cx: u32 = if sx > u32::MAX as u64 { u32::MAX } else { sx as u32 };
            let cy: u32 = if sy > u32::MAX as u64 { u32::MAX } else { sy as u32 };
            ((cx, cy), mx, my)
        },
        None => {
            let c = detection.target_center;
            (c, c.0 as u64 * SUBPIXELS, c.1 as u64 * SUBPIXELS)
        },
    };
    let ghost g = gate_center(detection.target_center, manual_center);
    let holes = &detection.holes;
    let mut kept: Vec<(u64, u64, u64)> = Vec::new();
    let mut i: usize = 0;
    while i < holes.len()
        invariant
            holes == &detection.holes,
            holes_in_range(holes@),
            gx == g.0,
            gy == g.1,
            gx < COORD_LIMIT,
            gy < COORD_LIMIT,
            i <= holes@.len(),
            kept@ == gate_holes(holes@.take(i as int), g.0, g.1, *config),
            holes_in_range(kept@),
        decreases holes@.len() - i,
    {
        let h = holes[i];
        assert(holes@.take(i as int + 1).drop_last() =~= holes@.take(i as int));
        assert(holes@.take(i as int + 1).last() == h);
        if within_gate_exec(h, gx, gy, config) {
            kept.push(h);
        }
        i = i + 1;
    }
    assert(holes@.take(holes@.len() as int) =~= holes@);
    DetectionResult { target_center: center, holes: kept }
}

} // verus!
