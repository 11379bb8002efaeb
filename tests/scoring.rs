use precision_scorer::processor::DetectionResult;
use precision_scorer::scoring::{resolve, score, ScoringConfig};

fn cfg() -> ScoringConfig {
    ScoringConfig::default_50m_rifle()
}

#[test]
fn scenario_c_centre_shot() {
    assert_eq!(score(100_000, 100_000, 100_000, 100_000, &cfg()), 109);
}

#[test]
fn scenario_d_hole_52px_from_centre() {
    // 5.2 mm - 2.25 mm = 2.95 mm; 11 - 2.95 / 8 = 10.63 -> 10.6
    assert_eq!(score(152_000, 100_000, 100_000, 100_000, &cfg()), 106);
    assert_eq!(score(100_000, 48_000, 100_000, 100_000, &cfg()), 106);
}

#[test]
fn centre_scores_max_on_any_scale() {
    for ppm in [0u32, 1, 2_500, 10_000, 50_000, u32::MAX] {
        let c = ScoringConfig { pixels_per_m: ppm, ..cfg() };
        assert_eq!(score(7_000, 9_000, 7_000, 9_000, &c), 109);
    }
}

#[test]
fn far_hole_scores_zero() {
    // effective distance 88 mm = 11 ring widths: 90.25 mm = 902.5 px
    assert_eq!(score(1_002_500, 100_000, 100_000, 100_000, &cfg()), 0);
    assert_eq!(score(2_100_000, 100_000, 100_000, 100_000, &cfg()), 0);
    // just inside: 89.25 mm -> 87 mm effective -> 0.125 -> 0.1
    assert_eq!(score(992_500, 100_000, 100_000, 100_000, &cfg()), 1);
}

#[test]
fn score_formula_values() {
    // within the bullet radius: 10.9
    assert_eq!(score(110_000, 100_000, 100_000, 100_000, &cfg()), 109);
    // 10 mm: 7.75 mm effective -> 11 - 0.96875 = 10.03 -> 10.0
    assert_eq!(score(200_000, 100_000, 100_000, 100_000, &cfg()), 100);
    // 3-4-5 triangle: 50 px = 5 mm -> 2.75 mm -> 10.65625 -> 10.7
    assert_eq!(score(130_000, 140_000, 100_000, 100_000, &cfg()), 107);
}

#[test]
fn zero_scale_scores_zero_off_centre() {
    let c = ScoringConfig { pixels_per_m: 0, ..cfg() };
    assert_eq!(score(101_000, 100_000, 100_000, 100_000, &c), 0);
}

#[test]
fn resolve_gates_far_holes() {
    // gate radius: 77.2 mm * 1.5 * 10 px/mm = 1158 px
    let d = DetectionResult {
        target_center: (500, 500),
        holes: vec![(600_000, 500_000, 3_000), (1_700_000, 500_000, 3_000), (1_658_000, 500_000, 3_000)],
    };
    let r = resolve(&d, None, &cfg());
    assert_eq!(r.target_center, (500, 500));
    assert_eq!(r.holes, vec![(600_000, 500_000, 3_000), (1_658_000, 500_000, 3_000)]);
}

#[test]
fn resolve_uses_manual_centre() {
    let d = DetectionResult { target_center: (500, 500), holes: vec![(100_000, 100_000, 3_000)] };
    let c = ScoringConfig { target_diameter_um: 10_000, ..cfg() };
    // gate radius 75 px; manual centre 60.5 px away horizontally
    let r = resolve(&d, Some((160_500, 100_000)), &c);
    assert_eq!(r.target_center, (160, 100));
    assert_eq!(r.holes.len(), 1);
    let r = resolve(&d, None, &c);
    assert!(r.holes.is_empty());
}
