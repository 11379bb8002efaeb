use precision_scorer::engine::process_frame;
use precision_scorer::frame::{CropMargins, Frame};
use precision_scorer::processor::{DetectionResult, Processor};
use precision_scorer::scoring::score;
use precision_scorer::tracker::Scorer;

fn one_hole(x: u64, y: u64) -> DetectionResult {
    DetectionResult { target_center: (100, 100), holes: vec![(x, y, 4_000)] }
}

fn no_margins() -> CropMargins {
    CropMargins { left: 0, right: 0, top: 0, bottom: 0 }
}

fn disk_frame(width: u32, height: u32, cx: i64, cy: i64, radius: i64) -> Frame {
    let mut rgb = Vec::new();
    for y in 0..height as i64 {
        for x in 0..width as i64 {
            let dark = (x - cx) * (x - cx) + (y - cy) * (y - cy) <= radius * radius;
            let v = if dark { 0u8 } else { 255u8 };
            rgb.extend_from_slice(&[v, v, v]);
        }
    }
    Frame::from_rgb(width, height, rgb).unwrap()
}

#[test]
fn same_hole_scored_once() {
    let mut s = Scorer::new();
    let d = one_hole(152_000, 100_000);
    s.update(&d);
    assert_eq!(s.total_score, 106);
    assert_eq!(s.last_shot_score, Some(106));
    for _ in 0..5 {
        s.update(&d);
    }
    assert_eq!(s.total_score, 106);
    assert_eq!(s.known_holes.len(), 1);
    // a slightly shifted re-detection (9.9 px) is the same hole
    s.update(&one_hole(152_000, 109_900));
    assert_eq!(s.total_score, 106);
    // 10 px away is a new hole
    s.update(&one_hole(152_000, 110_000));
    assert_eq!(s.known_holes.len(), 2);
    assert_eq!(s.total_score, 106 + score(152_000, 110_000, 100_000, 100_000, &s.config) as u128);
}

#[test]
fn reset_forgets_holes() {
    let mut s = Scorer::new();
    let d = one_hole(100_000, 100_000);
    s.update(&d);
    assert_eq!(s.total_score, 109);
    s.reset();
    assert_eq!(s.total_score, 0);
    assert_eq!(s.last_shot_score, None);
    assert!(s.known_holes.is_empty());
    s.update(&d);
    assert_eq!(s.total_score, 109);
    assert_eq!(s.last_shot_score, Some(109));
}

#[test]
fn close_holes_in_one_detection_both_count() {
    let mut s = Scorer::new();
    let d = DetectionResult {
        target_center: (100, 100),
        holes: vec![(100_000, 100_000, 4_000), (103_000, 100_000, 4_000)],
    };
    let fresh = s.update(&d);
    assert_eq!(fresh, d.holes);
    assert_eq!(s.known_holes.len(), 2);
    assert_eq!(s.total_score, 218);
    assert!(s.update(&d).is_empty());
    assert_eq!(s.total_score, 218);
}

#[test]
fn scenario_b_same_frame_again() {
    let processor = Processor::new();
    let mut s = Scorer::new();
    let frame = disk_frame(640, 480, 100, 100, 12);
    let first = process_frame(&processor, &mut s, frame, &no_margins(), None).unwrap();
    assert_eq!(first.holes.len(), 1);
    let total = s.total_score;
    assert!(total > 0);
    let frame = disk_frame(640, 480, 100, 100, 12);
    let second = process_frame(&processor, &mut s, frame, &no_margins(), None).unwrap();
    assert_eq!(second.holes.len(), 1);
    assert_eq!(s.total_score, total);
    assert_eq!(s.known_holes.len(), 1);
}

#[test]
fn pipeline_crops_and_uses_manual_centre() {
    let processor = Processor::new();
    let mut s = Scorer::new();
    let frame = disk_frame(300, 200, 150, 100, 8);
    let m = CropMargins { left: 50, right: 50, top: 0, bottom: 0 };
    let d = process_frame(&processor, &mut s, frame, &m, Some((100_000, 100_000))).unwrap();
    assert_eq!(d.target_center, (100, 100));
    assert_eq!(d.holes.len(), 1);
    assert_eq!(s.known_holes.len(), 1);
    assert_eq!(s.last_shot_score, Some(109));
}

#[test]
fn pipeline_rejects_empty_frame() {
    let processor = Processor::new();
    let mut s = Scorer::new();
    let frame = Frame::from_rgb(0, 0, Vec::new()).unwrap();
    assert!(process_frame(&processor, &mut s, frame, &no_margins(), None).is_none());
    assert_eq!(s.total_score, 0);
}
