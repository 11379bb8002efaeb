use precision_scorer::frame::{crop, luminance, threshold_mask, CropMargins, Frame};
use precision_scorer::geometry::{centroid, polygon_area_x2, polygon_perimeter, sqrt_floor};
use precision_scorer::processor::Processor;

fn disk_frame(width: u32, height: u32, cx: i64, cy: i64, radius: i64) -> Frame {
    let mut rgb = Vec::with_capacity((width * height * 3) as usize);
    for y in 0..height as i64 {
        for x in 0..width as i64 {
            let dark = (x - cx) * (x - cx) + (y - cy) * (y - cy) <= radius * radius;
            let v = if dark { 0u8 } else { 255u8 };
            rgb.extend_from_slice(&[v, v, v]);
        }
    }
    Frame::from_rgb(width, height, rgb).unwrap()
}

fn rect_frame(width: u32, height: u32, x0: u32, y0: u32, w: u32, h: u32) -> Frame {
    let mut rgb = Vec::with_capacity((width * height * 3) as usize);
    for y in 0..height {
        for x in 0..width {
            let dark = x >= x0 && x < x0 + w && y >= y0 && y < y0 + h;
            let v = if dark { 0u8 } else { 255u8 };
            rgb.extend_from_slice(&[v, v, v]);
        }
    }
    Frame::from_rgb(width, height, rgb).unwrap()
}

#[test]
fn scenario_a_single_dark_blob() {
    let frame = disk_frame(640, 480, 100, 100, 12);
    let d = Processor::new().process(&frame).unwrap();
    assert_eq!(d.target_center, (320, 240));
    assert_eq!(d.holes.len(), 1);
    let (x, y, r) = d.holes[0];
    assert!((x as i64 - 100_000).abs() <= 500, "x = {}", x);
    assert!((y as i64 - 100_000).abs() <= 500, "y = {}", y);
    assert!((r as i64 - 12_000).abs() <= 1_000, "r = {}", r);
}

#[test]
fn detection_is_deterministic() {
    let frame = disk_frame(200, 150, 60, 70, 9);
    let p = Processor::new();
    let a = p.process(&frame).unwrap();
    let b = p.process(&frame).unwrap();
    assert_eq!(a.target_center, b.target_center);
    assert_eq!(a.holes, b.holes);
    assert_eq!(a.holes.len(), 1);
}

#[test]
fn holes_respect_radius_bounds() {
    let p = Processor::new();
    // too large: radius 40 px exceeds the 20 px maximum
    let big = disk_frame(200, 200, 100, 100, 40);
    assert!(p.process(&big).unwrap().holes.is_empty());
    // too small: a 3 by 3 square has too few border points
    let small = rect_frame(50, 50, 20, 20, 3, 3);
    assert!(p.process(&small).unwrap().holes.is_empty());
    let frame = disk_frame(300, 200, 150, 100, 10);
    for (_, _, r) in p.process(&frame).unwrap().holes {
        assert!(r >= p.min_hole_radius && r <= p.max_hole_radius);
    }
}

#[test]
fn elongated_blob_fails_circularity() {
    let p = Processor::new();
    let bar = rect_frame(200, 100, 20, 40, 120, 4);
    assert!(p.process(&bar).unwrap().holes.is_empty());
    let relaxed = Processor { threshold_value: 100, min_hole_radius: 0, max_hole_radius: 100_000, min_circularity: 0 };
    assert_eq!(relaxed.process(&bar).unwrap().holes.len(), 1);
}

#[test]
fn blank_frame_has_no_holes_and_centre_default() {
    let frame = rect_frame(31, 17, 0, 0, 0, 0);
    let d = Processor::new().process(&frame).unwrap();
    assert!(d.holes.is_empty());
    assert_eq!(d.target_center, (15, 8));
}

#[test]
fn empty_frame_is_rejected() {
    let frame = Frame::from_rgb(0, 10, Vec::new()).unwrap();
    assert!(Processor::new().process(&frame).is_none());
}

#[test]
fn from_rgb_checks_length() {
    assert!(Frame::from_rgb(2, 2, vec![0u8; 11]).is_none());
    assert!(Frame::from_rgb(2, 2, vec![0u8; 12]).is_some());
}

#[test]
fn luminance_uses_srgb_weights() {
    let frame = Frame::from_rgb(3, 1, vec![255, 0, 0, 0, 255, 0, 10, 20, 30]).unwrap();
    // (2126*255)/10000 = 54, (7152*255)/10000 = 182, (21260+143040+21660)/10000 = 18
    assert_eq!(luminance(&frame), vec![54, 182, 18]);
}

#[test]
fn threshold_marks_dark_pixels() {
    assert_eq!(threshold_mask(&vec![0, 99, 100, 255], 100), vec![255, 255, 0, 0]);
}

#[test]
fn crop_cuts_margins() {
    // 3 by 2 frame; pixel (x, y) has red = 10 * y + x
    let mut rgb = Vec::new();
    for y in 0..2u8 {
        for x in 0..3u8 {
            rgb.extend_from_slice(&[10 * y + x, 0, 0]);
        }
    }
    let frame = Frame::from_rgb(3, 2, rgb).unwrap();
    let m = CropMargins { left: 1, right: 0, top: 1, bottom: 0 };
    let c = crop(frame, &m);
    assert_eq!((c.width, c.height), (2, 1));
    assert_eq!(c.rgb, vec![11, 0, 0, 12, 0, 0]);
}

#[test]
fn crop_that_leaves_nothing_keeps_frame() {
    let frame = Frame::from_rgb(2, 2, vec![7u8; 12]).unwrap();
    let m = CropMargins { left: 1, right: 1, top: 0, bottom: 0 };
    let c = crop(frame, &m);
    assert_eq!((c.width, c.height), (2, 2));
    assert_eq!(c.rgb, vec![7u8; 12]);
}

#[test]
fn integer_square_root() {
    assert_eq!(sqrt_floor(0), 0);
    assert_eq!(sqrt_floor(1), 1);
    assert_eq!(sqrt_floor(15), 3);
    assert_eq!(sqrt_floor(16), 4);
    assert_eq!(sqrt_floor(2_000_000), 1414);
    assert_eq!(sqrt_floor(u128::MAX), u64::MAX as u128);
}

#[test]
fn polygon_measures_of_square() {
    let sq = vec![(0, 0), (2, 0), (2, 2), (0, 2)];
    assert_eq!(polygon_area_x2(&sq), 8);
    assert_eq!(polygon_perimeter(&sq), 8_000);
    assert_eq!(centroid(&sq), (1_000, 1_000));
    let diamond = vec![(1, 0), (2, 1), (1, 2), (0, 1)];
    assert_eq!(polygon_area_x2(&diamond), 4);
    assert_eq!(polygon_perimeter(&diamond), 4 * 1414);
}
