//! Hole detection on a raster frame.
use vstd::prelude::*;
use crate::frame::{Frame, gray_of, luminance, mask_of, threshold_mask};
use crate::geometry::{
    COORD_LIMIT, centroid, double_area, isqrt, mean_point, non_negative, perimeter,
    polygon_area_x2, polygon_perimeter, sqrt_floor, lemma_isqrt_below,
};

verus! {

/// What one frame yields: the target centre in whole pixels and the holes
/// found, each as (x, y, radius) in milli-pixels.
pub struct DetectionResult {
    pub target_center: (u32, u32),
    pub holes: Vec<(u64, u64, u64)>,
}

/// Every hole position lies within the coordinate range of a frame.
pub open spec fn holes_in_range(holes: Seq<(u64, u64, u64)>) -> bool {
    forall|i: int|
        0 <= i < holes.len() ==> #[trigger] holes[i].0 < COORD_LIMIT && holes[i].1 < COORD_LIMIT
}

/// Contours with at most this many points are noise.
pub const MIN_CONTOUR_POINTS: usize = 10;

/// Contours with at least this many points are background.
pub const MAX_CONTOUR_POINTS: usize = 500;

/// Numerator of the rational approximation 355/113 of pi.
pub const PI_NUM: u64 = 355;

/// Denominator of the rational approximation 355/113 of pi.
pub const PI_DEN: u64 = 113;

/// Detection settings: luminance threshold, accepted hole radii in
/// milli-pixels, and the least circularity in thousandths (1000 is a disk).
pub struct Processor {
    pub threshold_value: u8,
    pub min_hole_radius: u64,
    pub max_hole_radius: u64,
    pub min_circularity: u16,
}

/// Whether a polygon with twice-area `a2` (square pixels) and perimeter
/// `per` (milli-pixels) has circularity `4 pi area / perimeter^2` of at least
/// `min_c / 1000`. With area `a2 / 2` and perimeter `per / 1000` pixels this
/// is `2 pi a2 10^9 >= min_c per^2`, compared exactly with pi as 355/113.
pub open spec fn circular_enough(a2: nat, per: nat, min_c: u16) -> bool {
    2 * PI_NUM * a2 * 1_000_000_000 >= PI_DEN * min_c * (per * per)
}

/// Radius in milli-pixels, rounded down, of the disk whose area is `a2 / 2`
/// square pixels: `sqrt(area / pi)`, with pi as 355/113.
pub open spec fn radius_of_area(a2: nat) -> nat {
    isqrt((a2 * PI_DEN * 1_000_000 / (2 * PI_NUM)) as nat)
}

/// The hole (centroid and radius, milli-pixels) a contour stands for, if it
/// passes the point count, circularity and radius filters.
pub open spec fn candidate_hole(c: Seq<(i32, i32)>, p: Processor) -> Option<(u64, u64, u64)> {
    let a2 = double_area(c);
    let per = perimeter(c);
    let r = radius_of_area(a2);
    if !(MIN_CONTOUR_POINTS < c.len() < MAX_CONTOUR_POINTS) {
        None
    } else if per == 0 || !circular_enough(a2, per, p.min_circularity) {
        None
    } else if r < p.min_hole_radius || r > p.max_hole_radius {
        None
    } else {
        Some((mean_point(c).0 as u64, mean_point(c).1 as u64, r as u64))
    }
}

/// The holes of the contours that pass the filters, in contour order.
pub open spec fn holes_of(contours: Seq<Seq<(i32, i32)>>, p: Processor) -> Seq<(u64, u64, u64)>
    decreases contours.len(),
{
    if contours.len() == 0 {
        Seq::empty()
    } else {
        let prev = holes_of(contours.drop_last(), p);
        match candidate_hole(contours.last(), p) {
            Some(h) => prev.push(h),
            None => prev,
        }
    }
}

/// The borders of the foreground regions (non-zero pixels) of a
/// `width` by `height` mask, as traced by imageproc's border following.
pub uninterp spec fn contours_of(width: nat, height: nat, mask: Seq<u8>) -> Seq<Seq<(i32, i32)>>;

/// Relies on `imageproc::contours::find_contours`: it returns the borders of
/// the non-zero regions of the mask, each point a pixel position inside the
/// image. It panics when a position does not fit `i32`, hence the bound.
#[verifier::external_body]
fn find_contours(mask: &Vec<u8>, width: u32, height: u32) -> (r: Vec<Vec<(i32, i32)>>)
    requires
        mask@.len() == width * height,
        width <= i32::MAX,
        height <= i32::MAX,
    ensures
        r@.len() == contours_of(width as nat, height as nat, mask@).len(),
        forall|i: int| 0 <= i < r@.len() ==> #[trigger] r@[i]@ == contours_of(width as nat, height as nat, mask@)[i],
        forall|i: int, k: int|
            0 <= i < r@.len() && 0 <= k < r@[i]@.len() ==> 0 <= #[trigger] r@[i]@[k].0 < width && 0 <= r@[i]@[k].1
                < height,
{
    let img = image::GrayImage::from_raw(width, height, mask.clone()).unwrap();
    imageproc::contours::find_contours::<i32>(&img)
        .into_iter()
        .map(|c| c.points.into_iter().map(|p| (p.x, p.y)).collect())
        .collect()
}

/// The holes that `p` finds in a `width` by `height` RGB frame.
pub open spec fn detected_holes(width: u32, height: u32, rgb: Seq<u8>, p: Processor) -> Seq<(u64, u64, u64)> {
    holes_of(
        contours_of(width as nat, height as nat, mask_of(gray_of(rgb, (width * height) as nat), p.threshold_value)),
        p,
    )
}

impl Processor {
    /// Threshold 100, radii from 2 to 20 pixels, circularity at least 0.7.
    pub fn new() -> (r: Self)
        ensures
            r.threshold_value == 100,
            r.min_hole_radius == 2_000,
            r.max_hole_radius == 20_000,
            r.min_circularity == 700,
    {
        Processor { threshold_value: 100, min_hole_radius: 2_000, max_hole_radius: 20_000, min_circularity: 700 }
    }

    /// The hole a contour stands for, if it passes the filters.
    pub fn evaluate_contour(&self, points: &Vec<(i32, i32)>) -> (r: Option<(u64, u64, u64)>)
        requires
            non_negative(points@),
            forall|k: int| 0 <= k < points@.len() ==> #[trigger] points@[k].0 <= i32::MAX && points@[k].1 <= i32::MAX,
        ensures
            r == candidate_hole(points@, *self),
            r matches Some(h) ==> h.0 < COORD_LIMIT && h.1 < COORD_LIMIT,
    {
        let n = points.len();
        if n <= MIN_CONTOUR_POINTS || n >= MAX_CONTOUR_POINTS {
            return None;
        }
        let a2 = polygon_area_x2(points);
        let per = polygon_perimeter(points);
        if per == 0 {
            return None;
        }
        proof {
            assert(a2 < 0x1_0000_0000_0000_0000_0000);
            assert(per < 0x10_0000_0000_0000);
            assert(per * per < 0x100_0000_0000_0000_0000_0000_0000) by (nonlinear_arith)
                requires
                    per < 0x10_0000_0000_0000,
            ;
            assert(PI_DEN * self.min_circularity * (per * per) < 0x8000_0000_0000_0000_0000_0000_0000_0000) by (nonlinear_arith)
                requires
                    per * per < 0x100_0000_0000_0000_0000_0000_0000,
                    self.min_circularity <= 0xffff,
                    PI_DEN == 113,
            ;
        }
        proof {
            assert(2 * PI_NUM * a2 * 1_000_000_000 < 0x100_0000_0000_0000_0000_0000_0000_0000) by (nonlinear_arith)
                requires
                    a2 < 0x1_0000_0000_0000_0000_0000,
                    PI_NUM == 355,
            ;
            assert(a2 * PI_DEN * 1_000_000 < 0x100_0000_0000_0000_0000_0000_0000_0000) by (nonlinear_arith)
                requires
                    a2 < 0x1_0000_0000_0000_0000_0000,
                    PI_DEN == 113,
            ;
        }
        let lhs = 2 * (PI_NUM as u128) * a2 * 1_000_000_000;
        let rhs = (PI_DEN as u128) * (self.min_circularity as u128) * (per * per);
        if lhs < rhs {
            return None;
        }
        let q = a2 * (PI_DEN as u128) * 1_000_000 / (2 * PI_NUM as u128);
        let r = sqrt_floor(q);
        proof {
            lemma_isqrt_below(q as nat, 0x2_0000_0000_0000);
        }
        let r = r as u64;
        if r < self.min_hole_radius || r > self.max_hole_radius {
            return None;
        }
        let c = centroid(points);
        Some((c.0, c.1, r))
    }

    /// The holes of the contours that pass the filters, in contour order.
    pub fn holes_from_contours(&self, contours: &Vec<Vec<(i32, i32)>>) -> (r: Vec<(u64, u64, u64)>)
        requires
            forall|j: int, k: int|
                0 <= j < contours@.len() && 0 <= k < contours@[j]@.len() ==> 0 <= #[trigger] contours@[j]@[k].0
                    && 0 <= contours@[j]@[k].1,
        ensures
            r@ == holes_of(contours@.map_values(|c: Vec<(i32, i32)>| c@), *self),
            holes_in_range(r@),
            forall|k: int| 0 <= k < r@.len() ==> self.min_hole_radius <= #[trigger] r@[k].2 <= self.max_hole_radius,
    {
        let ghost cs = contours@.map_values(|c: Vec<(i32, i32)>| c@);
        let mut holes: Vec<(u64, u64, u64)> = Vec::new();
        let mut i: usize = 0;
        while i < contours.len()
            invariant
                cs == contours@.map_values(|c: Vec<(i32, i32)>| c@),
                forall|j: int, k: int|
                    0 <= j < contours@.len() && 0 <= k < contours@[j]@.len() ==> 0 <= #[trigger] contours@[j]@[k].0
                        && 0 <= contours@[j]@[k].1,
                i <= contours@.len(),
                holes@ == holes_of(cs.take(i as int), *self),
                holes_in_range(holes@),
                forall|k: int|
                    0 <= k < holes@.len() ==> self.min_hole_radius <= #[trigger] holes@[k].2 <= self.max_hole_radius,
            decreases contours@.len() - i,
        {
            let c = &contours[i];
            assert(cs.take(i as int + 1).drop_last() =~= cs.take(i as int));
            assert(cs.take(i as int + 1).last() == c@);
            assert forall|k: int| 0 <= k < c@.len() implies 0 <= #[trigger] c@[k].0 && 0 <= c@[k].1 by {
                assert(contours@[i as int]@[k].0 == c@[k].0);
            }
            if let Some(h) = self.evaluate_contour(c) {
                holes.push(h);
            }
            i = i + 1;
        }
        assert(cs.take(cs.len() as int) =~= cs);
        holes
    }

    /// Finds the holes in a frame: pixels darker than the threshold form
    /// regions, and each region border that passes the point count,
    /// circularity and radius filters yields its centroid and equal-area
    /// radius. The centre is the middle of the frame. A frame with no pixel,
    /// or with a side beyond `i32::MAX`, yields nothing.
    pub fn process(&self, frame: &Frame) -> (r: Option<DetectionResult>)
        requires
            frame.wf(),
        ensures
            r.is_some() <==> (0 < frame.width <= i32::MAX && 0 < frame.height <= i32::MAX),
            r matches Some(d) ==> {
                &&& d.target_center == (frame.width / 2, frame.height / 2)
                &&& d.holes@ == detected_holes(frame.width, frame.height, frame.rgb@, *self)
                &&& holes_in_range(d.holes@)
                &&& forall|i: int|
                    0 <= i < d.holes@.len() ==> self.min_hole_radius <= #[trigger] d.holes@[i].2
                        <= self.max_hole_radius
            },
    {
        if frame.width == 0 || frame.height == 0 || frame.width > i32::MAX as u32 || frame.height > i32::MAX as u32 {
            return None;
        }
        let gray = luminance(frame);
        let mask = threshold_mask(&gray, self.threshold_value);
        let contours = find_contours(&mask, frame.width, frame.height);
        let ghost cs = contours_of(frame.width as nat, frame.height as nat, mask@);
        assert(contours@.map_values(|c: Vec<(i32, i32)>| c@) =~= cs);
        let holes = self.holes_from_contours(&contours);
        Some(DetectionResult { target_center: (frame.width / 2, frame.height / 2), holes })
    }
}

/// Whether some contour of `contours` passes the perimeter and circularity
/// filters and has the radius of `h`, which lies within the accepted range.
pub open spec fn from_filtered_contour(contours: Seq<Seq<(i32, i32)>>, p: Processor, h: (u64, u64, u64)) -> bool {
    exists|k: int|
        0 <= k < contours.len() && {
            let c = #[trigger] contours[k];
            &&& perimeter(c) > 0
            &&& circular_enough(double_area(c), perimeter(c), p.min_circularity)
            &&& h.2 == radius_of_area(double_area(c))
            &&& p.min_hole_radius <= h.2 <= p.max_hole_radius
        }
}

/// Every detected hole comes from a contour whose circularity reaches the
/// minimum, and its radius (the contour's equal-area radius) lies within the
/// accepted range.
pub proof fn lemma_holes_pass_filters(contours: Seq<Seq<(i32, i32)>>, p: Processor)
    ensures
        forall|i: int|
            0 <= i < holes_of(contours, p).len() ==> from_filtered_contour(
                contours,
                p,
                #[trigger] holes_of(contours, p)[i],
            ),
    decreases contours.len(),
{
    if contours.len() > 0 {
        let prev = contours.drop_last();
        lemma_holes_pass_filters(prev, p);
        let hs = holes_of(contours, p);
        let hp = holes_of(prev, p);
        assert forall|i: int| 0 <= i < hs.len() implies from_filtered_contour(contours, p, #[trigger] hs[i]) by {
            if i < hp.len() {
                assert(hs[i] == hp[i]);
                assert(from_filtered_contour(prev, p, hp[i]));
                let k = choose|k: int|
                    0 <= k < prev.len() && {
                        let c = #[trigger] prev[k];
                        &&& perimeter(c) > 0
                        &&& circular_enough(double_area(c), perimeter(c), p.min_circularity)
                        &&& hp[i].2 == radius_of_area(double_area(c))
                        &&& p.min_hole_radius <= hp[i].2 <= p.max_hole_radius
                    };
                assert(contours[k] == prev[k]);
            } else {
                let k = contours.len() - 1;
                assert(contours[k] == contours.last());
            }
        }
    }
}

/// Detection is a function of the frame and the settings alone: two frames
/// with the same size and samples yield the same holes.
pub proof fn lemma_detection_deterministic(a: &Frame, b: &Frame, p: Processor)
    requires
        a.width == b.width,
        a.height == b.height,
        a.rgb@ == b.rgb@,
    ensures
        detected_holes(a.width, a.height, a.rgb@, p) == detected_holes(b.width, b.height, b.rgb@, p),
{
}

} // verus!
