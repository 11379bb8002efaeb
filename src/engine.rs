//! One frame through the whole pipeline: crop, detect, resolve, track.
use vstd::prelude::*;
use crate::frame::{CropMargins, Frame, crop, crop_fits, window_of};
use crate::geometry::COORD_LIMIT;
use crate::processor::{DetectionResult, Processor, detected_holes};
use crate::scoring::{gate_center, gate_holes, resolve, resolved_center};
use crate::tracker::{Scorer, total_of, track};

verus! {

/// Size and samples of a frame after cropping (see `crop`).
pub open spec fn cropped(width: u32, height: u32, rgb: Seq<u8>, m: CropMargins) -> (u32, u32, Seq<u8>) {
    if crop_fits(width, height, m) {
        let cw = (width - m.left - m.right) as u32;
        let ch = (height - m.top - m.bottom) as u32;
        (cw, ch, window_of(rgb, width, m.left, m.top, cw, ch))
    } else {
        (width, height, rgb)
    }
}

/// The resolved detection of a frame: detection on the cropped frame, the
/// centre chosen, and the holes outside the target gate dropped.
pub open spec fn frame_detection(
    width: u32,
    height: u32,
    rgb: Seq<u8>,
    m: CropMargins,
    manual_center: Option<(u64, u64)>,
    processor: Processor,
    scorer_config: crate::scoring::ScoringConfig,
) -> ((u32, u32), Seq<(u64, u64, u64)>) {
    let (w, h, px) = cropped(width, height, rgb, m);
    let center = (w / 2, h / 2);
    let g = gate_center(center, manual_center);
    (
        resolved_center(center, manual_center),
        gate_holes(detected_holes(w, h, px, processor), g.0, g.1, scorer_config),
    )
}

/// Runs one frame through the pipeline and scores the holes it shows for
/// the first time. A frame that is empty after cropping, or too large,
/// yields nothing and leaves the scorer as it was.
pub fn process_frame(
    processor: &Processor,
    scorer: &mut Scorer,
    frame: Frame,
    margins: &CropMargins,
    manual_center: Option<(u64, u64)>,
) -> (r: Option<DetectionResult>)
    requires
        frame.wf(),
        old(scorer).wf(),
        manual_center matches Some(m) ==> m.0 < COORD_LIMIT && m.1 < COORD_LIMIT,
    ensures
        final(scorer).wf(),
        r.is_some() <==> {
            let (w, h, _) = cropped(frame.width, frame.height, frame.rgb@, *margins);
            0 < w <= i32::MAX && 0 < h <= i32::MAX
        },
        r.is_none() ==> *final(scorer) == *old(scorer),
        r matches Some(d) ==> {
            let expected = frame_detection(
                frame.width,
                frame.height,
                frame.rgb@,
                *margins,
                manual_center,
                *processor,
                old(scorer).config,
            );
            let added = track(old(scorer).known(), d.holes@, d.target_center, old(scorer).config);
            &&& d.target_center == expected.0
            &&& d.holes@ == expected.1
            &&& final(scorer).known() == added.0
            &&& final(scorer).total_score == old(scorer).total_score + total_of(added.1)
            &&& final(scorer).last_shot_score == if added.1.len() == 0 {
                old(scorer).last_shot_score
            } else {
                Some(added.1.last())
            }
            &&& final(scorer).config == old(scorer).config
        },
{
    let f = crop(frame, margins);
    match processor.process(&f) {
        Some(detection) => {
            let resolved = resolve(&detection, manual_center, &scorer.config);
            scorer.update(&resolved);
            Some(resolved)
        },
        None => None,
    }
}

} // verus!
