//! Differential detection: the record of known holes and the running score.
use vstd::prelude::*;
use crate::geometry::{COORD_LIMIT, SUBPIXELS, dist_sq, dist_sq_exec};
use crate::processor::{DetectionResult, holes_in_range};
use crate::scoring::{MAX_SHOT_SCORE, SAME_HOLE_TOLERANCE, ScoringConfig, score, shot_score};

verus! {

/// Whether the hole lies closer than the tolerance to a known hole.
pub open spec fn is_known(known: Seq<(u64, u64)>, h: (u64, u64, u64)) -> bool {
    exists|j: int|
        0 <= j < known.len() && #[trigger] dist_sq(known[j].0 as int, known[j].1 as int, h.0 as int, h.1 as int)
            < SAME_HOLE_TOLERANCE * SAME_HOLE_TOLERANCE
}

/// The known holes after the holes of one detection are examined in order,
/// and the scores of the holes found new, in order. Each hole is compared
/// only with the holes known before the detection, not with others of the
/// same detection; a new hole is appended and scored against `center`
/// (whole pixels).
pub open spec fn track(
    known: Seq<(u64, u64)>,
    holes: Seq<(u64, u64, u64)>,
    center: (u32, u32),
    cfg: ScoringConfig,
) -> (Seq<(u64, u64)>, Seq<u64>)
    decreases holes.len(),
{
    if holes.len() == 0 {
        (known, Seq::empty())
    } else {
        let prev = track(known, holes.drop_last(), center, cfg);
        let h = holes.last();
        if is_known(known, h) {
            prev
        } else {
            (
                prev.0.push((h.0, h.1)),
                prev.1.push(
                    shot_score(h.0 as int, h.1 as int, center.0 * SUBPIXELS, center.1 * SUBPIXELS, cfg) as u64,
                ),
            )
        }
    }
}

/// The holes of a detection that are not near any known hole, in order.
pub open spec fn fresh_holes(known: Seq<(u64, u64)>, holes: Seq<(u64, u64, u64)>) -> Seq<(u64, u64, u64)>
    decreases holes.len(),
{
    if holes.len() == 0 {
        Seq::empty()
    } else {
        let prev = fresh_holes(known, holes.drop_last());
        if is_known(known, holes.last()) {
            prev
        } else {
            prev.push(holes.last())
        }
    }
}

/// Sum of a sequence of scores.
pub open spec fn total_of(s: Seq<u64>) -> int
    decreases s.len(),
{
    if s.len() == 0 {
        0
    } else {
        total_of(s.drop_last()) + s.last()
    }
}

/// The scorer: holes recorded so far, and the score they earned when first
/// seen, in tenths of a point.
pub struct Scorer {
    pub known_holes: Vec<(u64, u64)>,
    pub shot_scores: Ghost<Seq<u64>>,
    pub total_score: u128,
    pub last_shot_score: Option<u64>,
    pub config: ScoringConfig,
}

impl Scorer {
    /// The positions of the holes recorded so far, in milli-pixels.
    pub open spec fn known(&self) -> Seq<(u64, u64)> {
        self.known_holes@
    }

    /// The score of each recorded hole, taken when it was first seen.
    pub open spec fn shots(&self) -> Seq<u64> {
        self.shot_scores@
    }

    /// One score per recorded hole, the total is their sum, and recorded
    /// positions lie within a frame's coordinate range.
    pub open spec fn wf(&self) -> bool {
        &&& self.shot_scores@.len() == self.known_holes@.len()
        &&& self.total_score == total_of(self.shot_scores@)
        &&& forall|i: int| 0 <= i < self.shot_scores@.len() ==> #[trigger] self.shot_scores@[i] <= MAX_SHOT_SCORE
        &&& forall|i: int|
            0 <= i < self.known_holes@.len() ==> #[trigger] self.known_holes@[i].0 < COORD_LIMIT
                && self.known_holes@[i].1 < COORD_LIMIT
    }

    /// An empty scorer with the 50 m rifle calibration.
    pub fn new() -> (r: Self)
        ensures
            r.wf(),
            r.known() == Seq::<(u64, u64)>::empty(),
            r.total_score == 0,
            r.last_shot_score.is_none(),
            r.config.target_diameter_um == 154_400,
            r.config.ring_10_diameter_um == 10_400,
            r.config.bullet_diameter_um == 4_500,
            r.config.pixels_per_m == 10_000,
    {
        Scorer {
            known_holes: Vec::new(),
            shot_scores: Ghost(Seq::empty()),
            total_score: 0,
            last_shot_score: None,
            config: ScoringConfig::default_50m_rifle(),
        }
    }

    /// Forgets every recorded hole and the score; the calibration stays.
    pub fn reset(&mut self)
        ensures
            final(self).wf(),
            final(self).known() == Seq::<(u64, u64)>::empty(),
            final(self).total_score == 0,
            final(self).last_shot_score.is_none(),
            final(self).config == old(self).config,
    {
        self.known_holes.clear();
        self.shot_scores = Ghost(Seq::empty());
        self.total_score = 0;
        self.last_shot_score = None;
    }

    /// Records the holes of `detection` that are not yet known, scoring each
    /// against the detection's centre, adds their scores to the total, and
    /// returns them.
    pub fn update(&mut self, detection: &DetectionResult) -> (new_holes: Vec<(u64, u64, u64)>)
        requires
            old(self).wf(),
            holes_in_range(detection.holes@),
        ensures
            final(self).wf(),
            final(self).known() == track(
                old(self).known(),
                detection.holes@,
                detection.target_center,
                old(self).config,
            ).0,
            final(self).shots() == old(self).shots() + track(
                old(self).known(),
                detection.holes@,
                detection.target_center,
                old(self).config,
            ).1,
            final(self).total_score == old(self).total_score + total_of(
                track(old(self).known(), detection.holes@, detection.target_center, old(self).config).1,
            ),
            final(self).last_shot_score == {
                let added = track(old(self).known(), detection.holes@, detection.target_center, old(self).config).1;
                if added.len() == 0 {
                    old(self).last_shot_score
                } else {
                    Some(added.last())
                }
            },
            final(self).config == old(self).config,
            new_holes@ == fresh_holes(old(self).known(), detection.holes@),
    {
        let (tx, ty) = detection.target_center;
        let mut fresh: Vec<(u64, u64, u64)> = Vec::new();
        let cx = tx as u64 * SUBPIXELS;
        let cy = ty as u64 * SUBPIXELS;
        let holes = &detection.holes;
        let ghost known0 = self.known_holes@;
        let ghost shots0 = self.shot_scores@;
        let ghost total0 = self.total_score;
        let ghost last0 = self.last_shot_score;
        let ghost cfg = self.config;
        let n0 = self.known_holes.len();
        let mut i: usize = 0;
        while i < holes.len()
            invariant
                holes == &detection.holes,
                holes_in_range(holes@),
                cx == tx * SUBPIXELS,
                cy == ty * SUBPIXELS,
                (tx, ty) == detection.target_center,
                i <= holes@.len(),
                self.config == cfg,
                self.wf(),
                n0 == known0.len(),
                total0 == total_of(shots0),
                fresh@ == fresh_holes(known0, holes@.take(i as int)),
                self.known_holes@ == track(known0, holes@.take(i as int), detection.target_center, cfg).0,
                self.shot_scores@ == shots0 + track(known0, holes@.take(i as int), detection.target_center, cfg).1,
                self.last_shot_score == {
                    let added = track(known0, holes@.take(i as int), detection.target_center, cfg).1;
                    if added.len() == 0 {
                        last0
                    } else {
                        Some(added.last())
                    }
                },
            decreases holes@.len() - i,
        {
            let h = holes[i];
            assert(holes@.take(i as int + 1).drop_last() =~= holes@.take(i as int));
            assert(holes@.take(i as int + 1).last() == h);
            proof {
                lemma_track_extends(known0, holes@.take(i as int), detection.target_center, cfg);
            }
            let mut found = false;
            let mut j: usize = 0;
            while j < n0
                invariant
                    self.wf(),
                    h.0 < COORD_LIMIT,
                    h.1 < COORD_LIMIT,
                    n0 == known0.len(),
                    n0 <= self.known_holes@.len(),
                    forall|k: int| 0 <= k < n0 ==> #[trigger] self.known_holes@[k] == known0[k],
                    j <= n0,
                    found == exists|k: int|
                        0 <= k < j && #[trigger] dist_sq(
                            known0[k].0 as int,
                            known0[k].1 as int,
                            h.0 as int,
                            h.1 as int,
                        ) < SAME_HOLE_TOLERANCE * SAME_HOLE_TOLERANCE,
                decreases n0 - j,
            {
                let k = self.known_holes[j];
                let d = dist_sq_exec(k.0, k.1, h.0, h.1);
                if d < (SAME_HOLE_TOLERANCE as u128) * (SAME_HOLE_TOLERANCE as u128) {
                    found = true;
                }
                j = j + 1;
            }
            if !found {
                let s = score(h.0, h.1, cx, cy, &self.config);
                let ghost prev_shots = self.shot_scores@;
                let recorded = self.known_holes.len();
                proof {
                    lemma_total_bound(prev_shots);
                    assert(self.total_score <= MAX_SHOT_SCORE * recorded);
                }
                self.known_holes.push((h.0, h.1));
                self.shot_scores = Ghost(prev_shots.push(s));
                assert(self.shot_scores@.drop_last() =~= prev_shots);
                self.total_score = self.total_score + s as u128;
                self.last_shot_score = Some(s);
                fresh.push(h);
                proof {
                    let added = track(known0, holes@.take(i as int), detection.target_center, cfg).1;
                    assert(shots0 + added.push(s) =~= (shots0 + added).push(s));
                }
            }
            i = i + 1;
        }
        assert(holes@.take(holes@.len() as int) =~= holes@);
        proof {
            let added = track(known0, holes@, detection.target_center, cfg).1;
            lemma_total_concat(shots0, added);
        }
        fresh
    }
}

/// The total of scores of at most 10.9 each fits easily in `u128`.
proof fn lemma_total_bound(s: Seq<u64>)
    requires
        forall|i: int| 0 <= i < s.len() ==> #[trigger] s[i] <= MAX_SHOT_SCORE,
    ensures
        0 <= total_of(s) <= MAX_SHOT_SCORE * s.len(),
    decreases s.len(),
{
    if s.len() > 0 {
        let t = s.drop_last();
        assert forall|i: int| 0 <= i < t.len() implies #[trigger] t[i] <= MAX_SHOT_SCORE by {
            assert(t[i] == s[i]);
        }
        lemma_total_bound(t);
        assert(s.last() == s[s.len() - 1]);
    }
}

/// The total of a concatenation is the sum of the totals.
pub proof fn lemma_total_concat(a: Seq<u64>, b: Seq<u64>)
    ensures
        total_of(a + b) == total_of(a) + total_of(b),
    decreases b.len(),
{
    if b.len() > 0 {
        assert((a + b).drop_last() =~= a + b.drop_last());
        lemma_total_concat(a, b.drop_last());
    } else {
        assert(a + b =~= a);
    }
}

/// Tracking only appends: the holes known before stay, at their places.
pub proof fn lemma_track_extends(
    known: Seq<(u64, u64)>,
    holes: Seq<(u64, u64, u64)>,
    center: (u32, u32),
    cfg: ScoringConfig,
)
    ensures
        track(known, holes, center, cfg).0.len() >= known.len(),
        forall|j: int| 0 <= j < known.len() ==> #[trigger] track(known, holes, center, cfg).0[j] == known[j],
    decreases holes.len(),
{
    if holes.len() > 0 {
        lemma_track_extends(known, holes.drop_last(), center, cfg);
    }
}

/// After tracking, every hole of the detection is known.
pub proof fn lemma_track_covers(
    known: Seq<(u64, u64)>,
    holes: Seq<(u64, u64, u64)>,
    center: (u32, u32),
    cfg: ScoringConfig,
)
    ensures
        forall|i: int| 0 <= i < holes.len() ==> is_known(track(known, holes, center, cfg).0, #[trigger] holes[i]),
    decreases holes.len(),
{
    if holes.len() > 0 {
        let prev = holes.drop_last();
        let k0 = track(known, prev, center, cfg).0;
        let k1 = track(known, holes, center, cfg).0;
        lemma_track_covers(known, prev, center, cfg);
        let h = holes.last();
        assert forall|i: int| 0 <= i < holes.len() implies is_known(k1, #[trigger] holes[i]) by {
            if i < holes.len() - 1 {
                assert(holes[i] == prev[i]);
                let hi = holes[i];
                let j = choose|j: int|
                    0 <= j < k0.len() && #[trigger] dist_sq(k0[j].0 as int, k0[j].1 as int, hi.0 as int, hi.1 as int)
                        < SAME_HOLE_TOLERANCE * SAME_HOLE_TOLERANCE;
                assert(k1[j] == k0[j]);
                assert(dist_sq(k1[j].0 as int, k1[j].1 as int, hi.0 as int, hi.1 as int)
                    < SAME_HOLE_TOLERANCE * SAME_HOLE_TOLERANCE);
            } else {
                assert(holes[i] == h);
                if is_known(known, h) {
                    lemma_track_extends(known, holes, center, cfg);
                    let j = choose|j: int|
                        0 <= j < known.len() && #[trigger] dist_sq(known[j].0 as int, known[j].1 as int, h.0 as int, h.1 as int)
                            < SAME_HOLE_TOLERANCE * SAME_HOLE_TOLERANCE;
                    assert(k1[j] == known[j]);
                    assert(dist_sq(k1[j].0 as int, k1[j].1 as int, h.0 as int, h.1 as int)
                        < SAME_HOLE_TOLERANCE * SAME_HOLE_TOLERANCE);
                } else {
                    let j = k0.len() as int;
                    assert(k1[j] == (h.0, h.1));
                    assert(dist_sq(k1[j].0 as int, k1[j].1 as int, h.0 as int, h.1 as int) == 0);
                }
            }
        }
    }
}

/// Holes that are all known already change nothing.
pub proof fn lemma_track_known_holes(
    known: Seq<(u64, u64)>,
    holes: Seq<(u64, u64, u64)>,
    center: (u32, u32),
    cfg: ScoringConfig,
)
    requires
        forall|i: int| 0 <= i < holes.len() ==> is_known(known, #[trigger] holes[i]),
    ensures
        track(known, holes, center, cfg) == (known, Seq::<u64>::empty()),
    decreases holes.len(),
{
    if holes.len() > 0 {
        let prev = holes.drop_last();
        assert forall|i: int| 0 <= i < prev.len() implies is_known(known, #[trigger] prev[i]) by {
            assert(prev[i] == holes[i]);
        }
        lemma_track_known_holes(known, prev, center, cfg);
        assert(holes.last() == holes[holes.len() - 1]);
    }
}

/// Seeing the same detection again records no hole and adds no score: a
/// hole is scored once, however many frames show it.
pub proof fn lemma_repeat_detection_adds_nothing(
    known: Seq<(u64, u64)>,
    holes: Seq<(u64, u64, u64)>,
    center: (u32, u32),
    cfg: ScoringConfig,
)
    ensures
        track(track(known, holes, center, cfg).0, holes, center, cfg) == (
            track(known, holes, center, cfg).0,
            Seq::<u64>::empty(),
        ),
        total_of(track(track(known, holes, center, cfg).0, holes, center, cfg).1) == 0,
{
    lemma_track_covers(known, holes, center, cfg);
    lemma_track_known_holes(track(known, holes, center, cfg).0, holes, center, cfg);
}

/// With nothing known (as after `reset`), any hole is new: it is recorded
/// and scored.
pub proof fn lemma_new_after_reset(h: (u64, u64, u64), center: (u32, u32), cfg: ScoringConfig)
    ensures
        track(Seq::empty(), seq![h], center, cfg) == (
            seq![(h.0, h.1)],
            seq![shot_score(h.0 as int, h.1 as int, center.0 * SUBPIXELS, center.1 * SUBPIXELS, cfg) as u64],
        ),
{
    let holes = seq![h];
    assert(holes.drop_last() =~= Seq::<(u64, u64, u64)>::empty());
    assert(!is_known(Seq::empty(), h));
    assert(Seq::<(u64, u64)>::empty().push((h.0, h.1)) =~= seq![(h.0, h.1)]);
    let sc = shot_score(h.0 as int, h.1 as int, center.0 * SUBPIXELS, center.1 * SUBPIXELS, cfg) as u64;
    assert(Seq::<u64>::empty().push(sc) =~= seq![sc]);
    assert(track(Seq::empty(), holes.drop_last(), center, cfg) == (Seq::<(u64, u64)>::empty(), Seq::<u64>::empty()));
    assert(holes.last() == h);
}

} // verus!
