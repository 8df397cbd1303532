//! Counting of motion contours and debouncing into motion signals.
use vstd::prelude::*;
use vstd::arithmetic::div_mod::lemma_fundamental_div_mod_converse;
use vstd::arithmetic::div_mod::{
    lemma_div_multiples_vanish, lemma_fundamental_div_mod, lemma_mod_bound, lemma_mod_multiples_basic,
};

verus! {

/// A pixel position of a contour in the comparison frame.
#[derive(Clone, Copy, Debug, PartialEq, Eq)]
pub struct Point {
    pub x: i32,
    pub y: i32,
}

/// The fixed parameters of the detector.
#[derive(Clone, Copy, Debug, PartialEq, Eq)]
pub struct DetectorParams {
    /// A contour counts as a detection when its bounding-box area exceeds this.
    pub area_threshold: u64,
    /// A signal is raised when the detection count exceeds this.
    pub debounce_count: u32,
    /// Both counters are cleared every this many frames.
    pub window_frames: u32,
}

impl DetectorParams {
    pub open spec fn wf(&self) -> bool {
        &&& self.debounce_count < u32::MAX
        &&& 1 <= self.window_frames < u32::MAX
    }

    /// Area threshold 250, debounce count 10, window of 30 frames.
    pub fn standard() -> (r: Self)
        ensures
            r.area_threshold == 250,
            r.debounce_count == 10,
            r.window_frames == 30,
            r.wf(),
    {
        DetectorParams { area_threshold: 250, debounce_count: 10, window_frames: 30 }
    }
}

pub open spec fn seq_min(s: Seq<int>) -> int
    decreases s.len(),
{
    if s.len() <= 1 {
        if s.len() == 0 { 0 } else { s[0] }
    } else {
        let m = seq_min(s.drop_last());
        if s.last() < m { s.last() } else { m }
    }
}

pub open spec fn seq_max(s: Seq<int>) -> int
    decreases s.len(),
{
    if s.len() <= 1 {
        if s.len() == 0 { 0 } else { s[0] }
    } else {
        let m = seq_max(s.drop_last());
        if s.last() > m { s.last() } else { m }
    }
}

pub open spec fn xs_of(pts: Seq<Point>) -> Seq<int> {
    pts.map_values(|p: Point| p.x as int)
}

pub open spec fn ys_of(pts: Seq<Point>) -> Seq<int> {
    pts.map_values(|p: Point| p.y as int)
}

/// The area of the smallest upright rectangle of whole pixels that holds
/// every point; zero for no points.
pub open spec fn bounding_area_spec(pts: Seq<Point>) -> int {
    if pts.len() == 0 {
        0
    } else {
        (seq_max(xs_of(pts)) - seq_min(xs_of(pts)) + 1) * (seq_max(ys_of(pts)) - seq_min(
            ys_of(pts),
        ) + 1)
    }
}

/// Whether a contour counts as a detection: its bounding-box area is strictly
/// greater than the threshold.
pub open spec fn is_detection(contour: Seq<Point>, threshold: u64) -> bool {
    bounding_area_spec(contour) > threshold
}

/// How many of the contours count as detections.
pub open spec fn hits(contours: Seq<Vec<Point>>, threshold: u64) -> nat
    decreases contours.len(),
{
    if contours.len() == 0 {
        0
    } else {
        hits(contours.drop_last(), threshold) + if is_detection(
            contours.last()@,
            threshold,
        ) {
            1nat
        } else {
            0nat
        }
    }
}

proof fn lemma_min_max_bounds(s: Seq<int>, i: int)
    requires
        0 <= i < s.len(),
    ensures
        seq_min(s) <= s[i] <= seq_max(s),
    decreases s.len(),
{
    if s.len() > 1 && i < s.len() - 1 {
        lemma_min_max_bounds(s.drop_last(), i);
    }
}

proof fn lemma_min_max_members(s: Seq<int>)
    requires
        s.len() > 0,
    ensures
        exists|i: int| 0 <= i < s.len() && s[i] == seq_min(s),
        exists|i: int| 0 <= i < s.len() && s[i] == seq_max(s),
    decreases s.len(),
{
    if s.len() > 1 {
        lemma_min_max_members(s.drop_last());
        let a = choose|i: int| 0 <= i < s.len() - 1 && s.drop_last()[i] == seq_min(s.drop_last());
        let b = choose|i: int| 0 <= i < s.len() - 1 && s.drop_last()[i] == seq_max(s.drop_last());
        assert(s[a] == s.drop_last()[a]);
        assert(s[b] == s.drop_last()[b]);
    } else {
        assert(s[0] == seq_min(s));
    }
}

/// Area of the bounding box of a contour, as a rectangle of whole pixels
/// from the smallest to the largest coordinate on each axis.
pub fn bounding_area(pts: &Vec<Point>) -> (r: u128)
    ensures
        r == bounding_area_spec(pts@),
{
    if pts.len() == 0 {
        return 0;
    }
    let mut min_x: i32 = pts[0].x;
    let mut max_x: i32 = pts[0].x;
    let mut min_y: i32 = pts[0].y;
    let mut max_y: i32 = pts[0].y;
    let mut i: usize = 1;
    proof {
        assert(xs_of(pts@).take(1) =~= seq![pts@[0].x as int]);
        assert(ys_of(pts@).take(1) =~= seq![pts@[0].y as int]);
    }
    while i < pts.len()
        invariant
            1 <= i <= pts@.len(),
            min_x == seq_min(xs_of(pts@).take(i as int)),
            max_x == seq_max(xs_of(pts@).take(i as int)),
            min_y == seq_min(ys_of(pts@).take(i as int)),
            max_y == seq_max(ys_of(pts@).take(i as int)),
        decreases pts@.len() - i,
    {
        let p = pts[i];
        proof {
            assert(xs_of(pts@).take(i + 1).drop_last() =~= xs_of(pts@).take(i as int));
            assert(ys_of(pts@).take(i + 1).drop_last() =~= ys_of(pts@).take(i as int));
        }
        if p.x < min_x {
            min_x = p.x;
        }
        if p.x > max_x {
            max_x = p.x;
        }
        if p.y < min_y {
            min_y = p.y;
        }
        if p.y > max_y {
            max_y = p.y;
        }
        i = i + 1;
    }
    proof {
        assert(xs_of(pts@).take(i as int) =~= xs_of(pts@));
        assert(ys_of(pts@).take(i as int) =~= ys_of(pts@));
        lemma_min_max_members(xs_of(pts@));
        lemma_min_max_members(ys_of(pts@));
        lemma_min_max_bounds(xs_of(pts@), 0);
        lemma_min_max_bounds(ys_of(pts@), 0);
    }
    let w: u128 = ((max_x as i64) - (min_x as i64) + 1) as u128;
    let h: u128 = ((max_y as i64) - (min_y as i64) + 1) as u128;
    proof {
        assert(w <= 0x1_0000_0000);
        assert(h <= 0x1_0000_0000);
        assert(w * h <= 0x1_0000_0000 * 0x1_0000_0000) by (nonlinear_arith)
            requires
                w <= 0x1_0000_0000,
                h <= 0x1_0000_0000,
        ;
    }
    w * h
}

/// The detector's counters between frames.
#[derive(Clone, Copy, Debug, PartialEq, Eq)]
pub struct MotionDetector {
    pub params: DetectorParams,
    /// Whether a previous frame has been stored to compare against.
    pub seeded: bool,
    /// Detections seen since the last signal or window reset.
    pub detection_count: u32,
    /// Frames seen since the last window reset.
    pub frame_count: u32,
}

/// The detector after one comparison frame in which `h` contours counted as
/// detections, and the number of signals raised during that frame.
pub open spec fn after_frame(d: MotionDetector, h: nat) -> (MotionDetector, nat) {
    if !d.seeded {
        (MotionDetector { seeded: true, frame_count: (d.frame_count + 1) as u32, ..d }, 0)
    } else {
        let frames = d.frame_count + 1;
        let total = d.detection_count + h;
        let period = d.params.debounce_count + 1;
        if frames >= d.params.window_frames {
            (
                MotionDetector { detection_count: 0, frame_count: 0, ..d },
                (total / period) as nat,
            )
        } else {
            (
                MotionDetector {
                    detection_count: (total % period) as u32,
                    frame_count: frames as u32,
                    ..d
                },
                (total / period) as nat,
            )
        }
    }
}

impl MotionDetector {
    pub open spec fn wf(&self) -> bool {
        &&& self.params.wf()
        &&& self.detection_count <= self.params.debounce_count
        &&& self.frame_count <= self.params.window_frames
        &&& !self.seeded ==> self.frame_count == 0
    }

    /// A detector that has seen no frame.
    pub fn new(params: DetectorParams) -> (r: Self)
        requires
            params.wf(),
        ensures
            r.wf(),
            r.params == params,
            !r.seeded,
            r.detection_count == 0,
            r.frame_count == 0,
    {
        MotionDetector { params, seeded: false, detection_count: 0, frame_count: 0 }
    }

    /// Counts one detection. When the count exceeds the debounce count, one
    /// signal is raised (`true`) and the count goes back to zero.
    pub fn record_detection(&mut self) -> (signal: bool)
        requires
            old(self).wf(),
        ensures
            final(self).wf(),
            final(self).params == old(self).params,
            final(self).seeded == old(self).seeded,
            final(self).frame_count == old(self).frame_count,
            signal == (old(self).detection_count + 1 > old(self).params.debounce_count),
            signal ==> final(self).detection_count == 0,
            !signal ==> final(self).detection_count == old(self).detection_count + 1,
    {
        self.detection_count = self.detection_count + 1;
        if self.detection_count > self.params.debounce_count {
            self.detection_count = 0;
            true
        } else {
            false
        }
    }

    /// Takes the contours of the motion mask of one frame and returns how many
    /// motion signals to raise. The first frame only seeds the comparison and
    /// its contours are not looked at. Each contour whose bounding-box area is
    /// strictly greater than the threshold counts one detection; every time
    /// the count exceeds the debounce count a signal is raised and the count
    /// restarts from zero. When the window of frames is full, both counters
    /// are cleared.
    pub fn observe_frame(&mut self, contours: &Vec<Vec<Point>>) -> (signals: usize)
        requires
            old(self).wf(),
        ensures
            final(self).wf(),
            (*final(self), signals as nat) == after_frame(
                *old(self),
                hits(contours@, old(self).params.area_threshold),
            ),
    {
        if !self.seeded {
            self.seeded = true;
            self.frame_count = self.frame_count + 1;
            proof {
                assert(hits(contours@, old(self).params.area_threshold) >= 0);
            }
            return 0;
        }
        let frames: u32 = self.frame_count + 1;
        let ghost start = self.detection_count as int;
        let ghost period = self.params.debounce_count + 1;
        let ghost thr = self.params.area_threshold;
        let mut signals: usize = 0;
        let mut i: usize = 0;
        while i < contours.len()
            invariant
                self.wf(),
                self.params == old(self).params,
                self.seeded,
                self.frame_count == old(self).frame_count,
                frames == old(self).frame_count + 1,
                start == old(self).detection_count,
                period == self.params.debounce_count + 1,
                thr == self.params.area_threshold,
                i <= contours@.len(),
                signals <= i,
                signals * period + self.detection_count == start + hits(
                    contours@.take(i as int),
                    thr,
                ),
            decreases contours@.len() - i,
        {
            proof {
                assert(contours@.take(i + 1).drop_last() =~= contours@.take(i as int));
            }
            let area = bounding_area(&contours[i]);
            if area > self.params.area_threshold as u128 {
                if self.record_detection() {
                    signals = signals + 1;
                }
            }
            proof {
                assert(signals * period == (signals - 1) * period + period || signals == 0)
                    by (nonlinear_arith);
            }
            i = i + 1;
        }
        proof {
            assert(contours@.take(i as int) =~= contours@);
            lemma_fundamental_div_mod_converse(
                start + hits(contours@, thr),
                period,
                signals as int,
                self.detection_count as int,
            );
        }
        if frames >= self.params.window_frames {
            self.frame_count = 0;
            self.detection_count = 0;
        } else {
            self.frame_count = frames;
        }
        signals
    }
}

/// The detector after a run of comparison frames, the `k`-th of which had
/// `hs[k]` detections, and the number of signals raised during the run.
pub open spec fn after_frames(d: MotionDetector, hs: Seq<nat>) -> (MotionDetector, nat)
    decreases hs.len(),
{
    if hs.len() == 0 {
        (d, 0)
    } else {
        let (d1, s1) = after_frames(d, hs.drop_last());
        let (d2, s2) = after_frame(d1, hs.last());
        (d2, s1 + s2)
    }
}

pub open spec fn total(hs: Seq<nat>) -> nat
    decreases hs.len(),
{
    if hs.len() == 0 {
        0
    } else {
        total(hs.drop_last()) + hs.last()
    }
}

/// Every time the debounce count is crossed exactly one signal is raised and
/// the count is back at zero: within one window, `k` full crossings from a
/// zero count raise `k` signals and leave the count at zero.
pub proof fn lemma_one_signal_per_crossing(d: MotionDetector, k: nat)
    requires
        d.wf(),
        d.seeded,
        d.detection_count == 0,
        d.frame_count + 1 < d.params.window_frames,
    ensures
        after_frame(d, k * (d.params.debounce_count + 1) as nat).1 == k,
        after_frame(d, k * (d.params.debounce_count + 1) as nat).0.detection_count == 0,
{
    let p = d.params.debounce_count + 1;
    lemma_div_multiples_vanish(k as int, p as int);
    lemma_mod_multiples_basic(k as int, p as int);
}

proof fn lemma_carry(t: int, h: int, p: int)
    requires
        t >= 0,
        h >= 0,
        p > 0,
    ensures
        t / p + (t % p + h) / p == (t + h) / p,
        (t % p + h) % p == (t + h) % p,
{
    lemma_fundamental_div_mod(t, p);
    lemma_fundamental_div_mod(t % p + h, p);
    lemma_mod_bound(t, p);
    lemma_mod_bound(t % p + h, p);
    let q = t / p;
    let q2 = (t % p + h) / p;
    let r2 = (t % p + h) % p;
    assert(t + h == (q + q2) * p + r2) by (nonlinear_arith)
        requires
            t == p * q + t % p,
            t % p + h == p * q2 + r2,
    ;
    lemma_fundamental_div_mod_converse(t + h, p, q + q2, r2);
}

/// Signals are counted per window: from a window's start with a zero count,
/// the frames of that window (or of its beginning) raise as many signals as
/// the debounce count is crossed by all their detections together, that is
/// their total divided by one more than the debounce count. Within the
/// window the remainder is left as the count; when the window is full both
/// counters are zero.
pub proof fn lemma_signals_per_window(d: MotionDetector, hs: Seq<nat>)
    requires
        d.wf(),
        d.seeded,
        d.detection_count == 0,
        d.frame_count < d.params.window_frames,
        d.frame_count + hs.len() <= d.params.window_frames,
    ensures
        after_frames(d, hs).1 == total(hs) / (d.params.debounce_count + 1) as nat,
        after_frames(d, hs).0.seeded,
        after_frames(d, hs).0.params == d.params,
        after_frames(d, hs).0.wf(),
        d.frame_count + hs.len() < d.params.window_frames ==> {
            &&& after_frames(d, hs).0.frame_count == d.frame_count + hs.len()
            &&& after_frames(d, hs).0.detection_count == total(hs) % (d.params.debounce_count
                + 1) as nat
        },
        d.frame_count + hs.len() == d.params.window_frames ==> {
            &&& after_frames(d, hs).0.frame_count == 0
            &&& after_frames(d, hs).0.detection_count == 0
        },
    decreases hs.len(),
{
    let p = (d.params.debounce_count + 1) as int;
    if hs.len() == 0 {
        assert(0int / p == 0) by (nonlinear_arith)
            requires
                p > 0,
        ;
        assert(0int % p == 0) by (nonlinear_arith)
            requires
                p > 0,
        ;
    } else {
        lemma_signals_per_window(d, hs.drop_last());
        let t = total(hs.drop_last()) as int;
        let h = hs.last() as int;
        lemma_carry(t, h, p);
        lemma_mod_bound(t + h, p);
    }
}

/// The window reset clears both counters whatever partial count was
/// gathered: from a window's start, the frames up to its end whose
/// detections together do not exceed the debounce count raise no signal and
/// end with both counters at zero.
pub proof fn lemma_window_reset_discards_partial_count(d: MotionDetector, hs: Seq<nat>)
    requires
        d.wf(),
        d.seeded,
        d.detection_count == 0,
        d.frame_count < d.params.window_frames,
        d.frame_count + hs.len() == d.params.window_frames,
        total(hs) <= d.params.debounce_count,
    ensures
        after_frames(d, hs).1 == 0,
        after_frames(d, hs).0.detection_count == 0,
        after_frames(d, hs).0.frame_count == 0,
        after_frames(d, hs).0.params == d.params,
{
    lemma_signals_per_window(d, hs);
    let t = total(hs) as int;
    let p = (d.params.debounce_count + 1) as int;
    assert(t / p == 0) by (nonlinear_arith)
        requires
            0 <= t < p,
    ;
}

proof fn lemma_after_frames_split(d: MotionDetector, a: Seq<nat>, b: Seq<nat>)
    ensures
        after_frames(d, a + b).0 == after_frames(after_frames(d, a).0, b).0,
        after_frames(d, a + b).1 == after_frames(d, a).1 + after_frames(after_frames(d, a).0, b).1,
    decreases b.len(),
{
    if b.len() == 0 {
        assert(a + b =~= a);
    } else {
        lemma_after_frames_split(d, a, b.drop_last());
        assert((a + b).drop_last() =~= a + b.drop_last());
        assert((a + b).last() == b.last());
    }
}

/// Partial counts of two windows never add up: a full window and the start
/// of the next, each with detections that together do not exceed the
/// debounce count, raise no signal between them.
pub proof fn lemma_windows_do_not_combine(d: MotionDetector, first: Seq<nat>, second: Seq<nat>)
    requires
        d.wf(),
        d.seeded,
        d.detection_count == 0,
        d.frame_count < d.params.window_frames,
        d.frame_count + first.len() == d.params.window_frames,
        second.len() <= d.params.window_frames,
        total(first) <= d.params.debounce_count,
        total(second) <= d.params.debounce_count,
    ensures
        after_frames(d, first + second).1 == 0,
{
    lemma_window_reset_discards_partial_count(d, first);
    lemma_signals_per_window(d, first);
    let mid = after_frames(d, first).0;
    if second.len() == 0 {
        assert(after_frames(mid, second).1 == 0);
    } else {
        lemma_signals_per_window(mid, second);
    }
    lemma_after_frames_split(d, first, second);
    let t = total(second) as int;
    let p = (d.params.debounce_count + 1) as int;
    assert(t / p == 0) by (nonlinear_arith)
        requires
            0 <= t < p,
    ;
}

/// A contour whose bounding-box area equals the threshold is no detection: a
/// frame made of it alone leaves the detection count as it was.
pub proof fn lemma_area_at_threshold_is_no_detection(d: MotionDetector, contour: Vec<Point>)
    requires
        d.wf(),
        d.seeded,
        bounding_area_spec(contour@) == d.params.area_threshold,
        d.frame_count + 1 < d.params.window_frames,
    ensures
        hits(seq![contour], d.params.area_threshold) == 0,
        after_frame(d, hits(seq![contour], d.params.area_threshold)).1 == 0,
        after_frame(d, hits(seq![contour], d.params.area_threshold)).0.detection_count
            == d.detection_count,
{
    let s = seq![contour];
    assert(s.drop_last() =~= Seq::<Vec<Point>>::empty());
    assert(s.last() == contour);
    assert(hits(s.drop_last(), d.params.area_threshold) == 0);
    assert(!is_detection(s.last()@, d.params.area_threshold));
    let t = d.detection_count as int;
    let p = d.params.debounce_count + 1;
    assert(t / p == 0) by (nonlinear_arith)
        requires
            0 <= t < p,
    ;
    assert(t % p == t) by (nonlinear_arith)
        requires
            0 <= t < p,
    ;
}

} // verus!
