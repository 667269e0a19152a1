use vstd::prelude::*;
use crate::point::{dist_sq, distance_sq, StrokePoint};
use crate::ribbon::MAX_BRUSH_SCALE;
use crate::stroke::{Stroke, MIN_BRUSH_SCALE};

verus! {

/// Square of the smallest distance that admits a sample on its own:
/// 1.5 pixels, in square sub-pixel units.
pub const MIN_SAMPLE_DISTANCE_SQ: u128 = 147456;

/// Time after the last accepted sample that admits a sample on its own, in milliseconds.
pub const SAMPLE_INTERVAL_MS: u64 = 16;

/// Decides which pointer moves become samples of the active stroke.
#[derive(Clone, Copy, Debug, PartialEq, Eq)]
pub struct Sampler {
    /// When the last sample was accepted, or none outside a stroke.
    pub last_sample_ms: Option<u64>,
}

/// The candidate lies at least the minimum sample distance from the last point.
pub open spec fn far_enough(last: StrokePoint, p: StrokePoint) -> bool {
    dist_sq(last, p) >= MIN_SAMPLE_DISTANCE_SQ
}

/// The sample interval has passed since the last accepted sample (or none was recorded).
pub open spec fn interval_elapsed(last_ms: Option<u64>, now: u64) -> bool {
    match last_ms {
        Some(t) => now >= t && now - t >= SAMPLE_INTERVAL_MS,
        None => true,
    }
}

/// Whether a candidate `p` at time `now` is kept: the first move of a stroke always is;
/// after that, one that is both too close and too soon is dropped.
pub open spec fn accepts(pts: Seq<StrokePoint>, last_ms: Option<u64>, p: StrokePoint, now: u64) -> bool {
    pts.len() < 2 || !(!far_enough(pts.last(), p) && !interval_elapsed(last_ms, now))
}

impl Sampler {
    /// A sampler outside any stroke.
    pub fn new() -> (r: Sampler)
        ensures
            r.last_sample_ms is None,
    {
        Sampler { last_sample_ms: None }
    }

    /// Starts a stroke at `p` and records `now` as its start time.
    pub fn begin_stroke(&mut self, p: StrokePoint, color: u32, size: u32, now: u64) -> (r: Stroke)
        requires
            MIN_BRUSH_SCALE <= size <= MAX_BRUSH_SCALE,
        ensures
            r.wf(),
            r.points@ == seq![p],
            r.color == color,
            r.size == size,
            r.geometry is None,
            final(self).last_sample_ms == Some(now),
    {
        self.last_sample_ms = Some(now);
        Stroke::start(p, color, size)
    }

    /// Offers a pointer sample to the active stroke. Returns whether it was kept;
    /// a kept sample is appended, its segment added to the geometry, and `now`
    /// recorded. A dropped one changes nothing.
    pub fn offer_sample(&mut self, stroke: &mut Stroke, p: StrokePoint, now: u64) -> (r: bool)
        requires
            old(stroke).wf(),
        ensures
            r == accepts(old(stroke).points@, old(self).last_sample_ms, p, now),
            final(stroke).wf(),
            final(stroke).color == old(stroke).color,
            final(stroke).size == old(stroke).size,
            r ==> final(stroke).points@ == old(stroke).points@.push(p),
            r ==> final(self).last_sample_ms == Some(now),
            !r ==> *final(stroke) == *old(stroke),
            !r ==> *final(self) == *old(self),
    {
        let n = stroke.points.len();
        if n >= 2 {
            let last = stroke.points[n - 1];
            let too_close = distance_sq(last, p) < MIN_SAMPLE_DISTANCE_SQ;
            let too_soon = match self.last_sample_ms {
                Some(t) => now < t || now - t < SAMPLE_INTERVAL_MS,
                None => false,
            };
            if too_close && too_soon {
                return false;
            }
        }
        stroke.push_point(p);
        self.last_sample_ms = Some(now);
        true
    }

    /// Ends the active stroke: its points stay, the sample clock is cleared.
    pub fn end_stroke(&mut self)
        ensures
            final(self).last_sample_ms is None,
    {
        self.last_sample_ms = None;
    }
}

/// Sampler law: a candidate that is both closer than the minimum distance and
/// sooner than the interval after the last accepted sample is dropped, once the
/// stroke has moved past its first point; one at least the minimum distance away
/// is kept whatever the time.
pub proof fn lemma_sampler_gates(pts: Seq<StrokePoint>, last_ms: Option<u64>, p: StrokePoint, now: u64)
    requires
        pts.len() >= 1,
    ensures
        pts.len() >= 2 && !far_enough(pts.last(), p) && !interval_elapsed(last_ms, now) ==> !accepts(
            pts,
            last_ms,
            p,
            now,
        ),
        far_enough(pts.last(), p) ==> accepts(pts, last_ms, p, now),
{
}

} // verus!
