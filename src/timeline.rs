use crate::color::{interpolate, interpolate_spec, Easing, Rgba, MAX_SEGMENT_MS};
use vstd::prelude::*;

verus! {

/// Longest span, in milliseconds, that a timeline may cover with all its
/// repetitions.
pub const MAX_TIMELINE_MS: u64 = 4611686018427387904;

/// One timed step of a timeline.
#[derive(Clone, Copy, Debug, PartialEq, Eq, Structural)]
pub enum Segment {
    /// Time passes and nothing is written.
    Delay { duration_ms: u64 },
    /// The target moves from `start` to `end` along `easing`.
    Tween { duration_ms: u64, easing: Easing, start: Rgba, end: Rgba },
}

#[derive(Clone, Copy, Debug, PartialEq, Eq, Structural)]
pub enum TimelineError {
    /// A segment is too long, a tween has no duration, the repeat count is
    /// zero, or the whole timeline is too long.
    InvalidTimeline,
}

pub open spec fn seg_dur(s: Segment) -> int {
    match s {
        Segment::Delay { duration_ms } => duration_ms as int,
        Segment::Tween { duration_ms, .. } => duration_ms as int,
    }
}

pub open spec fn seg_ok(s: Segment) -> bool {
    &&& seg_dur(s) <= MAX_SEGMENT_MS
    &&& (s is Tween ==> seg_dur(s) > 0)
}

/// Sum of the durations of the first `i` segments.
pub open spec fn prefix(segs: Seq<Segment>, i: int) -> int
    decreases i,
{
    if i <= 0 {
        0
    } else {
        prefix(segs, i - 1) + seg_dur(segs[i - 1])
    }
}

pub open spec fn total_of(segs: Seq<Segment>) -> int {
    prefix(segs, segs.len() as int)
}

/// What `build` accepts.
pub open spec fn valid_timeline(segs: Seq<Segment>, repeat: int) -> bool {
    &&& forall|i: int| 0 <= i < segs.len() ==> seg_ok(#[trigger] segs[i])
    &&& repeat >= 1
    &&& repeat * total_of(segs) <= MAX_TIMELINE_MS
}

/// The segment that holds time `e` of one pass, searching from `i` on.
pub open spec fn index_of(segs: Seq<Segment>, e: int, i: int) -> int
    decreases segs.len() - i,
{
    if i < 0 || i >= segs.len() {
        segs.len() as int
    } else if e < prefix(segs, i + 1) {
        i
    } else {
        index_of(segs, e, i + 1)
    }
}

/// End value of the last tween among the first `i` segments, if any.
pub open spec fn held(segs: Seq<Segment>, i: int) -> Option<Rgba>
    decreases i,
{
    if i <= 0 {
        None
    } else {
        match segs[i - 1] {
            Segment::Tween { end, .. } => Some(end),
            Segment::Delay { .. } => held(segs, i - 1),
        }
    }
}

pub proof fn lemma_prefix_monotone(segs: Seq<Segment>, i: int, j: int)
    requires
        0 <= i <= j,
    ensures
        0 <= prefix(segs, i) <= prefix(segs, j),
    decreases j - i,
{
    if i < j {
        lemma_prefix_monotone(segs, i, j - 1);
    } else {
        lemma_prefix_nonneg(segs, i);
    }
}

proof fn lemma_prefix_nonneg(segs: Seq<Segment>, i: int)
    ensures
        0 <= prefix(segs, i),
    decreases i,
{
    if i > 0 {
        lemma_prefix_nonneg(segs, i - 1);
    }
}

/// Where a timeline stands after a step.
#[derive(Clone, Copy, Debug, PartialEq, Eq, Structural)]
pub struct Progress {
    /// Time run so far, never past the end of the last repetition.
    pub elapsed: u64,
    /// The segment that holds that time.
    pub segment: usize,
    /// Time spent inside that segment.
    pub local_ms: u64,
    /// Whether the last repetition has ended.
    pub complete: bool,
}

/// An ordered sequence of segments, run `repeat` times, with an optional
/// payload carried by its completion event.
#[derive(Clone, Debug)]
pub struct Timeline {
    pub segments: Vec<Segment>,
    pub repeat: u64,
    pub payload: Option<u64>,
    pub total_ms: u64,
}

impl Timeline {
    pub open spec fn segs(&self) -> Seq<Segment> {
        self.segments@
    }

    /// Time at which the last repetition ends.
    pub open spec fn end_ms(&self) -> int {
        self.repeat * self.total_ms
    }

    pub open spec fn wf(&self) -> bool {
        &&& valid_timeline(self.segs(), self.repeat as int)
        &&& self.total_ms == total_of(self.segs())
    }

    pub open spec fn complete_at(&self, elapsed: int) -> bool {
        elapsed >= self.end_ms()
    }

    /// The value that the timeline writes to its target at `elapsed`: the
    /// running tween's value, else the end of the last tween passed in the
    /// current repetition, else nothing.
    pub open spec fn value_at_spec(&self, elapsed: int) -> Option<Rgba> {
        let segs = self.segs();
        if self.complete_at(elapsed) {
            held(segs, segs.len() as int)
        } else {
            let e = elapsed % (self.total_ms as int);
            let i = index_of(segs, e, 0);
            match segs[i] {
                Segment::Tween { duration_ms, easing, start, end } => Some(
                    interpolate_spec(start, end, easing, e - prefix(segs, i), duration_ms as int),
                ),
                Segment::Delay { .. } => held(segs, i),
            }
        }
    }

    /// Builds a timeline; fails exactly when a segment is longer than
    /// `MAX_SEGMENT_MS`, a tween lasts zero, `repeat` is zero, or all
    /// repetitions together exceed `MAX_TIMELINE_MS`.
    pub fn build(segments: Vec<Segment>, repeat: u64, payload: Option<u64>) -> (r: Result<
        Timeline,
        TimelineError,
    >)
        ensures
            r is Err <==> !valid_timeline(segments@, repeat as int),
            r matches Ok(t) ==> t.wf() && t.segs() == segments@ && t.repeat == repeat
                && t.payload == payload,
    {
        if repeat == 0 {
            return Err(TimelineError::InvalidTimeline);
        }
        let n = segments.len();
        let mut i: usize = 0;
        let mut total: u64 = 0;
        while i < n
            invariant
                repeat >= 1,
                n == segments.len(),
                i <= n,
                total == prefix(segments@, i as int),
                total <= MAX_TIMELINE_MS,
                forall|j: int| 0 <= j < i ==> seg_ok(#[trigger] segments@[j]),
            decreases n - i,
        {
            let s = segments[i];
            let d = match s {
                Segment::Delay { duration_ms } => duration_ms,
                Segment::Tween { duration_ms, .. } => duration_ms,
            };
            let is_tween = match s {
                Segment::Tween { .. } => true,
                Segment::Delay { .. } => false,
            };
            if d > MAX_SEGMENT_MS || (is_tween && d == 0) {
                assert(!seg_ok(segments@[i as int]));
                return Err(TimelineError::InvalidTimeline);
            }
            if d > MAX_TIMELINE_MS - total {
                proof {
                    lemma_prefix_monotone(segments@, i as int + 1, n as int);
                    assert(repeat * total_of(segments@) >= total_of(segments@)) by (nonlinear_arith)
                        requires
                            total_of(segments@) >= 0,
                            repeat >= 1,
                    {
                    }
                }
                return Err(TimelineError::InvalidTimeline);
            }
            total = total + d;
            i = i + 1;
        }
        if total > MAX_TIMELINE_MS / repeat {
            assert(repeat * total > MAX_TIMELINE_MS) by (nonlinear_arith)
                requires
                    total > MAX_TIMELINE_MS / repeat,
                    repeat > 0,
            ;
            return Err(TimelineError::InvalidTimeline);
        }
        assert(repeat * total <= MAX_TIMELINE_MS) by (nonlinear_arith)
            requires
                total <= MAX_TIMELINE_MS / repeat,
                repeat > 0,
        ;
        Ok(Timeline { segments, repeat, payload, total_ms: total })
    }

    /// Time at which the last repetition ends.
    pub fn end(&self) -> (r: u64)
        requires
            self.wf(),
        ensures
            r == self.end_ms(),
    {
        self.repeat * self.total_ms
    }

    /// The segment that holds time `e` of one pass.
    pub fn locate(&self, e: u64) -> (r: usize)
        requires
            self.wf(),
            e < self.total_ms,
        ensures
            r < self.segs().len(),
            r == index_of(self.segs(), e as int, 0),
            prefix(self.segs(), r as int) <= e < prefix(self.segs(), r as int + 1),
    {
        let n = self.segments.len();
        let mut i: usize = 0;
        let mut acc: u64 = 0;
        while i < n
            invariant
                self.wf(),
                n == self.segs().len(),
                i <= n,
                acc == prefix(self.segs(), i as int),
                acc <= e,
                e < self.total_ms,
                index_of(self.segs(), e as int, 0) == index_of(self.segs(), e as int, i as int),
            decreases n - i,
        {
            proof {
                lemma_prefix_monotone(self.segs(), i as int + 1, n as int);
            }
            let d = match self.segments[i] {
                Segment::Delay { duration_ms } => duration_ms,
                Segment::Tween { duration_ms, .. } => duration_ms,
            };
            let next = acc + d;
            if e < next {
                return i;
            }
            acc = next;
            i = i + 1;
        }
        i
    }

    /// Runs `dt` more milliseconds from `elapsed`. Time stops at the end of
    /// the last repetition; a repetition starts again at the first segment.
    /// Once complete, the position is the end of the last segment.
    pub fn advance(&self, elapsed: u64, dt: u64) -> (r: Progress)
        requires
            self.wf(),
            elapsed <= self.end_ms(),
        ensures
            r.elapsed == (if elapsed + dt >= self.end_ms() {
                self.end_ms()
            } else {
                elapsed + dt
            }),
            r.complete == self.complete_at(r.elapsed as int),
            !r.complete ==> ({
                let e = (r.elapsed as int) % (self.total_ms as int);
                &&& r.segment == index_of(self.segs(), e, 0)
                &&& r.local_ms == e - prefix(self.segs(), r.segment as int)
                &&& r.segment < self.segs().len()
                &&& r.local_ms < seg_dur(self.segs()[r.segment as int])
            }),
            r.complete && self.segs().len() > 0 ==> r.segment == self.segs().len() - 1
                && r.local_ms == seg_dur(self.segs()[self.segs().len() - 1]),
            r.complete && self.segs().len() == 0 ==> r.segment == 0 && r.local_ms == 0,
    {
        let end = self.end();
        let now = if dt >= end - elapsed {
            end
        } else {
            elapsed + dt
        };
        let n = self.segments.len();
        if now >= end {
            if n == 0 {
                return Progress { elapsed: now, segment: 0, local_ms: 0, complete: true };
            }
            let d = match self.segments[n - 1] {
                Segment::Delay { duration_ms } => duration_ms,
                Segment::Tween { duration_ms, .. } => duration_ms,
            };
            return Progress { elapsed: now, segment: n - 1, local_ms: d, complete: true };
        }
        assert(self.total_ms > 0) by (nonlinear_arith)
            requires
                now < self.repeat * self.total_ms,
        ;
        let e = now % self.total_ms;
        let i = self.locate(e);
        Progress { elapsed: now, segment: i, local_ms: e - self.prefix_at(i), complete: false }
    }

    /// End value of the last tween among the first `i` segments, if any.
    pub fn held_before(&self, i: usize) -> (r: Option<Rgba>)
        requires
            i <= self.segs().len(),
        ensures
            r == held(self.segs(), i as int),
    {
        let mut j: usize = i;
        while j > 0
            invariant
                j <= i <= self.segs().len(),
                held(self.segs(), i as int) == held(self.segs(), j as int),
            decreases j,
        {
            match self.segments[j - 1] {
                Segment::Tween { end, .. } => {
                    return Some(end);
                },
                Segment::Delay { .. } => {},
            }
            j = j - 1;
        }
        None
    }

    /// The value written to the target at `elapsed` (see `value_at_spec`).
    pub fn value_at(&self, elapsed: u64) -> (r: Option<Rgba>)
        requires
            self.wf(),
        ensures
            r == self.value_at_spec(elapsed as int),
    {
        if elapsed >= self.end() {
            return self.held_before(self.segments.len());
        }
        assert(self.total_ms > 0) by (nonlinear_arith)
            requires
                elapsed < self.repeat * self.total_ms,
        ;
        let e = elapsed % self.total_ms;
        let i = self.locate(e);
        match self.segments[i] {
            Segment::Tween { duration_ms, easing, start, end } => {
                Some(interpolate(start, end, easing, e - self.prefix_at(i), duration_ms))
            },
            Segment::Delay { .. } => self.held_before(i),
        }
    }

    /// Sum of the durations of the first `i` segments.
    pub fn prefix_at(&self, i: usize) -> (r: u64)
        requires
            self.wf(),
            i <= self.segs().len(),
        ensures
            r == prefix(self.segs(), i as int),
    {
        let mut j: usize = 0;
        let mut acc: u64 = 0;
        while j < i
            invariant
                self.wf(),
                j <= i <= self.segs().len(),
                acc == prefix(self.segs(), j as int),
            decreases i - j,
        {
            proof {
                lemma_prefix_monotone(self.segs(), j as int + 1, self.segs().len() as int);
                assert(self.total_ms <= self.repeat * self.total_ms) by (nonlinear_arith)
                    requires
                        self.repeat >= 1,
                ;
            }
            let d = match self.segments[j] {
                Segment::Delay { duration_ms } => duration_ms,
                Segment::Tween { duration_ms, .. } => duration_ms,
            };
            acc = acc + d;
            j = j + 1;
        }
        acc
    }
}

} // verus!
