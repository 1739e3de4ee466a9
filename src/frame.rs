//! Frame pacing: decides when the next frame is due, measuring the idle time
//! from the start of the last frame with that frame's render time subtracted,
//! so that slow frames do not push the schedule forward.
//!
//! Times are nanosecond timestamps on one monotonic clock; the caller reads
//! the clock and renders.
use vstd::prelude::*;

verus! {

/// Nanoseconds in a millisecond.
pub const NANOS_PER_MILLI: u64 = 1_000_000;

/// Milliseconds per second, divided by the frame rate for the minimum frame
/// duration.
pub const MILLIS_PER_SECOND: u64 = 1000;

/// Nanoseconds idle at `now` since a frame that started at `start` and took
/// `render` to draw; zero if that much time has not passed.
pub open spec fn idle_nanos(start: int, render: int, now: int) -> int {
    if now - start - render > 0 {
        now - start - render
    } else {
        0
    }
}

/// Whether the whole milliseconds of idle time exceed the minimum frame
/// duration.
pub open spec fn frame_due(min_ms: int, start: int, render: int, now: int) -> bool {
    idle_nanos(start, render, now) / (NANOS_PER_MILLI as int) > min_ms
}

/// The least idle time, in nanoseconds, after which a frame is due.
pub open spec fn due_threshold(min_ms: int) -> int {
    (min_ms + 1) * NANOS_PER_MILLI
}

/// The sum of the first `n` entries of `s`.
pub open spec fn prefix_sum(s: Seq<int>, n: int) -> int
    decreases n,
{
    if n <= 0 {
        0
    } else {
        prefix_sum(s, n - 1) + s[n - 1]
    }
}

/// The pacing state of a render loop.
pub struct FrameScheduler {
    /// Minimum frame duration in whole milliseconds.
    pub min_frame_ms: u64,
    /// When the last processed frame started.
    pub last_frame_start: u64,
    /// How long the last processed frame took to render.
    pub last_render: u64,
}

impl FrameScheduler {
    /// A scheduler for `fps` frames per second whose first frame counts as
    /// started at `now`, with no render time yet. The minimum frame duration
    /// is `1000 / fps` milliseconds, truncated.
    pub fn new(fps: u64, now: u64) -> (r: FrameScheduler)
        requires
            fps > 0,
        ensures
            r.min_frame_ms == MILLIS_PER_SECOND / fps,
            r.last_frame_start == now,
            r.last_render == 0,
    {
        FrameScheduler { min_frame_ms: MILLIS_PER_SECOND / fps, last_frame_start: now, last_render: 0 }
    }

    /// Nanoseconds idle at `now`: the time since the last frame started,
    /// less its render time, and zero where that is negative.
    pub fn idle_time(&self, now: u64) -> (r: u64)
        ensures
            r == idle_nanos(self.last_frame_start as int, self.last_render as int, now as int),
    {
        let since = if now >= self.last_frame_start { now - self.last_frame_start } else { 0 };
        if since >= self.last_render {
            since - self.last_render
        } else {
            0
        }
    }

    /// Whether a frame should be processed at `now`.
    pub fn is_due(&self, now: u64) -> (r: bool)
        ensures
            r == frame_due(self.min_frame_ms as int, self.last_frame_start as int, self.last_render as int, now as int),
    {
        self.idle_time(now) / NANOS_PER_MILLI > self.min_frame_ms
    }

    /// Records a processed frame: the loop iteration that found it due began
    /// at `frame_start`, and drawing ran from `render_start` to `render_end`.
    pub fn record_frame(&mut self, frame_start: u64, render_start: u64, render_end: u64)
        ensures
            final(self).min_frame_ms == old(self).min_frame_ms,
            final(self).last_frame_start == frame_start,
            final(self).last_render == (if render_end >= render_start { render_end - render_start } else { 0 }),
    {
        self.last_frame_start = frame_start;
        self.last_render = if render_end >= render_start { render_end - render_start } else { 0 };
    }
}

/// A frame that was not due at poll `p` and is due at poll `q` starts after
/// an idle time of at least the threshold and less than the threshold plus
/// the gap between the two polls: the time from one frame's start to the
/// next is its render time plus that idle time.
pub proof fn lemma_frame_period(min_ms: int, start: int, render: int, p: int, q: int)
    requires
        min_ms >= 0,
        p <= q,
        !frame_due(min_ms, start, render, p),
        frame_due(min_ms, start, render, q),
    ensures
        due_threshold(min_ms) <= q - start - render < due_threshold(min_ms) + (q - p),
{
}

/// Over `n` consecutive frames, where frame `k` starts at `starts[k]`, takes
/// `renders[k]` to draw, and the next frame starts at a poll at most `jitter`
/// after a poll `polls[k]` at which it was not yet due, the time from the
/// first start to the last, less the render times, lies between `n` idle
/// thresholds and `n` thresholds plus `n` jitters, strictly below the latter
/// once a frame has passed: render time never adds drift, and the schedule
/// stays within bounded jitter of the target.
pub proof fn lemma_no_drift(
    min_ms: int,
    starts: Seq<int>,
    renders: Seq<int>,
    polls: Seq<int>,
    jitter: int,
    n: int,
)
    requires
        min_ms >= 0,
        0 <= n,
        n < starts.len(),
        n <= renders.len(),
        n <= polls.len(),
        forall|k: int|
            0 <= k < n ==> {
                &&& !frame_due(min_ms, starts[k], renders[k], #[trigger] polls[k])
                &&& frame_due(min_ms, starts[k], renders[k], starts[k + 1])
                &&& polls[k] <= starts[k + 1] <= polls[k] + jitter
            },
    ensures
        n * due_threshold(min_ms) <= starts[n] - starts[0] - prefix_sum(renders, n),
        starts[n] - starts[0] - prefix_sum(renders, n) <= n * (due_threshold(min_ms) + jitter),
        n > 0 ==> starts[n] - starts[0] - prefix_sum(renders, n) < n * (due_threshold(min_ms) + jitter),
    decreases n,
{
    if n > 0 {
        lemma_no_drift(min_ms, starts, renders, polls, jitter, n - 1);
        let k = n - 1;
        assert(!frame_due(min_ms, starts[k], renders[k], polls[k]));
        lemma_frame_period(min_ms, starts[k], renders[k], polls[k], starts[n]);
        let t = due_threshold(min_ms);
        assert(n * t == (n - 1) * t + t) by (nonlinear_arith);
        assert(n * (t + jitter) == (n - 1) * (t + jitter) + (t + jitter)) by (nonlinear_arith);
    }
}

} // verus!
