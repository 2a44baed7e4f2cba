//! What a window that shows a session counts and colours by.

use vstd::prelude::*;

verus! {

/// The kind of window that shows a session.
#[derive(Debug, Clone, Copy, PartialEq, Eq, Structural)]
pub enum WindowType {
    Glutin,
    SDL2,
}

/// How a session is shown.
#[derive(Debug, Clone, Copy)]
pub struct VisualizationConfig {
    pub window_type: WindowType,
}

/// The byte number `number` of `value`, the lowest being number 0.
pub open spec fn color_component(value: i32, number: i32) -> u8 {
    ((value >> ((8 * number) as u32)) & 0xff) as u8
}

/// The byte number `number` of the colour `value`.
pub fn get_color_component(value: i32, number: i32) -> (result: u8)
    requires
        0 <= number <= 3,
    ensures
        result == color_component(value, number),
{
    let shift: u32 = 8 * (number as u32);
    let low: i32 = (value >> shift) & 0xff;
    assert(0 <= low <= 255) by (bit_vector)
        requires
            low == (value >> shift) & 0xff,
    ;
    low as u8
}

/// The colour `value` as red, green, blue and alpha.
pub fn make_rgba_color_u8(value: i32) -> (result: [u8; 4])
    ensures
        result@ == seq![
            color_component(value, 2),
            color_component(value, 1),
            color_component(value, 0),
            color_component(value, 3),
        ],
{
    let result = [
        get_color_component(value, 2),
        get_color_component(value, 1),
        get_color_component(value, 0),
        get_color_component(value, 3),
    ];
    assert(result@ =~= seq![
        color_component(value, 2),
        color_component(value, 1),
        color_component(value, 0),
        color_component(value, 3),
    ]);
    result
}

/// The time from `earlier` to `later`, none where `later` is not later.
pub open spec fn gap(earlier: u64, later: u64) -> int {
    if later >= earlier {
        later - earlier
    } else {
        0
    }
}

/// The sum of the times between each two neighbours among the first `n`
/// times.
pub open spec fn gaps(times: Seq<u64>, n: int) -> int
    decreases n,
{
    if n <= 1 {
        0
    } else {
        gaps(times, n - 1) + gap(times[n - 2], times[n - 1])
    }
}

/// The gaps between the first `n` times stay within `n` times the
/// greatest time.
pub proof fn lemma_gaps_bound(times: Seq<u64>, n: int)
    requires
        0 <= n <= times.len(),
    ensures
        0 <= gaps(times, n) <= n * 0xffff_ffff_ffff_ffff,
    decreases n,
{
    if n > 1 {
        lemma_gaps_bound(times, n - 1);
    }
}

/// Dropping the first time drops the first gap.
pub proof fn lemma_gaps_drop_first(times: Seq<u64>, n: int)
    requires
        2 <= n <= times.len(),
    ensures
        gaps(times.drop_first(), n - 1) == gaps(times, n) - gap(times[0], times[1]),
    decreases n,
{
    if n > 2 {
        lemma_gaps_drop_first(times, n - 1);
        assert(times.drop_first()[n - 3] == times[n - 2]);
        assert(times.drop_first()[n - 2] == times[n - 1]);
    } else {
        assert(gaps(times, 1) == 0);
        assert(gaps(times.drop_first(), 1) == 0);
    }
}

/// A gap sum over the first `n` times does not change when a time is put
/// at the end.
pub proof fn lemma_gaps_push(times: Seq<u64>, time: u64, n: int)
    requires
        0 <= n <= times.len(),
    ensures
        gaps(times.push(time), n) == gaps(times, n),
    decreases n,
{
    if n > 1 {
        lemma_gaps_push(times, time, n - 1);
    }
}

/// Counts frames over the last while: `times` are the times of the frames
/// kept, in nanoseconds, and `sum_duration` the time they span.
pub struct FpsMovingAverage {
    pub max_frames: usize,
    pub max_interval: u64,
    pub times: Vec<u64>,
    pub sum_duration: u128,
}

impl FpsMovingAverage {
    /// Whether the sum is the sum of the gaps between the frames.
    pub open spec fn wf(&self) -> bool {
        self.sum_duration == gaps(self.times@, self.times.len() as int)
    }

    /// Whether the oldest frame makes room for a new one: as many frames
    /// are kept as may be, or at least three that span the interval.
    pub open spec fn is_full(&self) -> bool {
        self.times.len() >= self.max_frames || (self.times.len() >= 3 && self.sum_duration
            >= self.max_interval)
    }

    pub fn new(max_frames: usize, max_interval: u64) -> (result: Self)
        requires
            max_frames >= 3,
        ensures
            result.wf(),
            result.max_frames == max_frames,
            result.max_interval == max_interval,
            result.times@ == Seq::<u64>::empty(),
    {
        FpsMovingAverage { max_frames, max_interval, times: Vec::new(), sum_duration: 0 }
    }

    /// Counts a frame shown at `time`.
    pub fn add(&mut self, time: u64)
        requires
            old(self).wf(),
        ensures
            final(self).wf(),
            final(self).max_frames == old(self).max_frames,
            final(self).max_interval == old(self).max_interval,
            final(self).times@ == (if old(self).is_full() && old(self).times.len() > 0 {
                old(self).times@.drop_first()
            } else {
                old(self).times@
            }).push(time),
    {
        if self.times.len() >= self.max_frames || (self.times.len() >= 3 && self.sum_duration
            >= self.max_interval as u128) {
            if self.times.len() > 0 {
                let ghost before = self.times@;
                let removed = self.times.remove(0);
                proof {
                    assert(self.times@ =~= before.drop_first());
                }
                if self.times.len() > 0 {
                    let first = self.times[0];
                    proof {
                        lemma_gaps_drop_first(before, before.len() as int);
                        lemma_gaps_bound(self.times@, self.times.len() as int);
                    }
                    let passed: u64 = if first >= removed { first - removed } else { 0 };
                    self.sum_duration = self.sum_duration - passed as u128;
                } else {
                    self.sum_duration = 0;
                }
            }
        }
        let ghost kept = self.times@;
        proof {
            lemma_gaps_bound(kept, kept.len() as int);
            lemma_gaps_push(kept, time, kept.len() as int);
        }
        if self.times.len() > 0 {
            let last = self.times[self.times.len() - 1];
            let passed: u64 = if time >= last { time - last } else { 0 };
            self.sum_duration = self.sum_duration + passed as u128;
        }
        self.times.push(time);
    }

    /// How many frames are kept.
    pub fn frames(&self) -> (result: usize)
        ensures
            result == self.times.len(),
    {
        self.times.len()
    }

    /// The time that the frames kept span, in nanoseconds.
    pub fn sum_duration(&self) -> (result: u128)
        ensures
            result == self.sum_duration,
    {
        self.sum_duration
    }
}

/// The sum of the first `n` durations.
pub open spec fn total(durations: Seq<u64>, n: int) -> int
    decreases n,
{
    if n <= 0 {
        0
    } else {
        total(durations, n - 1) + durations[n - 1]
    }
}

/// The sum of the first `n` durations stays within `n` times the greatest
/// duration.
pub proof fn lemma_total_bound(durations: Seq<u64>, n: int)
    requires
        0 <= n <= durations.len(),
    ensures
        0 <= total(durations, n) <= n * 0xffff_ffff_ffff_ffff,
    decreases n,
{
    if n > 0 {
        lemma_total_bound(durations, n - 1);
    }
}

/// Dropping the first duration takes it off the sum.
pub proof fn lemma_total_drop_first(durations: Seq<u64>, n: int)
    requires
        1 <= n <= durations.len(),
    ensures
        total(durations.drop_first(), n - 1) == total(durations, n) - durations[0],
    decreases n,
{
    if n > 1 {
        lemma_total_drop_first(durations, n - 1);
        assert(durations.drop_first()[n - 2] == durations[n - 1]);
    } else {
        assert(total(durations, 0) == 0);
        assert(total(durations.drop_first(), 0) == 0);
    }
}

/// A sum over the first `n` durations does not change when a duration is
/// put at the end.
pub proof fn lemma_total_push(durations: Seq<u64>, duration: u64, n: int)
    requires
        0 <= n <= durations.len(),
    ensures
        total(durations.push(duration), n) == total(durations, n),
    decreases n,
{
    if n > 0 {
        lemma_total_push(durations, duration, n - 1);
    }
}

/// Averages durations over the last while: `durations` are those kept, in
/// nanoseconds, and `sum_duration` their sum.
pub struct DurationMovingAverage {
    pub max_frames: usize,
    pub max_interval: u64,
    pub durations: Vec<u64>,
    pub sum_duration: u128,
}

impl DurationMovingAverage {
    /// Whether the sum is the sum of the durations kept.
    pub open spec fn wf(&self) -> bool {
        self.sum_duration == total(self.durations@, self.durations.len() as int)
    }

    /// Whether the oldest duration makes room for a new one.
    pub open spec fn is_full(&self) -> bool {
        self.durations.len() >= self.max_frames || (self.durations.len() >= 2
            && self.sum_duration >= self.max_interval)
    }

    pub fn new(max_frames: usize, max_interval: u64) -> (result: Self)
        requires
            max_frames >= 2,
        ensures
            result.wf(),
            result.max_frames == max_frames,
            result.max_interval == max_interval,
            result.durations@ == Seq::<u64>::empty(),
    {
        DurationMovingAverage { max_frames, max_interval, durations: Vec::new(), sum_duration: 0 }
    }

    /// Takes a duration in.
    pub fn add(&mut self, duration: u64)
        requires
            old(self).wf(),
        ensures
            final(self).wf(),
            final(self).max_frames == old(self).max_frames,
            final(self).max_interval == old(self).max_interval,
            final(self).durations@ == (if old(self).is_full() && old(self).durations.len() > 0 {
                old(self).durations@.drop_first()
            } else {
                old(self).durations@
            }).push(duration),
    {
        if self.durations.len() >= self.max_frames || (self.durations.len() >= 2
            && self.sum_duration >= self.max_interval as u128) {
            if self.durations.len() > 0 {
                let ghost before = self.durations@;
                proof {
                    lemma_total_drop_first(before, before.len() as int);
                    lemma_total_bound(before.drop_first(), before.len() - 1);
                }
                let removed = self.durations.remove(0);
                proof {
                    assert(self.durations@ =~= before.drop_first());
                }
                self.sum_duration = self.sum_duration - removed as u128;
            }
        }
        let ghost kept = self.durations@;
        proof {
            lemma_total_bound(kept, kept.len() as int);
            lemma_total_push(kept, duration, kept.len() as int);
        }
        self.durations.push(duration);
        self.sum_duration = self.sum_duration + duration as u128;
    }

    /// How many durations are kept.
    pub fn frames(&self) -> (result: usize)
        ensures
            result == self.durations.len(),
    {
        self.durations.len()
    }

    /// The sum of the durations kept, in nanoseconds.
    pub fn sum_duration(&self) -> (result: u128)
        ensures
            result == self.sum_duration,
    {
        self.sum_duration
    }
}

} // verus!
