//! A bounded window of the most recent frame times.
use vstd::prelude::*;
use std::collections::VecDeque;
use crate::clock::{duration_as_nanos, duration_from_nanos, duration_nanos, MAX_DURATION_NANOS};
use crate::settings::AVERAGE_FRAME_HISTORY_SIZE;
use std::time::Duration;

verus! {

/// The last `AVERAGE_FRAME_HISTORY_SIZE` elements of `s` (all of `s` when shorter).
pub open spec fn keep_recent(s: Seq<nat>) -> Seq<nat> {
    let k = AVERAGE_FRAME_HISTORY_SIZE as int;
    if s.len() > k { s.skip(s.len() - k) } else { s }
}

/// Sum of the elements of `s`.
pub open spec fn seq_sum(s: Seq<nat>) -> nat
    decreases s.len(),
{
    if s.len() == 0 { 0 } else { seq_sum(s.drop_last()) + s.last() }
}

/// Mean of `s`, rounded down.
pub open spec fn mean_floor(s: Seq<nat>) -> nat {
    if s.len() == 0 { 0 } else { seq_sum(s) / s.len() }
}

/// Recording a frame keeps no more than `AVERAGE_FRAME_HISTORY_SIZE` frame times,
/// the newest last; while fewer were held, nothing is dropped.
pub proof fn lemma_keep_recent(s: Seq<nat>, x: nat)
    requires
        s.len() <= AVERAGE_FRAME_HISTORY_SIZE,
    ensures
        keep_recent(s.push(x)).len() <= AVERAGE_FRAME_HISTORY_SIZE,
        keep_recent(s.push(x)).last() == x,
        s.len() < AVERAGE_FRAME_HISTORY_SIZE ==> keep_recent(s.push(x)) == s.push(x),
        s.len() == AVERAGE_FRAME_HISTORY_SIZE ==> keep_recent(s.push(x)) == s.drop_first().push(x),
{
    if s.len() == AVERAGE_FRAME_HISTORY_SIZE {
        assert(keep_recent(s.push(x)) =~= s.drop_first().push(x));
    }
}

/// Frame times in nanoseconds, oldest first, at most `AVERAGE_FRAME_HISTORY_SIZE`.
pub struct FrameWindow {
    times: VecDeque<u128>,
}

impl FrameWindow {
    #[verifier::type_invariant]
    spec fn well_formed(self) -> bool {
        &&& self.times@.len() <= AVERAGE_FRAME_HISTORY_SIZE
        &&& forall|i: int| 0 <= i < self.times@.len() ==> #[trigger] self.times@[i] <= MAX_DURATION_NANOS
    }

    /// The frame times held, in nanoseconds, oldest first.
    pub closed spec fn frames(self) -> Seq<nat> {
        self.times@.map_values(|t: u128| t as nat)
    }

    pub fn new() -> (r: Self)
        ensures
            r.frames() == Seq::<nat>::empty(),
    {
        let r = FrameWindow { times: VecDeque::new() };
        assert(r.frames() =~= Seq::<nat>::empty());
        r
    }

    /// Adds a frame time, dropping the oldest beyond the window size.
    pub fn record(&mut self, frame_time: Duration)
        ensures
            final(self).frames() == keep_recent(old(self).frames().push(duration_nanos(frame_time))),
    {
        proof {
            use_type_invariant(&*self);
        }
        let t = duration_as_nanos(frame_time);
        let ghost pushed = old(self).frames().push(t as nat);
        let mut times: VecDeque<u128> = VecDeque::new();
        std::mem::swap(&mut times, &mut self.times);
        times.push_back(t);
        assert(times@.map_values(|t: u128| t as nat) =~= pushed);
        while times.len() > AVERAGE_FRAME_HISTORY_SIZE
            invariant
                times@.len() <= AVERAGE_FRAME_HISTORY_SIZE + 1,
                pushed.len() <= AVERAGE_FRAME_HISTORY_SIZE + 1,
                forall|i: int| 0 <= i < times@.len() ==> #[trigger] times@[i] <= MAX_DURATION_NANOS,
                times@.len() <= AVERAGE_FRAME_HISTORY_SIZE ==> times@.map_values(|t: u128| t as nat)
                    == keep_recent(pushed),
                times@.len() > AVERAGE_FRAME_HISTORY_SIZE ==> times@.map_values(|t: u128| t as nat)
                    == pushed,
            decreases times@.len(),
        {
            times.pop_front();
            assert(times@.map_values(|t: u128| t as nat) =~= keep_recent(pushed));
        }
        self.times = times;
    }

    /// Whether the frame times add up to no more than the longest `Duration`.
    pub fn total_fits(&self) -> (r: bool)
        ensures
            r == (seq_sum(self.frames()) <= MAX_DURATION_NANOS),
    {
        proof {
            use_type_invariant(self);
        }
        let n = self.times.len();
        let mut sum: u128 = 0;
        let mut i: usize = 0;
        while i < n
            invariant
                n == self.times@.len(),
                n <= AVERAGE_FRAME_HISTORY_SIZE,
                i <= n,
                forall|j: int| 0 <= j < n ==> #[trigger] self.times@[j] <= MAX_DURATION_NANOS,
                sum == seq_sum(self.frames().take(i as int)),
                sum <= i * MAX_DURATION_NANOS,
            decreases n - i,
        {
            let t = self.times[i];
            assert(self.frames().take(i + 1).drop_last() =~= self.frames().take(i as int));
            assert(sum + t <= (i + 1) * MAX_DURATION_NANOS) by (nonlinear_arith)
                requires
                    sum <= i * MAX_DURATION_NANOS,
                    t <= MAX_DURATION_NANOS,
            ;
            sum = sum + t;
            i += 1;
        }
        assert(self.frames().take(n as int) =~= self.frames());
        sum <= MAX_DURATION_NANOS
    }

    /// Mean of the frame times, rounded down to whole nanoseconds; `None` when empty.
    pub fn average(&self) -> (r: Option<Duration>)
        requires
            seq_sum(self.frames()) <= MAX_DURATION_NANOS,
        ensures
            self.frames().len() == 0 <==> r is None,
            r matches Some(d) ==> duration_nanos(d) == mean_floor(self.frames()),
    {
        proof {
            use_type_invariant(self);
        }
        let n = self.times.len();
        if n == 0 {
            return None;
        }
        let mut sum: u128 = 0;
        let mut i: usize = 0;
        while i < n
            invariant
                n == self.times@.len(),
                n <= AVERAGE_FRAME_HISTORY_SIZE,
                i <= n,
                forall|j: int| 0 <= j < n ==> #[trigger] self.times@[j] <= MAX_DURATION_NANOS,
                sum == seq_sum(self.frames().take(i as int)),
                sum <= i * MAX_DURATION_NANOS,
            decreases n - i,
        {
            let t = self.times[i];
            assert(self.frames().take(i + 1).drop_last() =~= self.frames().take(i as int));
            assert(sum + t <= (i + 1) * MAX_DURATION_NANOS) by (nonlinear_arith)
                requires
                    sum <= i * MAX_DURATION_NANOS,
                    t <= MAX_DURATION_NANOS,
            ;
            sum = sum + t;
            i += 1;
        }
        assert(self.frames().take(n as int) =~= self.frames());
        let mean = sum / (n as u128);
        assert(mean <= MAX_DURATION_NANOS) by (nonlinear_arith)
            requires
                sum <= n * MAX_DURATION_NANOS,
                n >= 1,
                mean == sum / (n as u128),
        ;
        Some(duration_from_nanos(mean))
    }
}

} // verus!
