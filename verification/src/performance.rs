//! Frame-time statistics of the chart window.
use vstd::prelude::*;
use std::time::{Duration, Instant};
use crate::clock::{duration_nanos, instant_now, MAX_DURATION_NANOS};
use crate::frametimes::{keep_recent, mean_floor, seq_sum, FrameWindow};

verus! {

/// Recent frame times and when a status was last shown.
pub struct FrameInfo {
    frame_times: FrameWindow,
    last_status_update: Instant,
}

impl Default for FrameInfo {
    fn default() -> (r: Self)
        ensures
            r.frame_nanos() == Seq::<nat>::empty(),
    {
        FrameInfo { frame_times: FrameWindow::new(), last_status_update: instant_now() }
    }
}

impl FrameInfo {
    /// The recorded frame times in nanoseconds, oldest first.
    pub closed spec fn frame_nanos(self) -> Seq<nat> {
        self.frame_times.frames()
    }

    /// The instant a status was last shown.
    pub closed spec fn last_status(self) -> Instant {
        self.last_status_update
    }

    /// Records the time one frame took; only the most recent
    /// `AVERAGE_FRAME_HISTORY_SIZE` are kept.
    pub fn record_frame_time(&mut self, frame_time: Duration)
        ensures
            final(self).frame_nanos() == keep_recent(
                old(self).frame_nanos().push(duration_nanos(frame_time)),
            ),
            final(self).last_status() == old(self).last_status(),
    {
        self.frame_times.record(frame_time);
    }

    /// Whether the recorded frame times add up to no more than the longest
    /// `Duration`, which averaging them needs.
    pub fn frame_total_fits(&self) -> (r: bool)
        ensures
            r == (seq_sum(self.frame_nanos()) <= MAX_DURATION_NANOS),
    {
        self.frame_times.total_fits()
    }

    /// The mean recorded frame time, rounded down to whole nanoseconds; `None`
    /// before any frame was recorded.
    pub fn get_average_frame_time(&self) -> (r: Option<Duration>)
        requires
            seq_sum(self.frame_nanos()) <= MAX_DURATION_NANOS,
        ensures
            self.frame_nanos().len() == 0 <==> r is None,
            r matches Some(d) ==> duration_nanos(d) == mean_floor(self.frame_nanos()),
    {
        self.frame_times.average()
    }

    /// Notes that a status is shown now. The instant stored is a reading of the
    /// clock, of which nothing is stated; the frame times are kept.
    pub fn mark_status_displayed(&mut self)
        ensures
            final(self).frame_nanos() == old(self).frame_nanos(),
    {
        self.last_status_update = instant_now();
    }
}

} // verus!
