//! Frame-time statistics with a lifetime for status messages.
use vstd::prelude::*;
use std::time::{Duration, Instant};
use crate::clock::{
    duration_as_nanos, duration_from_secs, duration_nanos, instant_elapsed, instant_now,
    MAX_DURATION_NANOS,
};
use crate::settings::STATUS_MESSAGE_LIFETIME_SECONDS;
use crate::frametimes::{keep_recent, mean_floor, seq_sum, FrameWindow};

verus! {

/// Recent frame times, when a status was last shown, and how long a status stays.
pub struct FrameInfo {
    frame_times: FrameWindow,
    last_status_update: Instant,
    status_message_lifetime: Duration,
}

/// A status shown `elapsed` ago is still on screen while `elapsed` is shorter than
/// its `lifetime`.
pub fn status_visible(elapsed: Duration, lifetime: Duration) -> (r: bool)
    ensures
        r == (duration_nanos(elapsed) < duration_nanos(lifetime)),
{
    duration_as_nanos(elapsed) < duration_as_nanos(lifetime)
}

impl Default for FrameInfo {
    fn default() -> (r: Self)
        ensures
            r.frame_nanos() == Seq::<nat>::empty(),
            duration_nanos(r.status_lifetime()) == STATUS_MESSAGE_LIFETIME_SECONDS * 1_000_000_000,
    {
        FrameInfo {
            frame_times: FrameWindow::new(),
            last_status_update: instant_now(),
            status_message_lifetime: duration_from_secs(STATUS_MESSAGE_LIFETIME_SECONDS),
        }
    }
}

impl FrameInfo {
    /// The recorded frame times in nanoseconds, oldest first.
    pub closed spec fn frame_nanos(self) -> Seq<nat> {
        self.frame_times.frames()
    }

    /// The instant a status was last shown.
    pub closed spec fn last_status(self) -> Instant {
        self.last_status_update
    }

    /// How long a status stays on screen.
    pub closed spec fn status_lifetime(self) -> Duration {
        self.status_message_lifetime
    }

    /// Records the time one frame took; only the most recent
    /// `AVERAGE_FRAME_HISTORY_SIZE` are kept.
    pub fn record_frame_time(&mut self, frame_time: Duration)
        ensures
            final(self).frame_nanos() == keep_recent(
                old(self).frame_nanos().push(duration_nanos(frame_time)),
            ),
            final(self).last_status() == old(self).last_status(),
            final(self).status_lifetime() == old(self).status_lifetime(),
    {
        self.frame_times.record(frame_time);
    }

    /// Whether the recorded frame times add up to no more than the longest
    /// `Duration`, which averaging them needs.
    pub fn frame_total_fits(&self) -> (r: bool)
        ensures
            r == (seq_sum(self.frame_nanos()) <= MAX_DURATION_NANOS),
    {
        self.frame_times.total_fits()
    }

    /// The mean recorded frame time, rounded down to whole nanoseconds; `None`
    /// before any frame was recorded.
    pub fn get_average_frame_time(&self) -> (r: Option<Duration>)
        requires
            seq_sum(self.frame_nanos()) <= MAX_DURATION_NANOS,
        ensures
            self.frame_nanos().len() == 0 <==> r is None,
            r matches Some(d) ==> duration_nanos(d) == mean_floor(self.frame_nanos()),
    {
        self.frame_times.average()
    }

    /// Whether the last status is still to be shown: less than its lifetime has
    /// passed since it was marked. How much time has passed depends on the clock,
    /// so of the answer only this is stated: a status with no lifetime is never shown.
    pub fn should_display_status(&self) -> (r: bool)
        ensures
            r ==> duration_nanos(self.status_lifetime()) > 0,
    {
        let elapsed = instant_elapsed(&self.last_status_update);
        status_visible(elapsed, self.status_message_lifetime)
    }

    /// Notes that a status is shown now. The instant stored is a reading of the
    /// clock, of which nothing is stated; the frame times and the lifetime are kept.
    pub fn mark_status_displayed(&mut self)
        ensures
            final(self).frame_nanos() == old(self).frame_nanos(),
            final(self).status_lifetime() == old(self).status_lifetime(),
    {
        self.last_status_update = instant_now();
    }
}

} // verus!
