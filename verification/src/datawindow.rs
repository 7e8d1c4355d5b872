//! Integer parts of loading a window of bars: which storage blocks to read, where
//! the first full hour of a block starts, and the range shown at first.
use vstd::prelude::*;
use crate::timeframe::{dbtimestamp_spec, Timeframe, BLOCK_SPAN_MS};
use crate::utc::{utc_hour_minute, utc_hour_minute_spec};

verus! {

/// Number of bars shown when a window is loaded.
pub const INITIAL_VISIBLE_BARS: i64 = 200;

/// Minute of the hour of the UTC time `ms` milliseconds after 1970-01-01T00:00Z, as
/// `DateTime::from_timestamp_millis(ms).map(|dt| dt.minute())` gives it: `None`
/// for a time outside the dates a UTC date-time can hold.
pub open spec fn utc_minute_spec(ms: int) -> Option<u32> {
    match utc_hour_minute_spec(ms) {
        Some((_, minute)) => Some(minute),
        None => None,
    }
}

/// The storage blocks that cover `start_time..=end_time`: starting at the block of
/// `start_time`, one block apart, up to the last that starts no later than `end_time`.
pub open spec fn block_starts_spec(start_time: i64, end_time: i64) -> Seq<i64> {
    let first = dbtimestamp_spec(start_time as int);
    let count = if first > end_time { 0 } else { (end_time - first) / (BLOCK_SPAN_MS as int) + 1 };
    Seq::new(count as nat, |k: int| (first + k * BLOCK_SPAN_MS) as i64)
}

/// Minute of the hour of a UTC millisecond timestamp; `None` out of the range of dates.
pub fn utc_minute(ms: i64) -> (r: Option<u32>)
    ensures
        r == utc_minute_spec(ms as int),
{
    match utc_hour_minute(ms) {
        Some((_, minute)) => Some(minute),
        None => None,
    }
}

/// Position of the first record that opens at a full hour (minute 0, UTC); `None`
/// when there is none.
pub fn first_full_hour_index(open_times: &Vec<i64>) -> (r: Option<usize>)
    ensures
        match r {
            Some(i) => {
                &&& i < open_times.len()
                &&& utc_minute_spec(open_times@[i as int] as int) == Some(0u32)
                &&& forall|j: int| 0 <= j < i ==> utc_minute_spec(#[trigger] open_times@[j] as int) != Some(0u32)
            },
            None => forall|j: int| 0 <= j < open_times.len() ==> utc_minute_spec(#[trigger] open_times@[j] as int) != Some(0u32),
        },
{
    let mut i: usize = 0;
    while i < open_times.len()
        invariant
            i <= open_times.len(),
            forall|j: int| 0 <= j < i ==> utc_minute_spec(#[trigger] open_times@[j] as int) != Some(0u32),
        decreases open_times.len() - i,
    {
        if utc_minute(open_times[i]) == Some(0u32) {
            return Some(i);
        }
        i += 1;
    }
    None
}

/// The storage blocks of `start_time..=end_time` can be listed: one block after the
/// last of them still starts within `i64`.
pub open spec fn block_starts_fit_spec(start_time: i64, end_time: i64) -> bool {
    let first = dbtimestamp_spec(start_time as int);
    first > end_time || first + ((end_time - first) / (BLOCK_SPAN_MS as int) + 1) * BLOCK_SPAN_MS <= i64::MAX
}

/// Whether the storage blocks of `start_time..=end_time` can be listed.
pub fn block_starts_fit(start_time: i64, end_time: i64) -> (r: bool)
    ensures
        r == block_starts_fit_spec(start_time, end_time),
{
    let first = Timeframe::get_dbtimestamp(start_time) as i128;
    let end = end_time as i128;
    if first > end {
        return true;
    }
    let span: i128 = 60_000_000;
    let gap: i128 = end - first;
    assert(0 <= gap <= 0x1_0000_0000_0000_0000);
    let q: i128 = gap / span;
    assert(0 <= q <= gap) by (nonlinear_arith)
        requires
            q == gap / span,
            span == 60_000_000,
            0 <= gap,
    ;
    let count: i128 = q + 1;
    assert(count * span <= gap + span) by (nonlinear_arith)
        requires
            count == q + 1,
            q == gap / span,
            span == 60_000_000,
            0 <= gap,
    ;
    let blocks: i128 = count * span;
    first + blocks <= i64::MAX as i128
}

/// The starts of the storage blocks to read for `start_time..=end_time`.
pub fn block_starts(start_time: i64, end_time: i64) -> (r: Vec<i64>)
    requires
        block_starts_fit_spec(start_time, end_time),
    ensures
        r@ == block_starts_spec(start_time, end_time),
{
    let first = Timeframe::get_dbtimestamp(start_time);
    let ghost count: int = if first > end_time { 0 } else { (end_time - first) / (BLOCK_SPAN_MS as int) + 1 };
    let mut out: Vec<i64> = Vec::new();
    let mut current = first;
    let ghost mut k: int = 0;
    proof {
        if first <= end_time {
            assert(first + count * BLOCK_SPAN_MS <= i64::MAX);
            assert(count * BLOCK_SPAN_MS > end_time - first) by (nonlinear_arith)
                requires
                    count == (end_time - first) / (BLOCK_SPAN_MS as int) + 1,
                    end_time - first >= 0,
            ;
        }
    }
    while current <= end_time
        invariant
            first == dbtimestamp_spec(start_time as int),
            count == (if first > end_time { 0 } else { (end_time - first) / (BLOCK_SPAN_MS as int) + 1 }),
            first <= end_time ==> first + count * BLOCK_SPAN_MS <= i64::MAX,
            first <= end_time ==> count * BLOCK_SPAN_MS > end_time - first,
            0 <= k,
            current == first + k * BLOCK_SPAN_MS,
            out@.len() == k,
            forall|j: int| 0 <= j < k ==> #[trigger] out@[j] == first + j * BLOCK_SPAN_MS,
            k <= count,
            current <= end_time ==> k < count,
        decreases count - k,
    {
        out.push(current);
        proof {
            assert((k + 1) * BLOCK_SPAN_MS <= count * BLOCK_SPAN_MS) by (nonlinear_arith)
                requires
                    k < count,
            ;
            k = k + 1;
            if first + k * BLOCK_SPAN_MS <= end_time {
                assert(k < count) by (nonlinear_arith)
                    requires
                        first + k * BLOCK_SPAN_MS <= end_time,
                        count == (end_time - first) / (BLOCK_SPAN_MS as int) + 1,
                        first <= end_time,
                ;
            }
        }
        current = current + BLOCK_SPAN_MS;
    }
    proof {
        if first <= end_time {
            assert(k >= count) by (nonlinear_arith)
                requires
                    first + k * BLOCK_SPAN_MS > end_time,
                    count == (end_time - first) / (BLOCK_SPAN_MS as int) + 1,
                    first <= end_time,
            ;
        }
    }
    assert(out@ =~= block_starts_spec(start_time, end_time));
    out
}

/// The range of bars shown when `len` bars are loaded: the last 200, or all when fewer.
pub fn initial_visible_range(len: usize) -> (r: (i64, i64))
    requires
        len <= i64::MAX,
    ensures
        r.1 == len,
        r.0 == if len > INITIAL_VISIBLE_BARS { len - INITIAL_VISIBLE_BARS } else { 0 },
{
    let n = len as i64;
    let window: i64 = if INITIAL_VISIBLE_BARS < n { INITIAL_VISIBLE_BARS } else { n };
    let start = if n - window > 0 { n - window } else { 0 };
    (start, n)
}

/// Slice bounds of the visible bars: the start held at `0` or above, the end at
/// `len` or below, each then taken as a `usize` as `as` converts it.
pub open spec fn visible_bounds_spec(start: i64, end: i64, len: usize) -> (usize, usize) {
    let s: i64 = if start > 0 { start } else { 0 };
    let e: i64 = if end < len as i64 { end } else { len as i64 };
    (s as usize, e as usize)
}

/// The slice bounds of the visible range `(start, end)` of `len` bars.
pub fn visible_bounds(start: i64, end: i64, len: usize) -> (r: (usize, usize))
    requires
        len <= i64::MAX,
    ensures
        r == visible_bounds_spec(start, end, len),
{
    let n = len as i64;
    let s: i64 = if start > 0 { start } else { 0 };
    let e: i64 = if end < n { end } else { n };
    (s as usize, e as usize)
}

/// The first of `indexes` that lies in `start..end`; `None` when none does.
pub fn first_index_in_window(indexes: &Vec<usize>, start: usize, end: usize) -> (r: Option<usize>)
    ensures
        match r {
            Some(k) => exists|p: int|
                0 <= p < indexes.len() && indexes@[p] == k && start <= k < end && forall|q: int|
                    0 <= q < p ==> !(start <= #[trigger] indexes@[q] < end),
            None => forall|q: int| 0 <= q < indexes.len() ==> !(start <= #[trigger] indexes@[q] < end),
        },
{
    let mut p: usize = 0;
    while p < indexes.len()
        invariant
            p <= indexes.len(),
            forall|q: int| 0 <= q < p ==> !(start <= #[trigger] indexes@[q] < end),
        decreases indexes.len() - p,
    {
        let i = indexes[p];
        if start <= i && i < end {
            assert(indexes@[p as int] == i);
            return Some(i);
        }
        p += 1;
    }
    None
}

} // verus!
