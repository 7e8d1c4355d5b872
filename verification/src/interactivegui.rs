//! Integer parts of the chart's interaction: zooming and panning the range of
//! visible bars, and the bounded list of status messages.
use vstd::prelude::*;
use crate::settings::STATUS_MESSAGE_MAX_COUNT;

verus! {

/// Fewest bars a zoom leaves visible.
pub const MIN_VISIBLE_BARS: i64 = 2;

pub open spec fn min_i(a: int, b: int) -> int {
    if a < b { a } else { b }
}

pub open spec fn max_i(a: int, b: int) -> int {
    if a > b { a } else { b }
}

/// The visible range after a zoom by `step` bars on each side, in when `zoom_in`
/// and out otherwise, for `len` bars; an empty chart or an empty range stays as it is.
pub open spec fn zoom_spec(start: int, end: int, len: int, step: int, zoom_in: bool) -> (int, int) {
    if len == 0 || end <= start {
        (start, end)
    } else {
        let (s1, e1) = if zoom_in {
            let s = min_i(start + step, end - 2);
            (s, min_i(max_i(end - step, s + 2), len))
        } else {
            (max_i(start - step, 0), min_i(end + step, len))
        };
        let s2 = max_i(s1, 0);
        (s2, max_i(min_i(e1, len), s2 + 2))
    }
}

/// Zooms the visible range `(start, end)` of `len` bars by `step` bars on each
/// side; at least two bars stay visible.
pub fn zoom_visible_range(start: i64, end: i64, len: i64, step: i64, zoom_in: bool) -> (r: (i64, i64))
    requires
        len != 0 && end > start ==> {
            &&& zoom_in ==> start + step <= i64::MAX && end - 2 >= i64::MIN && end - step >= i64::MIN
                && end - step <= i64::MAX && min_i(start + step, end - 2) + 2 <= i64::MAX
            &&& !zoom_in ==> start - step >= i64::MIN && start - step <= i64::MAX && end + step <= i64::MAX
                && end + step >= i64::MIN && max_i(start - step, 0) + 2 <= i64::MAX
            &&& step >= 0
        },
    ensures
        r.0 == zoom_spec(start as int, end as int, len as int, step as int, zoom_in).0,
        r.1 == zoom_spec(start as int, end as int, len as int, step as int, zoom_in).1,
        len != 0 && end > start ==> r.0 >= 0 && r.1 - r.0 >= MIN_VISIBLE_BARS,
        // A range inside at least two bars stays inside them, when the step is at
        // least one bar.
        len >= 2 && 0 <= start < end <= len && step >= 1 ==> 0 <= r.0 && r.0 + 2 <= r.1 && r.1 <= len,
        // Zooming in a range of two bars or more keeps inside it.
        zoom_in && 0 <= start && start + 2 <= end <= len ==> start <= r.0 && r.1 <= end,
        // Zooming out keeps the whole old range in view.
        !zoom_in && 0 <= start < end <= len ==> r.0 <= start && end <= r.1,
{
    if len == 0 || end <= start {
        return (start, end);
    }
    let mut s: i64;
    let mut e: i64;
    if zoom_in {
        let a = start + step;
        let b = end - 2;
        s = if a < b { a } else { b };
        let c = end - step;
        let d = s + 2;
        let m = if c > d { c } else { d };
        e = if m < len { m } else { len };
    } else {
        let a = start - step;
        s = if a > 0 { a } else { 0 };
        let c = end + step;
        e = if c < len { c } else { len };
    }
    if s < 0 {
        s = 0;
    }
    if e > len {
        e = len;
    }
    assert(s + 2 <= i64::MAX);
    if e < s + 2 {
        e = s + 2;
    }
    (s, e)
}

/// The visible range after shifting `(start, end)` back by `shift` bars, kept
/// inside the `len` bars: the start is held between `0` and `len` less the
/// number of visible bars.
pub open spec fn pan_spec(start: int, end: int, len: int, shift: int) -> (int, int) {
    let visible = end - start;
    let s = start - shift;
    let hi = len - visible;
    let ns = if s < 0 { 0 } else if s > hi { hi } else { s };
    (ns, min_i(ns + visible, len))
}

/// Pans the visible range `(start, end)` of `len` bars by `shift` bars, keeping
/// its width and keeping it inside the bars.
pub fn pan_visible_range(start: i64, end: i64, len: i64, shift: i64) -> (r: (i64, i64))
    requires
        i64::MIN <= end - start <= i64::MAX,
        i64::MIN <= start - shift <= i64::MAX,
        0 <= len - (end - start) <= i64::MAX,
    ensures
        r.0 == pan_spec(start as int, end as int, len as int, shift as int).0,
        r.1 == pan_spec(start as int, end as int, len as int, shift as int).1,
        0 <= r.0,
        r.1 <= len,
        r.1 - r.0 == end - start,
{
    let visible = end - start;
    let hi = len - visible;
    let s = start - shift;
    let ns = if s < 0 { 0 } else if s > hi { hi } else { s };
    let ne = if ns + visible < len { ns + visible } else { len };
    (ns, ne)
}

/// Zooming leaves an empty chart or an empty range as it is. Zooming out a range
/// `start..end` inside `len` bars (at least two) by a step of one bar or more widens it by
/// `step` bars on each side, as far as the bars reach: the start moves to
/// `start - step` (not below 0) and the end to `end + step` (not beyond `len`).
/// Zooming in a range of at least two bars moves the start `step` bars on, but
/// keeps two bars before the old end, and the end `step` bars back, but keeps two
/// bars after the new start.
pub proof fn lemma_zoom_moves_by_step(start: int, end: int, len: int, step: int)
    ensures
        len == 0 || end <= start ==> zoom_spec(start, end, len, step, true) == (start, end)
            && zoom_spec(start, end, len, step, false) == (start, end),
        0 <= start < end <= len && len >= 2 && step >= 1 ==> zoom_spec(start, end, len, step, false) == (
            if start - step >= 0 { start - step } else { 0 },
            if end + step <= len { end + step } else { len },
        ),
        0 <= start && start + 2 <= end <= len && step >= 0 ==> ({
            let s = if start + step <= end - 2 { start + step } else { end - 2 };
            zoom_spec(start, end, len, step, true) == (s, if end - step >= s + 2 { end - step } else { s + 2 })
        }),
{
}

/// Panning by `shift` bars (back in time for a positive shift, forward for a
/// negative one) moves the start to `start - shift`, held between 0 and the last
/// start that keeps the range inside the `len` bars, and keeps the width.
pub proof fn lemma_pan_moves_by_shift(start: int, end: int, len: int, shift: int)
    requires
        0 <= len - (end - start),
    ensures
        pan_spec(start, end, len, shift).0 == (if start - shift < 0 {
            0
        } else if start - shift > len - (end - start) {
            len - (end - start)
        } else {
            start - shift
        }),
        pan_spec(start, end, len, shift).1 == pan_spec(start, end, len, shift).0 + (end - start),
        0 <= start - shift <= len - (end - start) ==> pan_spec(start, end, len, shift) == (start - shift, end - shift),
{
}

/// The message list after adding `message`: the oldest message is dropped once
/// there are more than `STATUS_MESSAGE_MAX_COUNT`.
pub open spec fn messages_after(messages: Seq<String>, message: String) -> Seq<String> {
    let pushed = messages.push(message);
    if pushed.len() > STATUS_MESSAGE_MAX_COUNT { pushed.drop_first() } else { pushed }
}

/// Adds a status message, dropping the oldest beyond `STATUS_MESSAGE_MAX_COUNT`.
pub fn push_status_message(messages: &mut Vec<String>, message: String)
    ensures
        final(messages)@ == messages_after(old(messages)@, message),
        old(messages)@.len() <= STATUS_MESSAGE_MAX_COUNT ==> final(messages)@.len() <= STATUS_MESSAGE_MAX_COUNT,
{
    messages.push(message);
    if messages.len() > STATUS_MESSAGE_MAX_COUNT {
        messages.remove(0);
        assert(messages@ =~= messages_after(old(messages)@, message));
    }
}

} // verus!
