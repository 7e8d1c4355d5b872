//! Choice of the spacing of time grid lines on the chart's time axis.
use vstd::prelude::*;
use crate::utc::{format_utc, utc_formatted, utc_hour_minute, utc_hour_minute_spec};

verus! {

/// Quotient of `a` by `b` truncated toward zero, as Rust's `/` computes it.
pub open spec fn trunc_div(a: int, b: int) -> int {
    let q = (if a >= 0 { a } else { -a }) / (if b >= 0 { b } else { -b });
    if (a >= 0) == (b >= 0) { q } else { -q }
}

/// The grid spacings offered, in milliseconds: a second, a minute, 5, 15 and 30
/// minutes, an hour, 4 and 12 hours, a day, a week, 30 days and 365 days.
pub open spec fn time_intervals() -> Seq<i64> {
    seq![
        1_000i64,
        60_000,
        300_000,
        900_000,
        1_800_000,
        3_600_000,
        14_400_000,
        43_200_000,
        86_400_000,
        604_800_000,
        2_592_000_000,
        31_536_000_000,
    ]
}

/// The first of `s` that is at least `t`; `fallback` when there is none.
pub open spec fn first_at_least(s: Seq<i64>, t: int, fallback: i64) -> i64
    decreases s.len(),
{
    if s.len() == 0 {
        fallback
    } else if s[0] >= t {
        s[0]
    } else {
        first_at_least(s.drop_first(), t, fallback)
    }
}

/// `n`, or `1` when `n` is `0`.
pub open spec fn at_least_one(n: usize) -> usize {
    if n >= 1 { n } else { 1 }
}

/// The first offered spacing that makes at most about `lines` lines over `span`
/// milliseconds, the largest one when none does.
pub open spec fn spacing_for(span: i64, lines: usize) -> i64 {
    let intervals = time_intervals();
    first_at_least(
        intervals,
        trunc_div(span as int, at_least_one(lines) as i64 as int),
        intervals.last(),
    )
}

/// The spacing `choose_time_interval` picks: one for `target_lines` lines; where
/// that still gives more than twice as many lines, one for twice as many lines;
/// never below a second.
pub open spec fn time_interval_spec(span: i64, target_lines: usize) -> i64 {
    let doubled = (target_lines * 2) as usize;
    let first = spacing_for(span, target_lines);
    let second = if first > 0 && trunc_div(span as int, first as int) > doubled as i64 {
        spacing_for(span, doubled)
    } else {
        first
    };
    if second >= 1000 { second } else { 1000 }
}

/// The smallest of the spacings 1 s, 1 min, 5, 15 and 30 min, 1 h, 4 and 12 h, 1 day,
/// 7, 30 and 365 days that is at least `t`; 365 days when none is.
pub open spec fn smallest_spacing_at_least(t: int) -> i64 {
    if t <= 1_000 {
        1_000
    } else if t <= 60_000 {
        60_000
    } else if t <= 300_000 {
        300_000
    } else if t <= 900_000 {
        900_000
    } else if t <= 1_800_000 {
        1_800_000
    } else if t <= 3_600_000 {
        3_600_000
    } else if t <= 14_400_000 {
        14_400_000
    } else if t <= 43_200_000 {
        43_200_000
    } else if t <= 86_400_000 {
        86_400_000
    } else if t <= 604_800_000 {
        604_800_000
    } else if t <= 2_592_000_000 {
        2_592_000_000
    } else {
        31_536_000_000
    }
}

/// The spacing for `lines` lines over `span` is the smallest offered spacing that is
/// at least `span / lines` (truncated), 365 days when the span needs more.
pub proof fn lemma_spacing_is_smallest_offered(span: i64, lines: usize)
    requires
        1 <= lines <= i64::MAX,
    ensures
        spacing_for(span, lines) == smallest_spacing_at_least(trunc_div(span as int, lines as int)),
{
    let t = trunc_div(span as int, lines as int);
    assert(at_least_one(lines) as i64 as int == lines as int);
    let l = time_intervals();
    reveal_with_fuel(first_at_least, 13);
    assert(l.drop_first() =~= seq![60_000i64, 300_000, 900_000, 1_800_000, 3_600_000, 14_400_000, 43_200_000, 86_400_000, 604_800_000, 2_592_000_000, 31_536_000_000]);
    assert(l.drop_first().drop_first() =~= seq![300_000i64, 900_000, 1_800_000, 3_600_000, 14_400_000, 43_200_000, 86_400_000, 604_800_000, 2_592_000_000, 31_536_000_000]);
    assert(l.drop_first().drop_first().drop_first() =~= seq![900_000i64, 1_800_000, 3_600_000, 14_400_000, 43_200_000, 86_400_000, 604_800_000, 2_592_000_000, 31_536_000_000]);
    assert(l.drop_first().drop_first().drop_first().drop_first() =~= seq![1_800_000i64, 3_600_000, 14_400_000, 43_200_000, 86_400_000, 604_800_000, 2_592_000_000, 31_536_000_000]);
    assert(l.drop_first().drop_first().drop_first().drop_first().drop_first() =~= seq![3_600_000i64, 14_400_000, 43_200_000, 86_400_000, 604_800_000, 2_592_000_000, 31_536_000_000]);
    assert(l.drop_first().drop_first().drop_first().drop_first().drop_first().drop_first() =~= seq![14_400_000i64, 43_200_000, 86_400_000, 604_800_000, 2_592_000_000, 31_536_000_000]);
    assert(l.drop_first().drop_first().drop_first().drop_first().drop_first().drop_first().drop_first() =~= seq![43_200_000i64, 86_400_000, 604_800_000, 2_592_000_000, 31_536_000_000]);
    assert(l.drop_first().drop_first().drop_first().drop_first().drop_first().drop_first().drop_first().drop_first() =~= seq![86_400_000i64, 604_800_000, 2_592_000_000, 31_536_000_000]);
    assert(l.drop_first().drop_first().drop_first().drop_first().drop_first().drop_first().drop_first().drop_first().drop_first() =~= seq![604_800_000i64, 2_592_000_000, 31_536_000_000]);
    assert(l.drop_first().drop_first().drop_first().drop_first().drop_first().drop_first().drop_first().drop_first().drop_first().drop_first() =~= seq![2_592_000_000i64, 31_536_000_000]);
    assert(l.drop_first().drop_first().drop_first().drop_first().drop_first().drop_first().drop_first().drop_first().drop_first().drop_first().drop_first() =~= seq![31_536_000_000i64]);
    assert(l.drop_first().drop_first().drop_first().drop_first().drop_first().drop_first().drop_first().drop_first().drop_first().drop_first().drop_first().drop_first() =~= Seq::<i64>::empty());
    assert(l.last() == 31_536_000_000i64);
}

/// The chosen spacing is the smallest offered spacing that is at least
/// `span / lines`; where that still draws more than twice `lines` lines over the
/// span, the smallest that is at least `span / (2 * lines)`; and never below a
/// second. Each offered spacing is the choice for one line over a span of its
/// own length.
pub proof fn lemma_time_interval_choice(span: i64, lines: usize)
    requires
        1 <= lines,
        2 * lines <= i64::MAX,
        2 * lines <= usize::MAX,
    ensures
        ({
            let first = smallest_spacing_at_least(trunc_div(span as int, lines as int));
            let chosen = if trunc_div(span as int, first as int) > 2 * lines {
                smallest_spacing_at_least(trunc_div(span as int, 2 * lines))
            } else {
                first
            };
            time_interval_spec(span, lines) == if chosen >= 1000 { chosen } else { 1000 }
        }),
        time_interval_spec(1_000, 1) == 1_000,
        time_interval_spec(60_000, 1) == 60_000,
        time_interval_spec(300_000, 1) == 300_000,
        time_interval_spec(900_000, 1) == 900_000,
        time_interval_spec(1_800_000, 1) == 1_800_000,
        time_interval_spec(3_600_000, 1) == 3_600_000,
        time_interval_spec(14_400_000, 1) == 14_400_000,
        time_interval_spec(43_200_000, 1) == 43_200_000,
        time_interval_spec(86_400_000, 1) == 86_400_000,
        time_interval_spec(604_800_000, 1) == 604_800_000,
        time_interval_spec(2_592_000_000, 1) == 2_592_000_000,
        time_interval_spec(31_536_000_000, 1) == 31_536_000_000,
{
    lemma_spacing_is_smallest_offered(span, lines);
    let d = (lines * 2) as usize;
    assert(d as int == 2 * lines);
    lemma_spacing_is_smallest_offered(span, d);
    let vs: Seq<i64> = seq![1_000i64, 60_000, 300_000, 900_000, 1_800_000, 3_600_000, 14_400_000, 43_200_000, 86_400_000, 604_800_000, 2_592_000_000, 31_536_000_000];
    assert forall|k: int| 0 <= k < 12 implies time_interval_spec(#[trigger] vs[k], 1) == vs[k] by {
        let v = vs[k];
        lemma_spacing_is_smallest_offered(v, 1);
        assert(trunc_div(v as int, 1) == v);
        assert(trunc_div(v as int, v as int) == 1) by (nonlinear_arith)
            requires
                v > 0,
        ;
    }
    assert(vs[0] == 1_000 && vs[1] == 60_000 && vs[2] == 300_000 && vs[3] == 900_000);
    assert(vs[4] == 1_800_000 && vs[5] == 3_600_000 && vs[6] == 14_400_000 && vs[7] == 43_200_000);
    assert(vs[8] == 86_400_000 && vs[9] == 604_800_000 && vs[10] == 2_592_000_000 && vs[11] == 31_536_000_000);
}

proof fn lemma_div_by_negative(a: int, b: int)
    requires
        a >= 0,
        b < 0,
    ensures
        a / b == -(a / (-b)),
{
    let q = a / (-b);
    let r = a % (-b);
    assert(a == (-b) * q + r && 0 <= r < -b) by (nonlinear_arith)
        requires
            b < 0,
            q == a / (-b),
            r == a % (-b),
    ;
    assert(a == b * (-q) + r) by (nonlinear_arith)
        requires
            a == (-b) * q + r,
    ;
    vstd::arithmetic::div_mod::lemma_fundamental_div_mod(a, b);
    assert(a / b == -q) by (nonlinear_arith)
        requires
            a == b * (-q) + r,
            0 <= r < -b,
            a == b * (a / b) + a % b,
            0 <= a % b < -b,
    ;
}

/// `a / b` on `i64`, truncated toward zero as Rust divides.
fn div_i64(a: i64, b: i64) -> (q: i64)
    requires
        b != 0,
        !(a == i64::MIN && b == -1),
    ensures
        q == trunc_div(a as int, b as int),
{
    let wa = a as i128;
    let wb = b as i128;
    let wq = wa / wb;
    proof {
        if b < 0 {
            if a >= 0 {
                lemma_div_by_negative(a as int, b as int);
            } else {
                lemma_div_by_negative(-(a as int), b as int);
            }
        }
    }
    assert(wq as int == trunc_div(a as int, b as int));
    assert(-0x8000_0000_0000_0000 <= wq <= 0x7fff_ffff_ffff_ffff) by (nonlinear_arith)
        requires
            wq as int == trunc_div(a as int, b as int),
            b != 0,
            !(a == i64::MIN && b == -1),
            i64::MIN <= a <= i64::MAX,
    {
        let ab = if b >= 0 { b as int } else { -(b as int) };
        let aa = if a >= 0 { a as int } else { -(a as int) };
        assert(aa / ab <= aa);
    }
    wq as i64
}

proof fn lemma_first_at_least_in(s: Seq<i64>, t: int, fallback: i64)
    ensures
        s.contains(first_at_least(s, t, fallback)) || first_at_least(s, t, fallback) == fallback,
    decreases s.len(),
{
    if s.len() > 0 && s[0] < t {
        lemma_first_at_least_in(s.drop_first(), t, fallback);
        let r = first_at_least(s.drop_first(), t, fallback);
        if s.drop_first().contains(r) {
            let k = choose|k: int| 0 <= k < s.drop_first().len() && s.drop_first()[k] == r;
            assert(s[k + 1] == r);
        }
    } else if s.len() > 0 {
        assert(s[0] == s[0]);
    }
}

/// Index of the first of the offered spacings that is at least `threshold`, or
/// the last one.
fn spacing_at_least(intervals: &[i64; 12], threshold: i64) -> (r: i64)
    requires
        intervals@ == time_intervals(),
    ensures
        r == first_at_least(time_intervals(), threshold as int, time_intervals().last()),
{
    let mut i: usize = 0;
    assert(time_intervals().skip(0) =~= time_intervals());
    while i < 12
        invariant
            i <= 12,
            intervals@ == time_intervals(),
            first_at_least(time_intervals(), threshold as int, time_intervals().last())
                == first_at_least(time_intervals().skip(i as int), threshold as int, time_intervals().last()),
        decreases 12 - i,
    {
        let ghost rest = time_intervals().skip(i as int);
        assert(rest.drop_first() =~= time_intervals().skip(i + 1));
        if intervals[i] >= threshold {
            return intervals[i];
        }
        i += 1;
    }
    assert(time_intervals().skip(12) =~= Seq::<i64>::empty());
    intervals[11]
}

/// Spacing in milliseconds of the time grid lines for a span of `time_span_ms`
/// milliseconds and about `target_lines` lines.
pub fn choose_time_interval(time_span_ms: i64, target_lines: usize) -> (r: i64)
    requires
        target_lines <= usize::MAX / 2,
    ensures
        r == time_interval_spec(time_span_ms, target_lines),
        time_intervals().contains(r),
        r >= 1000,
{
    let intervals: [i64; 12] = [
        1_000,
        60_000,
        300_000,
        900_000,
        1_800_000,
        3_600_000,
        14_400_000,
        43_200_000,
        86_400_000,
        604_800_000,
        2_592_000_000,
        31_536_000_000,
    ];
    assert(intervals@ =~= time_intervals());
    let lines = if target_lines >= 1 { target_lines } else { 1 };
    let divisor = lines as i64;
    assert(divisor >= 1);
    let q = div_i64(time_span_ms, divisor);
    let mut interval = spacing_at_least(&intervals, q);
    proof {
        lemma_first_at_least_in(time_intervals(), q as int, time_intervals().last());
    }
    assert(time_intervals().contains(time_intervals().last()));
    let doubled = target_lines * 2;
    let mut too_dense = false;
    if interval > 0 {
        too_dense = div_i64(time_span_ms, interval) > doubled as i64;
    }
    if too_dense {
        let lines2 = if doubled >= 1 { doubled } else { 1 };
        let divisor2 = lines2 as i64;
        assert(lines2 % 2 == 0 || lines2 == 1);
        assert(divisor2 != 0 && divisor2 != -1) by (bit_vector)
            requires
                lines2 % 2 == 0 || lines2 == 1,
                lines2 >= 1,
                divisor2 == lines2 as i64,
        ;
        let q2 = div_i64(time_span_ms, divisor2);
        interval = spacing_at_least(&intervals, q2);
        proof {
            lemma_first_at_least_in(time_intervals(), q2 as int, time_intervals().last());
        }
    }
    assert(time_intervals().contains(time_intervals().last()));
    assert(time_intervals()[0] == 1000);
    assert(time_intervals().contains(1000));
    if interval >= 1000 {
        interval
    } else {
        1000
    }
}

/// How a time label is written.
#[derive(Clone, Copy, Debug, PartialEq, Eq)]
pub enum TimeLabelStyle {
    /// The year, `%Y`.
    Year,
    /// The abbreviated month name, `%b`.
    MonthName,
    /// Day and month as plain numbers, `{day}.{month}`.
    DayDotMonth,
    /// The day of the month, `%d`.
    Day,
    /// Day and abbreviated month name, `%d %b`.
    DayMonthName,
    /// Hours and minutes, `%H:%M`.
    HourMinute,
    /// Hours, minutes and seconds, `%H:%M:%S`.
    HourMinuteSecond,
}

/// Whether the UTC time `time_ms` falls on midnight to the minute (hour 0, minute 0).
pub open spec fn at_utc_midnight(time_ms: int) -> bool {
    utc_hour_minute_spec(time_ms) == Some((0u32, 0u32))
}

/// The style of a time label for a grid spacing of `interval_ms`: the coarser the
/// spacing, the coarser the label, where the visible span covers two years, months
/// or days; midnight is marked with the date at spacings of 15 minutes or more.
pub open spec fn time_label_style_spec(
    time_ms: i64,
    interval_ms: i64,
    has_two_years: bool,
    has_two_months: bool,
    has_two_days: bool,
) -> TimeLabelStyle {
    if interval_ms >= 31_536_000_000 && has_two_years {
        TimeLabelStyle::Year
    } else if interval_ms >= 2_592_000_000 && has_two_months {
        TimeLabelStyle::MonthName
    } else if interval_ms >= 604_800_000 && has_two_days {
        TimeLabelStyle::DayDotMonth
    } else if interval_ms >= 86_400_000 && has_two_days {
        TimeLabelStyle::Day
    } else if interval_ms >= 900_000 {
        if at_utc_midnight(time_ms as int) && has_two_days {
            TimeLabelStyle::DayMonthName
        } else {
            TimeLabelStyle::HourMinute
        }
    } else {
        TimeLabelStyle::HourMinuteSecond
    }
}

/// Labels by grid spacing: below 15 minutes, hours, minutes and seconds. From 15
/// minutes to below a day, hours and minutes, except that UTC midnight shows the day
/// and month name when the span covers two days. From a day to below a week, the
/// day when the span covers two days, else hours and minutes; from a week to below
/// 30 days, day and month as numbers when it covers two days; from 30 days to
/// below 365 days, the month name when it covers two months, else as for a week;
/// from 365 days on, the year when it covers two years, else as for 30 days.
pub proof fn lemma_label_style_by_spacing(t: i64, i: i64, y: bool, m: bool, d: bool)
    ensures
        i < 900_000 ==> time_label_style_spec(t, i, y, m, d) == TimeLabelStyle::HourMinuteSecond,
        900_000 <= i < 86_400_000 ==> time_label_style_spec(t, i, y, m, d) == if d
            && utc_hour_minute_spec(t as int) == Some((0u32, 0u32)) {
            TimeLabelStyle::DayMonthName
        } else {
            TimeLabelStyle::HourMinute
        },
        86_400_000 <= i < 604_800_000 ==> time_label_style_spec(t, i, y, m, d) == if d {
            TimeLabelStyle::Day
        } else {
            TimeLabelStyle::HourMinute
        },
        604_800_000 <= i < 2_592_000_000 ==> time_label_style_spec(t, i, y, m, d) == if d {
            TimeLabelStyle::DayDotMonth
        } else {
            TimeLabelStyle::HourMinute
        },
        2_592_000_000 <= i < 31_536_000_000 ==> time_label_style_spec(t, i, y, m, d) == if m {
            TimeLabelStyle::MonthName
        } else if d {
            TimeLabelStyle::DayDotMonth
        } else {
            TimeLabelStyle::HourMinute
        },
        31_536_000_000 <= i ==> time_label_style_spec(t, i, y, m, d) == if y {
            TimeLabelStyle::Year
        } else if m {
            TimeLabelStyle::MonthName
        } else if d {
            TimeLabelStyle::DayDotMonth
        } else {
            TimeLabelStyle::HourMinute
        },
{
}

/// Chooses how the label of the UTC time `time_ms` is written.
pub fn time_label_style(
    time_ms: i64,
    interval_ms: i64,
    has_two_years: bool,
    has_two_months: bool,
    has_two_days: bool,
) -> (r: TimeLabelStyle)
    ensures
        r == time_label_style_spec(time_ms, interval_ms, has_two_years, has_two_months, has_two_days),
{
    if interval_ms >= 31_536_000_000 && has_two_years {
        TimeLabelStyle::Year
    } else if interval_ms >= 2_592_000_000 && has_two_months {
        TimeLabelStyle::MonthName
    } else if interval_ms >= 604_800_000 && has_two_days {
        TimeLabelStyle::DayDotMonth
    } else if interval_ms >= 86_400_000 && has_two_days {
        TimeLabelStyle::Day
    } else if interval_ms >= 900_000 {
        let midnight = match utc_hour_minute(time_ms) {
            Some((hour, minute)) => hour == 0 && minute == 0,
            None => false,
        };
        if midnight && has_two_days {
            TimeLabelStyle::DayMonthName
        } else {
            TimeLabelStyle::HourMinute
        }
    } else {
        TimeLabelStyle::HourMinuteSecond
    }
}

/// The strftime pattern a label of the given style is written with.
pub open spec fn label_pattern(style: TimeLabelStyle) -> Seq<char> {
    match style {
        TimeLabelStyle::Year => "%Y"@,
        TimeLabelStyle::MonthName => "%b"@,
        TimeLabelStyle::DayDotMonth => "%-d.%-m"@,
        TimeLabelStyle::Day => "%d"@,
        TimeLabelStyle::DayMonthName => "%d %b"@,
        TimeLabelStyle::HourMinute => "%H:%M"@,
        TimeLabelStyle::HourMinuteSecond => "%H:%M:%S"@,
    }
}

/// Writes the label of the UTC time `time_ms` in the style `time_label_style`
/// chooses: the year, the month name, day and month as numbers, the day, day and
/// month name, hours and minutes, or hours, minutes and seconds.
pub fn format_time_label(
    time_ms: i64,
    interval_ms: i64,
    has_two_years: bool,
    has_two_months: bool,
    has_two_days: bool,
) -> (r: String)
    requires
        utc_hour_minute_spec(time_ms as int) is Some,
    ensures
        r@ == utc_formatted(
            time_ms,
            label_pattern(
                time_label_style_spec(time_ms, interval_ms, has_two_years, has_two_months, has_two_days),
            ),
        ),
{
    let style = time_label_style(time_ms, interval_ms, has_two_years, has_two_months, has_two_days);
    let pattern: &str = match style {
        TimeLabelStyle::Year => "%Y",
        TimeLabelStyle::MonthName => "%b",
        TimeLabelStyle::DayDotMonth => "%-d.%-m",
        TimeLabelStyle::Day => "%d",
        TimeLabelStyle::DayMonthName => "%d %b",
        TimeLabelStyle::HourMinute => "%H:%M",
        TimeLabelStyle::HourMinuteSecond => "%H:%M:%S",
    };
    format_utc(time_ms, pattern)
}

/// `t` rounded toward zero to a multiple of `interval` (at least 1), as
/// `t - t % interval.max(1)` computes it.
pub fn round_to_interval(t: i64, interval: i64) -> (r: i64)
    ensures
        r == t - crate::timeframe::trunc_rem(t as int, if interval > 1 { interval as int } else { 1 }),
{
    let step = if interval > 1 { interval } else { 1 };
    t - t % step
}

/// Number of grid positions tried over a span: one per spacing and twenty more,
/// at most 2000.
pub fn label_iterations(time_span_ms: i64, interval_ms: i64) -> (r: i64)
    requires
        interval_ms >= 1,
        trunc_div(time_span_ms as int, interval_ms as int) + 20 <= i64::MAX,
    ensures
        r == if trunc_div(time_span_ms as int, interval_ms as int) + 20 < 2000 {
            trunc_div(time_span_ms as int, interval_ms as int) + 20
        } else {
            2000
        },
{
    let q = div_i64(time_span_ms, interval_ms);
    let k = q + 20;
    if k < 2000 {
        k
    } else {
        2000
    }
}

/// Position of the first bar from `from` on that opens at or after `t`.
pub fn first_bar_at_or_after(times: &Vec<i64>, from: usize, t: i64) -> (r: Option<usize>)
    ensures
        match r {
            Some(i) => from <= i < times.len() && times@[i as int] >= t && forall|j: int|
                from <= j < i ==> #[trigger] times@[j] < t,
            None => forall|j: int| from <= j < times.len() ==> #[trigger] times@[j] < t,
        },
{
    let mut i = from;
    while i < times.len()
        invariant
            from <= i,
            forall|j: int| from <= j < i ==> #[trigger] times@[j] < t,
        decreases times.len() - i,
    {
        if times[i] >= t {
            return Some(i);
        }
        i += 1;
    }
    None
}

} // verus!
