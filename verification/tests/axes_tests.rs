use chrono::{Datelike, Timelike};
use n_ohlcv::axes_util::{
    choose_time_interval, first_bar_at_or_after, label_iterations, round_to_interval,
    format_time_label, time_label_style, TimeLabelStyle,
};

#[test]
fn interval_for_one_hour_span() {
    assert_eq!(choose_time_interval(3_600_000, 4), 900_000);
    assert_eq!(choose_time_interval(3_600_000, 10), 900_000);
}

#[test]
fn interval_for_long_spans() {
    assert_eq!(choose_time_interval(864_000_000, 4), 604_800_000);
    assert_eq!(choose_time_interval(100_000_000_000_000, 4), 31_536_000_000);
}

#[test]
fn interval_edges() {
    assert_eq!(choose_time_interval(0, 4), 1_000);
    assert_eq!(choose_time_interval(-1_000, 4), 1_000);
    assert_eq!(choose_time_interval(5_000, 0), 60_000);
}

#[test]
fn label_styles() {
    let midnight = 86_400_000 * 3;
    assert_eq!(time_label_style(midnight, 31_536_000_000, true, true, true), TimeLabelStyle::Year);
    assert_eq!(time_label_style(midnight, 31_536_000_000, false, true, true), TimeLabelStyle::MonthName);
    assert_eq!(time_label_style(midnight, 604_800_000, false, false, true), TimeLabelStyle::DayDotMonth);
    assert_eq!(time_label_style(midnight, 86_400_000, false, false, true), TimeLabelStyle::Day);
    assert_eq!(time_label_style(midnight, 900_000, false, false, true), TimeLabelStyle::DayMonthName);
    assert_eq!(time_label_style(midnight + 60_000, 900_000, false, false, true), TimeLabelStyle::HourMinute);
    assert_eq!(time_label_style(midnight + 3_600_000, 900_000, false, false, true), TimeLabelStyle::HourMinute);
    assert_eq!(time_label_style(midnight, 900_000, false, false, false), TimeLabelStyle::HourMinute);
    assert_eq!(time_label_style(midnight, 60_000, true, true, true), TimeLabelStyle::HourMinuteSecond);
}

#[test]
fn grid_positions() {
    assert_eq!(round_to_interval(1_234_567, 1_000), 1_234_000);
    assert_eq!(round_to_interval(-1_500, 1_000), -1_000);
    assert_eq!(round_to_interval(17, 0), 17);
    assert_eq!(label_iterations(3_600_000, 900_000), 24);
    assert_eq!(label_iterations(10_000_000_000, 1_000), 2_000);
    assert_eq!(label_iterations(i64::MAX - 5, i64::MAX), 20);
    assert_eq!(label_iterations(i64::MAX, 1_000_000_000), 2_000);
    let times = vec![10, 20, 30, 40];
    assert_eq!(first_bar_at_or_after(&times, 1, 25), Some(2));
    assert_eq!(first_bar_at_or_after(&times, 3, 5), Some(3));
    assert_eq!(first_bar_at_or_after(&times, 0, 50), None);
}

fn label_by_chrono(ms: i64, i: i64, y: bool, m: bool, d: bool) -> String {
    let dt = chrono::DateTime::from_timestamp_millis(ms).unwrap();
    if i >= 31_536_000_000 && y {
        dt.format("%Y").to_string()
    } else if i >= 2_592_000_000 && m {
        dt.format("%b").to_string()
    } else if i >= 604_800_000 && d {
        format!("{}.{}", dt.day(), dt.month())
    } else if i >= 86_400_000 && d {
        dt.format("%d").to_string()
    } else if i >= 900_000 {
        if dt.hour() == 0 && dt.minute() == 0 && d {
            dt.format("%d %b").to_string()
        } else {
            dt.format("%H:%M").to_string()
        }
    } else {
        dt.format("%H:%M:%S").to_string()
    }
}

#[test]
fn time_labels_are_written_like_chrono() {
    let times = [0i64, 1_700_000_000_000, 1_704_067_200_000, 1_709_251_199_999, -86_400_000];
    let intervals = [1_000i64, 60_000, 900_000, 3_600_000, 86_400_000, 604_800_000, 2_592_000_000, 31_536_000_000];
    for &t in &times {
        for &i in &intervals {
            for (y, m, d) in [(true, true, true), (false, true, true), (false, false, true), (false, false, false)] {
                assert_eq!(format_time_label(t, i, y, m, d), label_by_chrono(t, i, y, m, d), "{} {}", t, i);
            }
        }
    }
    assert_eq!(format_time_label(1_704_067_200_000, 604_800_000, false, false, true), "1.1");
    assert_eq!(format_time_label(1_704_067_200_000, 900_000, false, false, true), "01 Jan");
}
