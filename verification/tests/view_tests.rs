use chrono::{DateTime, Timelike};
use n_ohlcv::datawindow::{
    block_starts, block_starts_fit, first_full_hour_index, first_index_in_window, initial_visible_range, utc_minute,
    visible_bounds,
};
use n_ohlcv::interactivegui::{pan_visible_range, push_status_message, zoom_visible_range};

fn chrono_minute(ms: i64) -> Option<u32> {
    DateTime::from_timestamp_millis(ms).map(|dt| dt.minute())
}

#[test]
fn utc_minute_agrees_with_chrono() {
    let day = 86_400_000i64;
    let min_ms = -96_465_292 * day;
    let max_ms = 95_026_236 * day + day - 1;
    for ms in [0, 59_999, 60_000, 3_599_999, -1, -60_000, 1_700_000_000_000, min_ms, min_ms - 1, max_ms, max_ms + 1, i64::MIN, i64::MAX] {
        assert_eq!(utc_minute(ms), chrono_minute(ms), "{}", ms);
    }
}

#[test]
fn first_full_hour_is_found() {
    let times = vec![3_540_000, 3_600_000, 3_660_000];
    assert_eq!(first_full_hour_index(&times), Some(1));
    assert_eq!(first_full_hour_index(&vec![60_000, 120_000]), None);
}

#[test]
fn blocks_cover_the_range() {
    assert_eq!(block_starts(60_000_001, 180_000_000), vec![60_000_000, 120_000_000, 180_000_000]);
    assert_eq!(block_starts(0, 59_999_999), vec![0]);
    assert_eq!(block_starts(120_000_000, 60_000_000), Vec::<i64>::new());
}

#[test]
fn initial_range_shows_last_two_hundred() {
    assert_eq!(initial_visible_range(1000), (800, 1000));
    assert_eq!(initial_visible_range(50), (0, 50));
    assert_eq!(initial_visible_range(0), (0, 0));
}

#[test]
fn visible_bounds_clamp() {
    assert_eq!(visible_bounds(-5, 10, 20), (0, 10));
    assert_eq!(visible_bounds(3, 30, 20), (3, 20));
    assert_eq!(first_index_in_window(&vec![7, 2, 5, 9], 3, 8), Some(7));
    assert_eq!(first_index_in_window(&vec![7, 2, 5, 9], 10, 12), None);
}

#[test]
fn zoom_in_and_out() {
    assert_eq!(zoom_visible_range(800, 1000, 1000, 10, true), (810, 990));
    assert_eq!(zoom_visible_range(800, 1000, 1000, 10, false), (790, 1000));
    assert_eq!(zoom_visible_range(0, 3, 3, 1, true), (1, 3));
    assert_eq!(zoom_visible_range(5, 6, 10, 1, true), (4, 6));
    assert_eq!(zoom_visible_range(0, 0, 10, 1, true), (0, 0));
    assert_eq!(zoom_visible_range(0, 5, 0, 1, false), (0, 5));
    assert_eq!(zoom_visible_range(0, 1, 1, 1, false), (0, 2));
}

#[test]
fn pan_keeps_width_and_bounds() {
    assert_eq!(pan_visible_range(100, 300, 1000, 50), (50, 250));
    assert_eq!(pan_visible_range(100, 300, 1000, 500), (0, 200));
    assert_eq!(pan_visible_range(700, 900, 1000, -500), (800, 1000));
}

#[test]
fn status_messages_are_bounded() {
    let mut messages: Vec<String> = Vec::new();
    for i in 0..10 {
        push_status_message(&mut messages, format!("m{}", i));
    }
    assert_eq!(messages.len(), 8);
    assert_eq!(messages[0], "m2");
    assert_eq!(messages[7], "m9");
}

#[test]
fn block_listing_fits() {
    assert!(block_starts_fit(0, 1_000_000_000));
    assert!(block_starts_fit(10, 5));
    assert!(!block_starts_fit(0, i64::MAX));
    assert!(block_starts_fit(i64::MIN, i64::MIN + 1));
}

#[test]
fn zoom_keeps_inside_and_nests() {
    for len in [2i64, 3, 10, 250] {
        for start in 0..len {
            for end in (start + 1)..=len {
                for step in [1i64, 2, 5, 40] {
                    let (s, e) = zoom_visible_range(start, end, len, step, true);
                    assert!(0 <= s && s + 2 <= e && e <= len, "{} {} {} {}", start, end, len, step);
                    if end - start >= 2 {
                        assert!(start <= s && e <= end);
                    }
                    let (s, e) = zoom_visible_range(start, end, len, step, false);
                    assert!(0 <= s && s + 2 <= e && e <= len);
                    assert!(s <= start && end <= e);
                }
            }
        }
    }
}

#[test]
fn utc_minute_reads_the_hour() {
    assert_eq!(utc_minute(1_700_000_040_000), Some(14));
    assert_eq!(utc_minute(i64::MAX), None);
}
