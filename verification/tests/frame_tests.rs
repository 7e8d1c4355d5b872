use std::time::Duration;

use n_ohlcv::frame::{status_visible, FrameInfo as StatusFrameInfo};
use n_ohlcv::performance::FrameInfo;

#[test]
fn no_frames_no_average() {
    let info = FrameInfo::default();
    assert!(info.frame_total_fits());
    assert_eq!(info.get_average_frame_time(), None);
}

#[test]
fn average_is_the_mean() {
    let mut info = FrameInfo::default();
    info.record_frame_time(Duration::from_millis(10));
    info.record_frame_time(Duration::from_millis(20));
    info.record_frame_time(Duration::new(0, 1));
    assert_eq!(info.get_average_frame_time(), Some(Duration::new(0, 10_000_000)));
}

#[test]
fn window_keeps_the_last_sixty() {
    let mut info = FrameInfo::default();
    for ms in 1..=61u64 {
        info.record_frame_time(Duration::from_millis(ms));
    }
    // frames 2..=61 remain: their mean is 31.5 ms
    assert_eq!(info.get_average_frame_time(), Some(Duration::from_micros(31_500)));
    for _ in 0..60 {
        info.record_frame_time(Duration::from_millis(4));
    }
    assert_eq!(info.get_average_frame_time(), Some(Duration::from_millis(4)));
}

#[test]
fn huge_frames_do_not_fit() {
    let mut info = FrameInfo::default();
    info.record_frame_time(Duration::MAX);
    assert!(info.frame_total_fits());
    assert_eq!(info.get_average_frame_time(), Some(Duration::MAX));
    info.record_frame_time(Duration::from_secs(1));
    assert!(!info.frame_total_fits());
}

#[test]
fn status_shows_right_after_marking() {
    let mut info = StatusFrameInfo::default();
    assert!(info.should_display_status());
    info.mark_status_displayed();
    assert!(info.should_display_status());
    info.record_frame_time(Duration::from_millis(16));
    assert_eq!(info.get_average_frame_time(), Some(Duration::from_millis(16)));
}

#[test]
fn status_visibility_compares_lengths() {
    assert!(status_visible(Duration::from_secs(4), Duration::from_secs(5)));
    assert!(!status_visible(Duration::from_secs(5), Duration::from_secs(5)));
    assert!(!status_visible(Duration::from_nanos(1), Duration::ZERO));
}

#[test]
fn performance_marks_status() {
    let mut info = FrameInfo::default();
    info.record_frame_time(Duration::from_millis(8));
    info.mark_status_displayed();
    assert_eq!(info.get_average_frame_time(), Some(Duration::from_millis(8)));
}
