use n_ohlcv::timeframe::{ChunkCheck, Ohlc, SyncRequest, Timeframe, BLOCK_SPAN_MS};

fn rec(t: i64, open: u64, high: u64, low: u64, close: u64) -> Ohlc {
    Ohlc { open_time: t, open, high, low, close }
}

#[test]
fn dbtimestamp_aligns_to_block() {
    assert_eq!(Timeframe::get_dbtimestamp(0), 0);
    assert_eq!(Timeframe::get_dbtimestamp(60_000_000), 60_000_000);
    assert_eq!(Timeframe::get_dbtimestamp(1_700_000_123_456), 1_699_980_000_000);
    assert_eq!(Timeframe::get_dbtimestamp(-1), 0);
    assert_eq!(Timeframe::get_dbtimestamp(-60_000_001), -60_000_000);
    let t = 1_712_345_678_901;
    let b = Timeframe::get_dbtimestamp(t);
    assert_eq!(Timeframe::get_dbtimestamp(b), b);
    assert!(b <= t && t < b + BLOCK_SPAN_MS);
}

#[test]
fn groups_of_three_leave_remainder() {
    let items: Vec<Ohlc> = (0..7).map(|i| rec(i * 60_000, 10 + i as u64, 20 + i as u64, 5 + i as u64, 11 + i as u64)).collect();
    let g = Timeframe::group_bars(&items, 3, false);
    assert_eq!(g.bars.len(), 2);
    assert_eq!(g.remainder_start, 6);
    assert_eq!((g.bars[0].start, g.bars[0].end), (0, 3));
    assert_eq!((g.bars[1].start, g.bars[1].end), (3, 6));
    assert_eq!(g.bars[0].prices, rec(0, 10, 22, 5, 13));
    assert_eq!(g.bars[1].prices, rec(180_000, 13, 25, 8, 16));
}

#[test]
fn last_partial_bar_is_closed() {
    let items: Vec<Ohlc> = (0..7).map(|i| rec(i, 1, 1 + i as u64, 1, i as u64)).collect();
    let g = Timeframe::group_bars(&items, 3, true);
    assert_eq!(g.bars.len(), 3);
    assert_eq!(g.remainder_start, 7);
    assert_eq!((g.bars[2].start, g.bars[2].end), (6, 7));
    assert_eq!(g.bars[2].prices, rec(6, 1, 7, 1, 6));
}

#[test]
fn non_positive_timeframes() {
    let items: Vec<Ohlc> = (0..4).map(|i| rec(i, 1, 2, 1, 1)).collect();
    let zero = Timeframe::group_bars(&items, 0, false);
    assert_eq!(zero.bars.len(), 4);
    assert_eq!(zero.remainder_start, 4);
    let negative = Timeframe::group_bars(&items, -1, false);
    assert_eq!(negative.bars.len(), 0);
    assert_eq!(negative.remainder_start, 0);
    let negative_last = Timeframe::group_bars(&items, -1, true);
    assert_eq!(negative_last.bars.len(), 1);
    assert_eq!((negative_last.bars[0].start, negative_last.bars[0].end), (0, 4));
    let empty: Vec<Ohlc> = Vec::new();
    let none = Timeframe::group_bars(&empty, 15, true);
    assert_eq!(none.bars.len(), 0);
    assert_eq!(none.remainder_start, 0);
}

#[test]
fn merge_range_takes_extremes() {
    let items = vec![rec(1, 5, 9, 4, 6), rec(2, 6, 12, 3, 7), rec(3, 7, 8, 6, 2)];
    assert_eq!(Timeframe::merge_range(&items, 0, 3), rec(1, 5, 12, 3, 2));
    assert_eq!(Timeframe::merge_range(&items, 2, 3), rec(3, 7, 8, 6, 2));
}

#[test]
fn short_chunk_is_recent() {
    let times: Vec<i64> = (0..999).map(|i| i * 60_000).collect();
    assert_eq!(Timeframe::check_chunk(&times), ChunkCheck::Recent);
}

#[test]
fn full_chunk_is_complete() {
    let times: Vec<i64> = (0..1000).map(|i| 1_700_000_000_000 + i * 60_000).collect();
    assert_eq!(Timeframe::check_chunk(&times), ChunkCheck::Complete { block_start: 1_700_000_000_000 });
}

#[test]
fn gap_is_reported() {
    let mut times: Vec<i64> = (0..1000).map(|i| i * 60_000).collect();
    times[500] += 1;
    assert_eq!(
        Timeframe::check_chunk(&times),
        ChunkCheck::Gap { index: 500, prev: 499 * 60_000, next: 500 * 60_000 + 1, diff: 60_001 }
    );
}

#[test]
fn sync_starts_and_steps() {
    assert_eq!(Timeframe::sync_start(0, 1_700_000_123_456), 1_699_980_000_000);
    assert_eq!(Timeframe::sync_start(1_699_980_000_000, 5), 1_700_040_000_000);
    assert_eq!(
        Timeframe::next_sync_request(100, 100, 200),
        Some(SyncRequest { from: 100, to: 60_000_100, pause: false })
    );
    assert_eq!(
        Timeframe::next_sync_request(60_000_100, 100, 70_000_000),
        Some(SyncRequest { from: 60_000_100, to: 120_000_100, pause: true })
    );
    assert_eq!(Timeframe::next_sync_request(200, 100, 200), None);
}

#[test]
fn recent_window_and_update_interval() {
    assert_eq!(Timeframe::recent_window(1_000_000), (700_000, 940_000));
    assert!(!Timeframe::update_due(299));
    assert!(Timeframe::update_due(300));
}

#[test]
fn spacing_checks() {
    let steady: Vec<i64> = (0..5).map(|i| i * 60_000).collect();
    assert!(Timeframe::chunk_spacing_fits(&steady));
    assert!(Timeframe::chunk_spacing_fits(&vec![i64::MIN, 0, i64::MAX]) == false);
    assert!(Timeframe::chunk_spacing_fits(&vec![0, 5, i64::MIN]));
    assert!(Timeframe::chunk_spacing_fits(&Vec::new()));
}

fn bar_prices_of(items: &[Ohlc], tf: i32) -> (Vec<Ohlc>, Vec<Ohlc>) {
    let v = items.to_vec();
    let g = Timeframe::group_bars(&v, tf, false);
    (g.bars.iter().map(|b| b.prices).collect(), v[g.remainder_start..].to_vec())
}

#[test]
fn chunks_group_like_the_whole() {
    let items: Vec<Ohlc> = (0..23).map(|i| rec(i * 60_000, 100 + (i * 7 % 11) as u64, 200 + (i * 5 % 13) as u64, 50 + (i * 3 % 7) as u64, 120 + i as u64)).collect();
    for tf in [1, 4, 5, 60] {
        for cut in [0, 3, 9, 17, 23] {
            let (whole_bars, whole_rest) = bar_prices_of(&items, tf);
            let (mut bars, rest) = bar_prices_of(&items[..cut], tf);
            let mut second = rest.clone();
            second.extend_from_slice(&items[cut..]);
            let (more_bars, more_rest) = bar_prices_of(&second, tf);
            bars.extend(more_bars);
            assert_eq!(bars, whole_bars, "tf {} cut {}", tf, cut);
            assert_eq!(more_rest, whole_rest, "tf {} cut {}", tf, cut);
        }
    }
}
