use n_ohlcv::aggregate::{
    aggregation_plan, aggregation_summary, has_source_data, hourly_groups, merge_members,
    needs_rebuild, should_store_first, stored_timestamp_or_zero, AggregationPlan,
};
use n_ohlcv::settings::AGGREGATION_VERSION;
use n_ohlcv::timeframe::Ohlc;

fn rec(t: i64, open: u64, high: u64, low: u64, close: u64) -> Ohlc {
    Ohlc { open_time: t, open, high, low, close }
}

#[test]
fn records_group_by_hour() {
    let items = vec![
        rec(7_260_000, 1, 5, 1, 2),
        rec(3_660_000, 10, 15, 9, 11),
        rec(7_200_000, 3, 4, 0, 3),
        rec(3_600_000, 12, 20, 8, 13),
        rec(0, 100, 101, 99, 100),
    ];
    let hours = vec![7_200_000, 3_600_000, 7_200_000, 3_600_000, 0];
    let groups = hourly_groups(&items, &hours);
    assert_eq!(groups.len(), 3);
    assert_eq!(groups[0].hour, 0);
    assert_eq!(groups[0].members, vec![4]);
    assert_eq!(groups[1].hour, 3_600_000);
    assert_eq!(groups[1].members, vec![1, 3]);
    assert_eq!(groups[1].prices, rec(3_600_000, 10, 20, 8, 13));
    assert_eq!(groups[2].members, vec![0, 2]);
    assert_eq!(groups[2].prices, rec(7_200_000, 1, 5, 0, 3));
    assert_eq!(aggregation_summary(&groups), (3_600_000, 7_200_000, 3));
    let none = hourly_groups(&Vec::new(), &Vec::new());
    assert_eq!(aggregation_summary(&none), (0, 0, 0));
}

#[test]
fn merge_members_stamps_hour() {
    let items = vec![rec(5, 1, 9, 1, 2), rec(6, 3, 4, 0, 7)];
    assert_eq!(merge_members(&items, &vec![1, 0], 99), rec(99, 3, 9, 0, 2));
}

#[test]
fn plans_of_a_run() {
    assert!(!has_source_data(0, 5));
    assert!(has_source_data(1, 5));
    assert_eq!(
        aggregation_plan(0, Some(3_600_000), 7_200_000),
        AggregationPlan::Range { start: 3_600_000, end: 7_200_000, query_end: 10_799_999 }
    );
    assert_eq!(aggregation_plan(0, Some(7_200_000), 3_600_000), AggregationPlan::NoCompleteHour);
    assert_eq!(aggregation_plan(7_200_000, None, 7_200_000), AggregationPlan::NoNewHour);
    assert_eq!(
        aggregation_plan(3_600_000, None, 7_200_000),
        AggregationPlan::Range { start: 7_200_000, end: 7_200_000, query_end: 10_799_999 }
    );
}

#[test]
fn metadata_decisions() {
    assert_eq!(stored_timestamp_or_zero(&None), 0);
    assert_eq!(stored_timestamp_or_zero(&Some(vec![1, 2])), 0);
    assert_eq!(stored_timestamp_or_zero(&Some(77i64.to_be_bytes().to_vec())), 77);
    assert!(needs_rebuild(0));
    assert!(!needs_rebuild(AGGREGATION_VERSION));
    assert!(should_store_first(0, 10));
    assert!(should_store_first(20, 10));
    assert!(!should_store_first(5, 10));
    assert!(!should_store_first(5, 0));
}
