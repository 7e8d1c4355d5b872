use n_ohlcv::db::{
    aggr_symbol, block_key, decode_timestamp, encode_timestamp, first_key, key_prefix, key_timestamp,
    last_key, last_positions, positions_in_range, version_key,
};
use n_ohlcv::sort::stable_order;

#[test]
fn keys_follow_the_schema() {
    assert_eq!(block_key("BTCUSDT", 1_700_000_000_000), b"BTCUSDT_1700000000000".to_vec());
    assert_eq!(block_key("BTCUSDT", -5), b"BTCUSDT_-5".to_vec());
    assert_eq!(key_prefix("BTCUSDT"), b"BTCUSDT_".to_vec());
    assert_eq!(last_key("BTCUSDT"), b"last_BTCUSDT".to_vec());
    let aggr = aggr_symbol("BTCUSDT");
    assert_eq!(aggr, "BTCUSDT_aggr");
    assert_eq!(first_key(&aggr), b"first_BTCUSDT_aggr".to_vec());
    assert_eq!(version_key(&aggr), b"version_BTCUSDT_aggr".to_vec());
    assert_eq!(block_key(&aggr, 3_600_000), b"BTCUSDT_aggr_3600000".to_vec());
}

#[test]
fn block_key_reads_back() {
    for t in [0i64, 1_700_000_000_000, -1, i64::MIN, i64::MAX] {
        assert_eq!(key_timestamp(&block_key("ETHUSDT", t), &key_prefix("ETHUSDT")), Some(t));
    }
}

#[test]
fn foreign_keys_have_no_timestamp() {
    let prefix = key_prefix("BTCUSDT");
    assert_eq!(key_timestamp(b"BTCUSDT_aggr_3600000", &prefix), None);
    assert_eq!(key_timestamp(b"ETHUSDT_5", &prefix), None);
    assert_eq!(key_timestamp(b"BTCUSDT_", &prefix), None);
    assert_eq!(key_timestamp(b"BTC", &prefix), None);
    assert_eq!(key_timestamp(b"BTCUSDT_+17", &prefix), Some(17));
}

#[test]
fn timestamps_encode_big_endian() {
    for t in [0i64, 1, -1, 1_700_000_000_000, i64::MIN, i64::MAX] {
        assert_eq!(encode_timestamp(t), t.to_be_bytes().to_vec());
        assert_eq!(decode_timestamp(&encode_timestamp(t)), Some(t));
    }
    assert_eq!(decode_timestamp(&[1, 2, 3]), None);
    assert_eq!(decode_timestamp(&[0, 0, 0, 0, 0, 0, 1, 0]), Some(256));
}

#[test]
fn range_selection_keeps_order() {
    let ts = vec![30, 10, 20, 40, 10];
    assert_eq!(positions_in_range(&ts, 10, 30), vec![0, 1, 2, 4]);
    assert_eq!(positions_in_range(&ts, 50, 60), Vec::<usize>::new());
}

#[test]
fn stable_order_keeps_ties_in_place() {
    let keys = vec![5, 3, 5, 1, 3];
    assert_eq!(stable_order(&keys), vec![3, 1, 4, 0, 2]);
    let empty: Vec<i64> = Vec::new();
    assert_eq!(stable_order(&empty), Vec::<usize>::new());
    let sorted = vec![1i64, 2, 3, 4];
    assert_eq!(stable_order(&sorted), vec![0, 1, 2, 3]);
}

#[test]
fn last_positions_take_the_tail() {
    let order = vec![4, 2, 0, 1, 3];
    assert_eq!(last_positions(&order, 2), vec![1, 3]);
    assert_eq!(last_positions(&order, 9), order);
    assert_eq!(last_positions(&order, 0), Vec::<usize>::new());
}
