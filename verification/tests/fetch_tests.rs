use n_ohlcv::decimal::{i64_decimal, parse_i64_bytes, parse_u64_chars};
use n_ohlcv::fetch::{convert_price_to_u64, klines_url, PRICE_MULTIPLIER};

#[test]
fn price_with_two_decimals() {
    assert_eq!(convert_price_to_u64("97234.56"), 9_723_456);
}

#[test]
fn price_with_one_decimal_is_padded() {
    assert_eq!(convert_price_to_u64("97234.5"), 9_723_450);
}

#[test]
fn price_extra_decimals_are_cut() {
    assert_eq!(convert_price_to_u64("97234.56789"), 9_723_456);
    assert_eq!(convert_price_to_u64("0.00012345"), 0);
}

#[test]
fn price_without_point_is_scaled() {
    assert_eq!(convert_price_to_u64("100"), 10_000);
    assert_eq!(PRICE_MULTIPLIER, 2);
}

#[test]
fn price_edge_texts() {
    assert_eq!(convert_price_to_u64(""), 0);
    assert_eq!(convert_price_to_u64("abc"), 0);
    assert_eq!(convert_price_to_u64(".5"), 50);
    assert_eq!(convert_price_to_u64("7."), 700);
    assert_eq!(convert_price_to_u64("+1.5"), 150);
    assert_eq!(convert_price_to_u64("-1.5"), 0);
    assert_eq!(convert_price_to_u64("1.2.3"), 0);
    assert_eq!(convert_price_to_u64("1.23.4"), 123);
    assert_eq!(convert_price_to_u64("1 .5"), 0);
    assert_eq!(convert_price_to_u64("1.é5"), 0);
}

#[test]
fn price_at_the_top_of_u64() {
    assert_eq!(convert_price_to_u64("184467440737095516.15"), u64::MAX);
    assert_eq!(convert_price_to_u64("184467440737095516.16"), 0);
    assert_eq!(convert_price_to_u64("18446744073709551615"), 0);
}

#[test]
fn unsigned_parse_matches_std() {
    for text in ["0", "+7", "+", "-1", "", "12a", "18446744073709551615", "18446744073709551616", "007"] {
        let chars: Vec<char> = text.chars().collect();
        assert_eq!(parse_u64_chars(&chars), text.parse::<u64>().ok(), "{}", text);
    }
}

#[test]
fn signed_parse_matches_std() {
    for text in [
        "0", "-0", "+5", "-5", "+", "-", "", "9223372036854775807", "9223372036854775808",
        "-9223372036854775808", "-9223372036854775809", "1_000", "42x",
    ] {
        assert_eq!(parse_i64_bytes(text.as_bytes()), text.parse::<i64>().ok(), "{}", text);
    }
}

#[test]
fn decimal_text_matches_to_string() {
    for v in [0i64, 7, -7, 1_735_689_600_000, i64::MAX, i64::MIN] {
        assert_eq!(i64_decimal(v), v.to_string().into_bytes());
        assert_eq!(parse_i64_bytes(&i64_decimal(v)), Some(v));
    }
}

#[test]
fn url_with_and_without_window() {
    assert_eq!(
        klines_url("BTCUSDT", "1m", 1000, Some(1_700_000_000_000), Some(1_700_060_000_000)),
        "https://api.binance.com/api/v3/klines?symbol=BTCUSDT&interval=1m&limit=1000&startTime=1700000000000&endTime=1700060000000"
    );
    assert_eq!(
        klines_url("ETHUSDT", "1h", 300, None, Some(-5)),
        "https://api.binance.com/api/v3/klines?symbol=ETHUSDT&interval=1h&limit=300&endTime=-5"
    );
    assert_eq!(
        klines_url("X", "1m", 1, None, None),
        "https://api.binance.com/api/v3/klines?symbol=X&interval=1m&limit=1"
    );
}
