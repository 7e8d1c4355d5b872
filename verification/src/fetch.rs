//! Prices as the exchange sends them (decimal text) turned into integer
//! hundredths.
use vstd::prelude::*;
use vstd::string::StringExecFns;
use crate::decimal::{
    all_digit_chars, chars_value, i64_decimal, i64_text, is_digit_char, parse_u64_chars, parse_u64_spec,
    unsigned_body,
};

verus! {

/// Number of decimal places kept from a price: prices are stored as integer
/// multiples of `10^-PRICE_MULTIPLIER`.
pub const PRICE_MULTIPLIER: u32 = 2;

/// `d` is the position of the first `.` in `s`.
pub open spec fn is_first_dot(s: Seq<char>, d: int) -> bool {
    &&& 0 <= d < s.len()
    &&& s[d] == '.'
    &&& forall|j: int| 0 <= j < d ==> s[j] != '.'
}

/// The digit string that is read as the scaled price: the integer part followed by
/// exactly `PRICE_MULTIPLIER` fraction digits, cut or padded with `0`.
pub open spec fn scaled_price_text(s: Seq<char>) -> Seq<char> {
    let k = PRICE_MULTIPLIER as int;
    if exists|d: int| is_first_dot(s, d) {
        let d = choose|d: int| is_first_dot(s, d);
        let frac = s.skip(d + 1);
        let kept = if frac.len() < k { frac } else { frac.take(k) };
        s.take(d) + kept + Seq::new((k - kept.len()) as nat, |_i: int| '0')
    } else {
        s + Seq::new(k as nat, |_i: int| '0')
    }
}

/// The integer price for a decimal text: `0` where the text does not read as a `u64`.
pub open spec fn price_value(s: Seq<char>) -> u64 {
    match parse_u64_spec(scaled_price_text(s)) {
        Some(v) => v,
        None => 0,
    }
}

/// Converts a decimal price such as `"97234.5"` into integer hundredths (`9723450`).
/// Fraction digits beyond the second are dropped; text that does not read as a
/// number gives `0`.
pub fn convert_price_to_u64(price_str: &str) -> (r: u64)
    ensures
        r == price_value(price_str@),
{
    let ghost s = price_str@;
    let n = price_str.unicode_len();
    let mut chars: Vec<char> = Vec::new();
    let mut dot: Option<usize> = None;
    let mut i: usize = 0;
    while i < n
        invariant
            n == s.len(),
            s == price_str@,
            i <= n,
            chars@ == s.take(i as int),
            dot matches Some(d) ==> is_first_dot(s, d as int),
            dot is None ==> forall|j: int| 0 <= j < i ==> s[j] != '.',
        decreases n - i,
    {
        let c = price_str.get_char(i);
        if c == '.' && dot.is_none() {
            dot = Some(i);
        }
        chars.push(c);
        assert(chars@ =~= s.take(i + 1));
        i += 1;
    }
    assert(chars@ =~= s);
    let k: usize = PRICE_MULTIPLIER as usize;
    let mut text: Vec<char> = Vec::new();
    match dot {
        Some(d) => {
            let mut j: usize = 0;
            while j < d
                invariant
                    j <= d < n,
                    chars@ == s,
                    n == s.len(),
                    text@ == s.take(j as int),
                decreases d - j,
            {
                text.push(chars[j]);
                assert(text@ =~= s.take(j + 1));
                j += 1;
            }
            let ghost frac = s.skip(d + 1);
            let ghost kept = if frac.len() < k { frac } else { frac.take(k as int) };
            let mut taken: usize = 0;
            let mut p: usize = d + 1;
            while taken < k && p < n
                invariant
                    d < n,
                    n == s.len(),
                    chars@ == s,
                    k == 2,
                    frac == s.skip(d + 1),
                    p == d + 1 + taken,
                    taken <= k,
                    p <= n,
                    text@ == s.take(d as int) + frac.take(taken as int),
                decreases k - taken,
            {
                text.push(chars[p]);
                assert(text@ =~= s.take(d as int) + frac.take(taken + 1));
                taken += 1;
                p += 1;
            }
            assert(frac.take(taken as int) =~= kept);
            let ghost base = text@;
            while taken < k
                invariant
                    taken <= k,
                    k == 2,
                    base == s.take(d as int) + kept,
                    text@ == base + Seq::new((taken - kept.len()) as nat, |_i: int| '0'),
                    kept.len() <= taken,
                decreases k - taken,
            {
                text.push('0');
                assert(text@ =~= base + Seq::new((taken + 1 - kept.len()) as nat, |_i: int| '0'));
                taken += 1;
            }
            assert(kept.len() <= 2);
            assert(is_first_dot(s, d as int));
            let ghost dd = choose|e: int| is_first_dot(s, e);
            assert(dd == d as int) by {
                if dd < d {
                    assert(s[dd] != '.');
                }
                if dd > d {
                    assert(s[d as int] != '.');
                }
            }
            assert(text@ =~= scaled_price_text(s));
        },
        None => {
            text = chars;
            text.push('0');
            text.push('0');
            assert(!exists|e: int| is_first_dot(s, e));
            assert(text@ =~= scaled_price_text(s));
        },
    }
    match parse_u64_chars(&text) {
        Some(v) => v,
        None => 0,
    }
}

proof fn lemma_chars_value_two_more(a: Seq<char>, c1: char, c2: char)
    requires
        is_digit_char(c1),
        is_digit_char(c2),
    ensures
        chars_value(a + seq![c1, c2]) == chars_value(a) * 100 + ((c1 as int) - 48) * 10 + ((c2 as int) - 48),
{
    let t = a + seq![c1, c2];
    assert(t.drop_last() =~= a.push(c1));
    assert(a.push(c1).drop_last() =~= a);
    assert(t.last() == c2);
    let v = chars_value(a);
    assert(chars_value(a.push(c1)) == v * 10 + ((c1 as int) - 48));
    assert(chars_value(t) == chars_value(a.push(c1)) * 10 + ((c2 as int) - 48));
    assert((v * 10 + ((c1 as int) - 48)) * 10 == v * 100 + ((c1 as int) - 48) * 10) by (nonlinear_arith);
}

/// A price written with digits before the point and at least two after it reads as
/// its value in hundredths: the integer part times 100 plus the first two fraction
/// digits (further digits are dropped).
pub proof fn lemma_price_in_hundredths(int_part: Seq<char>, frac: Seq<char>)
    requires
        int_part.len() > 0,
        all_digit_chars(int_part),
        frac.len() >= 2,
        is_digit_char(frac[0]),
        is_digit_char(frac[1]),
        chars_value(int_part) * 100 + ((frac[0] as int) - 48) * 10 + ((frac[1] as int) - 48) <= u64::MAX,
    ensures
        price_value(int_part + seq!['.'] + frac) == chars_value(int_part) * 100 + ((frac[0] as int) - 48) * 10
            + ((frac[1] as int) - 48),
{
    let s = int_part + seq!['.'] + frac;
    let d = int_part.len() as int;
    assert(is_first_dot(s, d)) by {
        assert forall|j: int| 0 <= j < d implies s[j] != '.' by {
            assert(s[j] == int_part[j]);
            assert(is_digit_char(int_part[j]));
        }
    }
    let dd = choose|e: int| is_first_dot(s, e);
    assert(dd == d) by {
        if dd < d {
            assert(s[dd] == int_part[dd]);
            assert(is_digit_char(int_part[dd]));
        }
        if dd > d {
            assert(s[d] == '.');
        }
    }
    assert(s.take(d) =~= int_part);
    assert(s.skip(d + 1) =~= frac);
    let text = int_part + seq![frac[0], frac[1]];
    assert(frac.take(2) =~= seq![frac[0], frac[1]]);
    assert(scaled_price_text(s) =~= text);
    lemma_chars_value_two_more(int_part, frac[0], frac[1]);
    assert(unsigned_body(text) =~= text) by {
        assert(is_digit_char(text[0]));
    }
    assert(all_digit_chars(text)) by {
        assert forall|i: int| 0 <= i < text.len() implies is_digit_char(#[trigger] text[i]) by {
            if i < int_part.len() {
                assert(text[i] == int_part[i]);
            }
        }
    }
}

/// The characters of the decimal text of `v`.
pub open spec fn i64_chars(v: i64) -> Seq<char> {
    i64_text(v).map_values(|b: u8| b as char)
}

/// The one-character text of an ASCII digit or minus sign.
fn ascii_text(b: u8) -> (r: &'static str)
    requires
        b == 45 || (48 <= b && b <= 57),
    ensures
        r@ == seq![b as char],
{
    proof {
        reveal_strlit("-");
        reveal_strlit("0");
        reveal_strlit("1");
        reveal_strlit("2");
        reveal_strlit("3");
        reveal_strlit("4");
        reveal_strlit("5");
        reveal_strlit("6");
        reveal_strlit("7");
        reveal_strlit("8");
        reveal_strlit("9");
    }
    match b {
        45 => "-",
        48 => "0",
        49 => "1",
        50 => "2",
        51 => "3",
        52 => "4",
        53 => "5",
        54 => "6",
        55 => "7",
        56 => "8",
        _ => "9",
    }
}

/// Appends the decimal text of `v` to `out`.
fn append_i64(out: &mut String, v: i64)
    ensures
        final(out)@ == old(out)@ + i64_chars(v),
{
    let digits = i64_decimal(v);
    proof {
        crate::decimal::lemma_i64_text_chars(v);
    }
    let mut i: usize = 0;
    while i < digits.len()
        invariant
            i <= digits.len(),
            digits@ == i64_text(v),
            forall|j: int| 0 <= j < digits@.len() ==> #[trigger] digits@[j] == 45 || (48 <= digits@[j] && digits@[j] <= 57),
            out@ == old(out)@ + i64_chars(v).take(i as int),
        decreases digits.len() - i,
    {
        out.append(ascii_text(digits[i]));
        assert(i64_chars(v).take(i + 1) =~= i64_chars(v).take(i as int).push(digits@[i as int] as char));
        i += 1;
    }
    assert(i64_chars(v).take(digits.len() as int) =~= i64_chars(v));
}

/// Address of the exchange's candle endpoint.
pub open spec fn klines_base() -> Seq<char> {
    "https://api.binance.com/api/v3/klines?symbol="@
}

/// The request address for `limit` candles of `symbol` at `interval`, from
/// `start_time` and up to `end_time` where they are given.
pub open spec fn klines_url_spec(
    symbol: Seq<char>,
    interval: Seq<char>,
    limit: i64,
    start_time: Option<i64>,
    end_time: Option<i64>,
) -> Seq<char> {
    let base = klines_base() + symbol + "&interval="@ + interval + "&limit="@ + i64_chars(limit);
    let with_start = match start_time {
        Some(t) => base + "&startTime="@ + i64_chars(t),
        None => base,
    };
    match end_time {
        Some(t) => with_start + "&endTime="@ + i64_chars(t),
        None => with_start,
    }
}

/// Builds the request address of the candle endpoint.
pub fn klines_url(symbol: &str, interval: &str, limit: i64, start_time: Option<i64>, end_time: Option<i64>) -> (r: String)
    ensures
        r@ == klines_url_spec(symbol@, interval@, limit, start_time, end_time),
{
    let mut url = String::from_str("https://api.binance.com/api/v3/klines?symbol=");
    url.append(symbol);
    url.append("&interval=");
    url.append(interval);
    url.append("&limit=");
    append_i64(&mut url, limit);
    if let Some(t) = start_time {
        url.append("&startTime=");
        append_i64(&mut url, t);
    }
    if let Some(t) = end_time {
        url.append("&endTime=");
        append_i64(&mut url, t);
    }
    url
}

} // verus!
