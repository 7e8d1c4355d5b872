//! Decimal text of integers: the value of a digit string, parsing as
//! `u64::from_str` / `i64::from_str` accept it, and formatting of `i64`.
use vstd::prelude::*;

verus! {

/// An ASCII decimal digit, as a character.
pub open spec fn is_digit_char(c: char) -> bool {
    '0' <= c && c <= '9'
}

/// An ASCII decimal digit, as a byte.
pub open spec fn is_digit_byte(b: u8) -> bool {
    48 <= b && b <= 57
}

/// Value of a string of decimal digit characters (most significant first).
pub open spec fn chars_value(s: Seq<char>) -> nat
    decreases s.len(),
{
    if s.len() == 0 {
        0
    } else {
        chars_value(s.drop_last()) * 10 + ((s.last() as int) - 48) as nat
    }
}

/// Value of a string of decimal digit bytes (most significant first).
pub open spec fn bytes_value(s: Seq<u8>) -> nat
    decreases s.len(),
{
    if s.len() == 0 {
        0
    } else {
        bytes_value(s.drop_last()) * 10 + ((s.last() as int) - 48) as nat
    }
}

pub open spec fn all_digit_chars(s: Seq<char>) -> bool {
    forall|i: int| 0 <= i < s.len() ==> is_digit_char(#[trigger] s[i])
}

pub open spec fn all_digit_bytes(s: Seq<u8>) -> bool {
    forall|i: int| 0 <= i < s.len() ==> is_digit_byte(#[trigger] s[i])
}

/// The text `u64::from_str` reads a number from: the whole string, or what
/// follows a single leading `+`.
pub open spec fn unsigned_body(s: Seq<char>) -> Seq<char> {
    if s.len() > 0 && s[0] == '+' {
        s.drop_first()
    } else {
        s
    }
}

/// What `u64::from_str` gives for `s`: `None` where it returns an error.
pub open spec fn parse_u64_spec(s: Seq<char>) -> Option<u64> {
    let body = unsigned_body(s);
    if body.len() == 0 || !all_digit_chars(body) || chars_value(body) > u64::MAX {
        None
    } else {
        Some(chars_value(body) as u64)
    }
}

pub open spec fn is_sign_byte(b: u8) -> bool {
    b == 43 || b == 45
}

/// What `i64::from_str` gives for the bytes `s`: `None` where it returns an error.
pub open spec fn parse_i64_spec(s: Seq<u8>) -> Option<i64> {
    if s.len() == 0 {
        None
    } else {
        let body = if is_sign_byte(s[0]) { s.drop_first() } else { s };
        let v = bytes_value(body);
        if body.len() == 0 || !all_digit_bytes(body) {
            None
        } else if s[0] == 45 {
            if v <= 0x8000_0000_0000_0000 { Some((-v) as i64) } else { None }
        } else {
            if v <= i64::MAX { Some(v as i64) } else { None }
        }
    }
}

/// Decimal digits of a natural number, most significant first, without leading zeros
/// (`0` is the single digit `0`).
pub open spec fn nat_digits(n: nat) -> Seq<u8>
    decreases n,
{
    if n < 10 {
        seq![(n + 48) as u8]
    } else {
        nat_digits(n / 10).push(((n % 10) + 48) as u8)
    }
}

/// The text `i64::to_string` gives: a `-` before the digits of a negative number.
pub open spec fn i64_text(v: i64) -> Seq<u8> {
    if v < 0 {
        seq![45u8] + nat_digits((-(v as int)) as nat)
    } else {
        nat_digits(v as nat)
    }
}

proof fn lemma_chars_value_grows(s: Seq<char>, c: char)
    requires
        is_digit_char(c),
    ensures
        chars_value(s.push(c)) == chars_value(s) * 10 + ((c as int) - 48),
        chars_value(s.push(c)) >= chars_value(s),
{
    assert(s.push(c).drop_last() =~= s);
}

proof fn lemma_bytes_value_push(s: Seq<u8>, b: u8)
    requires
        is_digit_byte(b),
    ensures
        bytes_value(s.push(b)) == bytes_value(s) * 10 + ((b as int) - 48),
        bytes_value(s.push(b)) >= bytes_value(s),
{
    assert(s.push(b).drop_last() =~= s);
}

/// Parses `s` as `u64::from_str` does.
pub fn parse_u64_chars(s: &Vec<char>) -> (r: Option<u64>)
    ensures
        r == parse_u64_spec(s@),
{
    let n = s.len();
    if n == 0 {
        return None;
    }
    let mut start: usize = 0;
    if s[0] == '+' {
        if n == 1 {
            assert(unsigned_body(s@).len() == 0);
            return None;
        }
        start = 1;
    }
    let ghost body = unsigned_body(s@);
    assert(body =~= s@.subrange(start as int, n as int));
    let mut acc: u64 = 0;
    let mut overflow = false;
    let mut i: usize = start;
    while i < n
        invariant
            start <= i <= n,
            n == s.len(),
            body == s@.subrange(start as int, n as int),
            body == unsigned_body(s@),
            all_digit_chars(body.take(i - start)),
            overflow ==> chars_value(body.take(i - start)) > u64::MAX,
            !overflow ==> acc == chars_value(body.take(i - start)),
        decreases n - i,
    {
        let c = s[i];
        let ghost pre = body.take(i - start);
        assert(body.take(i + 1 - start) =~= pre.push(c));
        if !('0' <= c && c <= '9') {
            assert(!is_digit_char(body[i - start]));
            assert(!all_digit_chars(body));
            return None;
        }
        proof {
            lemma_chars_value_grows(pre, c);
        }
        let d: u64 = (c as u32 - 48) as u64;
        if !overflow {
            if acc > (u64::MAX - d) / 10 {
                assert(acc * 10 + d > u64::MAX) by (nonlinear_arith)
                    requires
                        acc > (u64::MAX - d) / 10,
                        d <= 9,
                ;
                overflow = true;
            } else {
                assert(acc * 10 + d <= u64::MAX) by (nonlinear_arith)
                    requires
                        acc <= (u64::MAX - d) / 10,
                        d <= 9,
                ;
                acc = acc * 10 + d;
            }
        }
        i += 1;
    }
    assert(body.take(n - start) =~= body);
    if overflow {
        None
    } else {
        Some(acc)
    }
}

/// Parses the bytes `s` as `i64::from_str` does.
pub fn parse_i64_bytes(s: &[u8]) -> (r: Option<i64>)
    ensures
        r == parse_i64_spec(s@),
{
    let n = s.len();
    if n == 0 {
        return None;
    }
    let first = s[0];
    let signed = first == 43 || first == 45;
    if signed && n == 1 {
        assert(s@.drop_first().len() == 0);
        return None;
    }
    let start: usize = if signed { 1 } else { 0 };
    let negative = first == 45;
    let ghost body = if is_sign_byte(s@[0]) { s@.drop_first() } else { s@ };
    assert(body =~= s@.subrange(start as int, n as int));
    // The magnitude is collected in a u64: i64::MIN has magnitude 2^63.
    let limit: u64 = if negative { 0x8000_0000_0000_0000 } else { 0x7fff_ffff_ffff_ffff };
    let mut acc: u64 = 0;
    let mut overflow = false;
    let mut i: usize = start;
    while i < n
        invariant
            start <= i <= n,
            n == s.len(),
            body == s@.subrange(start as int, n as int),
            body == (if is_sign_byte(s@[0]) { s@.drop_first() } else { s@ }),
            all_digit_bytes(body.take(i - start)),
            limit >= 0x7fff_ffff_ffff_ffff,
            negative == (s@[0] == 45),
            negative ==> limit == 0x8000_0000_0000_0000,
            !negative ==> limit == 0x7fff_ffff_ffff_ffff,
            overflow ==> bytes_value(body.take(i - start)) > limit,
            !overflow ==> acc == bytes_value(body.take(i - start)) && acc <= limit,
        decreases n - i,
    {
        let c = s[i];
        let ghost pre = body.take(i - start);
        assert(body.take(i + 1 - start) =~= pre.push(c));
        if !(48 <= c && c <= 57) {
            assert(!is_digit_byte(body[i - start]));
            assert(!all_digit_bytes(body));
            return None;
        }
        proof {
            lemma_bytes_value_push(pre, c);
        }
        let d: u64 = (c - 48) as u64;
        if !overflow {
            if acc > (limit - d) / 10 {
                assert(acc * 10 + d > limit) by (nonlinear_arith)
                    requires
                        acc > (limit - d) / 10,
                        d <= 9,
                ;
                overflow = true;
            } else {
                assert(acc * 10 + d <= limit) by (nonlinear_arith)
                    requires
                        acc <= (limit - d) / 10,
                        d <= 9,
                        d <= limit,
                ;
                acc = acc * 10 + d;
            }
        }
        i += 1;
    }
    assert(body.take(n - start) =~= body);
    if overflow {
        None
    } else if negative {
        if acc == 0x8000_0000_0000_0000 {
            Some(i64::MIN)
        } else {
            let m = acc as i64;
            Some(-m)
        }
    } else {
        Some(acc as i64)
    }
}

/// Appends the decimal digits of `n` to `out`.
fn push_nat_digits(out: &mut Vec<u8>, n: u64)
    ensures
        final(out)@ == old(out)@ + nat_digits(n as nat),
    decreases n,
{
    if n >= 10 {
        push_nat_digits(out, n / 10);
    }
    out.push((n % 10) as u8 + 48);
    proof {
        if n < 10 {
            assert(old(out)@.push(((n % 10) + 48) as u8) =~= old(out)@ + nat_digits(n as nat));
        } else {
            assert(old(out)@ + nat_digits((n / 10) as nat) + seq![((n % 10) + 48) as u8]
                =~= old(out)@ + nat_digits(n as nat));
        }
    }
}

/// The decimal text of `v`, as `i64::to_string` writes it.
pub fn i64_decimal(v: i64) -> (r: Vec<u8>)
    ensures
        r@ == i64_text(v),
{
    let mut out: Vec<u8> = Vec::new();
    if v < 0 {
        out.push(45);
        let m: u64 = if v == i64::MIN {
            0x8000_0000_0000_0000
        } else {
            (-v) as u64
        };
        push_nat_digits(&mut out, m);
        assert(out@ =~= i64_text(v));
    } else {
        push_nat_digits(&mut out, v as u64);
        assert(out@ =~= i64_text(v));
    }
    out
}

proof fn lemma_nat_digits(n: nat)
    ensures
        nat_digits(n).len() > 0,
        all_digit_bytes(nat_digits(n)),
        bytes_value(nat_digits(n)) == n,
        nat_digits(n)[0] != 45 && nat_digits(n)[0] != 43,
    decreases n,
{
    if n >= 10 {
        lemma_nat_digits(n / 10);
        let d = ((n % 10) + 48) as u8;
        let s = nat_digits(n / 10);
        assert(s.push(d).drop_last() =~= s);
        assert(nat_digits(n) == s.push(d));
        assert(bytes_value(s.push(d)) == bytes_value(s) * 10 + ((d as int) - 48));
        assert((n / 10) * 10 + n % 10 == n);
        assert forall|i: int| 0 <= i < s.push(d).len() implies is_digit_byte(#[trigger] s.push(d)[i]) by {
            if i < s.len() {
                assert(is_digit_byte(s[i]));
            }
        }
    } else {
        let t = seq![(n + 48) as u8];
        assert(t.drop_last() =~= Seq::<u8>::empty());
        assert(bytes_value(t.drop_last()) == 0);
        assert(t.last() == (n + 48) as u8);
        assert(bytes_value(t) == n);
    }
}

/// Every byte of the text of a number is a digit or the minus sign.
pub proof fn lemma_i64_text_chars(v: i64)
    ensures
        forall|j: int| 0 <= j < i64_text(v).len() ==> #[trigger] i64_text(v)[j] == 45 || (48 <= i64_text(v)[j] && i64_text(v)[j] <= 57),
{
    if v < 0 {
        let m = (-(v as int)) as nat;
        lemma_nat_digits(m);
        let t = i64_text(v);
        assert forall|j: int| 0 <= j < t.len() implies #[trigger] t[j] == 45 || (48 <= t[j] && t[j] <= 57) by {
            if j > 0 {
                assert(t[j] == nat_digits(m)[j - 1]);
                assert(is_digit_byte(nat_digits(m)[j - 1]));
            }
        }
    } else {
        lemma_nat_digits(v as nat);
        assert forall|j: int| 0 <= j < i64_text(v).len() implies #[trigger] i64_text(v)[j] == 45 || (48 <= i64_text(v)[j] && i64_text(v)[j] <= 57) by {
            assert(is_digit_byte(nat_digits(v as nat)[j]));
        }
    }
}

/// Reading back the text of a number gives the number: the decimal text that
/// `i64_decimal` writes parses, as `i64::from_str` reads it, to the same value.
pub proof fn lemma_i64_text_parses(v: i64)
    ensures
        parse_i64_spec(i64_text(v)) == Some(v),
{
    if v < 0 {
        let m = (-(v as int)) as nat;
        lemma_nat_digits(m);
        let t = i64_text(v);
        assert(t.drop_first() =~= nat_digits(m));
    } else {
        lemma_nat_digits(v as nat);
    }
}

} // verus!
