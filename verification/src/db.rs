//! The layout of the key-value store: keys of blocks and metadata, the byte
//! encoding of stored timestamps, and the reading of timestamps back out of keys.
use vstd::prelude::*;
use vstd::string::{StringExecFns, StringSliceAdditionalSpecFns};
use crate::decimal::{i64_decimal, i64_text, parse_i64_bytes, parse_i64_spec, lemma_i64_text_parses};

verus! {

/// The underscore that separates a symbol from what follows it in a key.
pub const KEY_SEPARATOR: u8 = 95;

/// Prefix of the keys of the blocks of `symbol`: the symbol and `_`.
pub open spec fn key_prefix_spec(symbol: Seq<u8>) -> Seq<u8> {
    symbol.push(KEY_SEPARATOR)
}

/// Key of the block of `symbol` that starts at `timestamp`: `{symbol}_{timestamp}`.
pub open spec fn block_key_spec(symbol: Seq<u8>, timestamp: i64) -> Seq<u8> {
    key_prefix_spec(symbol) + i64_text(timestamp)
}

/// `last_`
pub open spec fn last_tag() -> Seq<u8> {
    seq![108u8, 97, 115, 116, 95]
}

/// `first_`
pub open spec fn first_tag() -> Seq<u8> {
    seq![102u8, 105, 114, 115, 116, 95]
}

/// `version_`
pub open spec fn version_tag() -> Seq<u8> {
    seq![118u8, 101, 114, 115, 105, 111, 110, 95]
}

/// The timestamp stored under a block key: what follows the prefix, read as an
/// `i64`; `None` for a key that does not start with the prefix or whose rest is not
/// a number.
pub open spec fn key_timestamp_spec(key: Seq<u8>, prefix: Seq<u8>) -> Option<i64> {
    if prefix.len() <= key.len() && key.take(prefix.len() as int) == prefix {
        parse_i64_spec(key.skip(prefix.len() as int))
    } else {
        None
    }
}

/// Big-endian bytes of a timestamp, as `i64::to_be_bytes` gives them.
pub open spec fn be_bytes(v: i64) -> Seq<u8> {
    let u = v as u64;
    seq![
        (u >> 56u64) as u8,
        (u >> 48u64) as u8,
        (u >> 40u64) as u8,
        (u >> 32u64) as u8,
        (u >> 24u64) as u8,
        (u >> 16u64) as u8,
        (u >> 8u64) as u8,
        u as u8,
    ]
}

/// The `u64` whose big-endian bytes are the eight bytes `b0..b7`.
pub open spec fn be_u64(b0: u8, b1: u8, b2: u8, b3: u8, b4: u8, b5: u8, b6: u8, b7: u8) -> u64 {
    ((b0 as u64) << 56u64) | ((b1 as u64) << 48u64) | ((b2 as u64) << 40u64) | ((b3 as u64) << 32u64)
        | ((b4 as u64) << 24u64) | ((b5 as u64) << 16u64) | ((b6 as u64) << 8u64) | (b7 as u64)
}

/// The timestamp that eight big-endian bytes hold, as `i64::from_be_bytes` reads them.
pub open spec fn from_be_spec(s: Seq<u8>) -> i64 {
    be_u64(s[0], s[1], s[2], s[3], s[4], s[5], s[6], s[7]) as i64
}

/// What a stored timestamp value reads as: `None` unless it is eight bytes long.
pub open spec fn decode_timestamp_spec(s: Seq<u8>) -> Option<i64> {
    if s.len() == 8 { Some(from_be_spec(s)) } else { None }
}

fn push_bytes(out: &mut Vec<u8>, b: &[u8])
    ensures
        final(out)@ == old(out)@ + b@,
{
    let mut i: usize = 0;
    while i < b.len()
        invariant
            i <= b.len(),
            out@ == old(out)@ + b@.take(i as int),
        decreases b.len() - i,
    {
        out.push(b[i]);
        assert(b@.take(i + 1) =~= b@.take(i as int).push(b@[i as int]));
        i += 1;
    }
    assert(b@.take(b.len() as int) =~= b@);
}

/// Prefix shared by the block keys of `symbol`: `{symbol}_`.
pub fn key_prefix(symbol: &str) -> (r: Vec<u8>)
    ensures
        r@ == key_prefix_spec(symbol.spec_bytes()),
{
    let mut out: Vec<u8> = Vec::new();
    push_bytes(&mut out, symbol.as_bytes());
    out.push(KEY_SEPARATOR);
    assert(out@ =~= key_prefix_spec(symbol.spec_bytes()));
    out
}

/// Key of the block of `symbol` that starts at `timestamp`: `{symbol}_{timestamp}`.
pub fn block_key(symbol: &str, timestamp: i64) -> (r: Vec<u8>)
    ensures
        r@ == block_key_spec(symbol.spec_bytes(), timestamp),
{
    let mut out = key_prefix(symbol);
    let digits = i64_decimal(timestamp);
    push_bytes(&mut out, digits.as_slice());
    out
}

fn tagged_key(tag: &[u8], symbol: &str) -> (r: Vec<u8>)
    ensures
        r@ == tag@ + symbol.spec_bytes(),
{
    let mut out: Vec<u8> = Vec::new();
    push_bytes(&mut out, tag);
    push_bytes(&mut out, symbol.as_bytes());
    assert(out@ =~= tag@ + symbol.spec_bytes());
    out
}

/// Key under which the start of the last stored block of `symbol` is kept: `last_{symbol}`.
pub fn last_key(symbol: &str) -> (r: Vec<u8>)
    ensures
        r@ == last_tag() + symbol.spec_bytes(),
{
    let tag: [u8; 5] = [108, 97, 115, 116, 95];
    assert(tag@ =~= last_tag());
    tagged_key(&tag, symbol)
}

/// Key under which the first aggregated hour of `symbol` is kept: `first_{symbol}`.
pub fn first_key(symbol: &str) -> (r: Vec<u8>)
    ensures
        r@ == first_tag() + symbol.spec_bytes(),
{
    let tag: [u8; 6] = [102, 105, 114, 115, 116, 95];
    assert(tag@ =~= first_tag());
    tagged_key(&tag, symbol)
}

/// Key under which the aggregation version of `symbol` is kept: `version_{symbol}`.
pub fn version_key(symbol: &str) -> (r: Vec<u8>)
    ensures
        r@ == version_tag() + symbol.spec_bytes(),
{
    let tag: [u8; 8] = [118, 101, 114, 115, 105, 111, 110, 95];
    assert(tag@ =~= version_tag());
    tagged_key(&tag, symbol)
}

/// Name under which the hourly aggregates of `symbol` are stored: `{symbol}_aggr`.
pub fn aggr_symbol(symbol: &str) -> (r: String)
    ensures
        r@ == symbol@ + "_aggr"@,
{
    let mut s = String::from_str(symbol);
    s.append("_aggr");
    s
}

/// The timestamp a block key holds after `prefix`, read as `i64::from_str` reads
/// it; `None` when the key does not start with `prefix` or the rest is no number.
pub fn key_timestamp(key: &[u8], prefix: &[u8]) -> (r: Option<i64>)
    ensures
        r == key_timestamp_spec(key@, prefix@),
{
    let n = prefix.len();
    if n > key.len() {
        return None;
    }
    let mut i: usize = 0;
    while i < n
        invariant
            n == prefix.len(),
            n <= key.len(),
            i <= n,
            key@.take(i as int) == prefix@.take(i as int),
        decreases n - i,
    {
        if key[i] != prefix[i] {
            assert(key@.take(n as int)[i as int] != prefix@[i as int]);
            assert(key@.take(n as int) != prefix@);
            return None;
        }
        assert(key@.take(i + 1) =~= prefix@.take(i + 1));
        i += 1;
    }
    assert(prefix@.take(n as int) =~= prefix@);
    let mut rest: Vec<u8> = Vec::new();
    let mut j: usize = n;
    while j < key.len()
        invariant
            n <= j <= key.len(),
            rest@ == key@.subrange(n as int, j as int),
        decreases key.len() - j,
    {
        rest.push(key[j]);
        assert(rest@ =~= key@.subrange(n as int, j + 1));
        j += 1;
    }
    assert(rest@ =~= key@.skip(n as int));
    parse_i64_bytes(rest.as_slice())
}

/// A block key reads back the timestamp it was made with.
pub proof fn lemma_block_key_timestamp(symbol: Seq<u8>, timestamp: i64)
    ensures
        key_timestamp_spec(block_key_spec(symbol, timestamp), key_prefix_spec(symbol)) == Some(timestamp),
{
    let key = block_key_spec(symbol, timestamp);
    let prefix = key_prefix_spec(symbol);
    assert(key.take(prefix.len() as int) =~= prefix);
    assert(key.skip(prefix.len() as int) =~= i64_text(timestamp));
    lemma_i64_text_parses(timestamp);
}

/// The eight big-endian bytes of a timestamp, as `i64::to_be_bytes` writes them.
pub fn encode_timestamp(v: i64) -> (r: Vec<u8>)
    ensures
        r@ == be_bytes(v),
{
    let u = v as u64;
    let mut out: Vec<u8> = Vec::new();
    out.push((u >> 56u64) as u8);
    out.push((u >> 48u64) as u8);
    out.push((u >> 40u64) as u8);
    out.push((u >> 32u64) as u8);
    out.push((u >> 24u64) as u8);
    out.push((u >> 16u64) as u8);
    out.push((u >> 8u64) as u8);
    out.push(u as u8);
    assert(out@ =~= be_bytes(v));
    out
}

/// Reads a stored timestamp: eight big-endian bytes, as `i64::from_be_bytes` reads
/// them; `None` for a value of another length.
pub fn decode_timestamp(b: &[u8]) -> (r: Option<i64>)
    ensures
        r == decode_timestamp_spec(b@),
{
    if b.len() != 8 {
        return None;
    }
    let u: u64 = ((b[0] as u64) << 56u64) | ((b[1] as u64) << 48u64) | ((b[2] as u64) << 40u64)
        | ((b[3] as u64) << 32u64) | ((b[4] as u64) << 24u64) | ((b[5] as u64) << 16u64)
        | ((b[6] as u64) << 8u64) | (b[7] as u64);
    Some(u as i64)
}

/// Reading a stored timestamp gives back the timestamp that was written.
pub proof fn lemma_timestamp_roundtrip(v: i64)
    ensures
        decode_timestamp_spec(be_bytes(v)) == Some(v),
{
    let u = v as u64;
    let s = be_bytes(v);
    assert(be_u64(
        (u >> 56u64) as u8,
        (u >> 48u64) as u8,
        (u >> 40u64) as u8,
        (u >> 32u64) as u8,
        (u >> 24u64) as u8,
        (u >> 16u64) as u8,
        (u >> 8u64) as u8,
        u as u8,
    ) == u) by (bit_vector);
    assert(((v as u64) as i64) == v) by (bit_vector);
}

/// Positions of the timestamps that lie in `start..=end`, in their order.
pub fn positions_in_range(timestamps: &Vec<i64>, start: i64, end: i64) -> (r: Vec<usize>)
    ensures
        r@ == Seq::new(timestamps.len() as nat, |i: int| i as usize).filter(
            |i: usize| start <= timestamps@[i as int] <= end,
        ),
{
    let ghost all = Seq::new(timestamps.len() as nat, |i: int| i as usize);
    let ghost pred = |i: usize| start <= timestamps@[i as int] <= end;
    let mut out: Vec<usize> = Vec::new();
    let mut i: usize = 0;
    while i < timestamps.len()
        invariant
            i <= timestamps.len(),
            all == Seq::new(timestamps.len() as nat, |i: int| i as usize),
            pred == (|i: usize| start <= timestamps@[i as int] <= end),
            out@ == all.take(i as int).filter(pred),
        decreases timestamps.len() - i,
    {
        reveal_with_fuel(Seq::<_>::filter, 1);
        assert(all.take(i + 1).drop_last() =~= all.take(i as int));
        assert(all.take(i + 1).last() == i);
        if start <= timestamps[i] && timestamps[i] <= end {
            out.push(i);
        }
        i += 1;
    }
    assert(all.take(timestamps.len() as int) =~= all);
    out
}

/// The last `count` entries of `order` (all of them when there are fewer).
pub fn last_positions(order: &Vec<usize>, count: usize) -> (r: Vec<usize>)
    ensures
        r@ == order@.skip(if count < order.len() { order.len() - count } else { 0 }),
{
    let from: usize = if count < order.len() { order.len() - count } else { 0 };
    let mut out: Vec<usize> = Vec::new();
    let mut i = from;
    while i < order.len()
        invariant
            from <= i <= order.len(),
            out@ == order@.subrange(from as int, i as int),
        decreases order.len() - i,
    {
        out.push(order[i]);
        assert(out@ =~= order@.subrange(from as int, i + 1));
        i += 1;
    }
    assert(out@ =~= order@.skip(from as int));
    out
}

} // verus!
