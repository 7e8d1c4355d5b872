//! Minute records: storage blocks, chunk consistency, grouping into bars of a
//! timeframe, and the windows that are fetched to bring the store up to date.
use vstd::prelude::*;

verus! {

/// Number of one-minute records that make up one storage block.
pub const BLOCK_SIZE: i64 = 1000;

/// Length in milliseconds of one storage block.
pub const BLOCK_SPAN_MS: i64 = 60_000_000;

/// Milliseconds in one minute: the spacing of consecutive records.
pub const MINUTE_MS: i64 = 60_000;

/// Milliseconds in one hour.
pub const HOUR_MS: i64 = 3_600_000;

/// Milliseconds in one day.
pub const DAY_MS: i64 = 86_400_000;

/// A chunk shorter than this is kept in memory instead of being stored.
pub const FULL_CHUNK_LEN: usize = 1000;

/// Seconds between two fetches of the update loop.
pub const UPDATE_INTERVAL: u64 = 300;

/// Remainder of `a` divided by `b` truncated toward zero, as Rust's `%` computes it.
pub open spec fn trunc_rem(a: int, b: int) -> int {
    if a >= 0 {
        a % b
    } else {
        -((-a) % b)
    }
}

/// Start of the storage block that holds `timestamp_ms`.
pub open spec fn dbtimestamp_spec(timestamp_ms: int) -> int {
    timestamp_ms - trunc_rem(timestamp_ms, BLOCK_SPAN_MS as int)
}

/// The integer part of a minute record: open time and prices in hundredths.
#[derive(Clone, Copy, Debug, PartialEq, Eq)]
pub struct Ohlc {
    pub open_time: i64,
    pub open: u64,
    pub high: u64,
    pub low: u64,
    pub close: u64,
}

/// Highest `high` of `s`; `0` for no records.
pub open spec fn max_high(s: Seq<Ohlc>) -> u64
    decreases s.len(),
{
    if s.len() == 0 {
        0
    } else {
        let m = max_high(s.drop_last());
        if s.last().high > m { s.last().high } else { m }
    }
}

/// Lowest `low` of `s`; `u64::MAX` for no records.
pub open spec fn min_low(s: Seq<Ohlc>) -> u64
    decreases s.len(),
{
    if s.len() == 0 {
        u64::MAX
    } else {
        let m = min_low(s.drop_last());
        if s.last().low < m { s.last().low } else { m }
    }
}

/// The record that stands for the consecutive records `s`: time and open of the
/// first, close of the last, highest high and lowest low.
pub open spec fn merge_spec(s: Seq<Ohlc>) -> Ohlc {
    Ohlc {
        open_time: s[0].open_time,
        open: s[0].open,
        high: max_high(s),
        low: min_low(s),
        close: s.last().close,
    }
}

/// Number of records per bar for a timeframe given in minutes: a timeframe that is
/// not positive as a `usize` (zero) still closes a bar after every record.
pub open spec fn group_width(timeframe_minutes: i32) -> int {
    let k = timeframe_minutes as usize;
    if k == 0 { 1 } else { k as int }
}

/// Number of bars made of `n` records: full bars, and the partial last one when
/// `dolastbar` asks for it.
pub open spec fn bar_count(n: int, w: int, dolastbar: bool) -> int {
    if dolastbar && n % w != 0 { n / w + 1 } else { n / w }
}

/// Index of the first record left over for the next call.
pub open spec fn remainder_start_spec(n: int, w: int, dolastbar: bool) -> int {
    if dolastbar { n } else { (n / w) * w }
}

pub open spec fn group_end(i: int, w: int, n: int) -> int {
    if (i + 1) * w < n { (i + 1) * w } else { n }
}

/// One bar: the records `start..end` and what they merge to.
#[derive(Clone, Copy, Debug)]
pub struct BarGroup {
    pub start: usize,
    pub end: usize,
    pub prices: Ohlc,
}

/// The result of grouping records into bars.
#[derive(Debug)]
pub struct Grouping {
    pub bars: Vec<BarGroup>,
    /// Records from this index on make up an unfinished bar.
    pub remainder_start: usize,
}

/// What a chunk of fetched minute records is fit for.
#[derive(Clone, Copy, Debug, PartialEq, Eq)]
pub enum ChunkCheck {
    /// Fewer than a block's worth of records: they are the recent, in-memory data.
    Recent,
    /// Records `index - 1` and `index` are not one minute apart.
    Gap { index: usize, prev: i64, next: i64, diff: i64 },
    /// A full, gapless chunk, stored as the block that starts at `block_start`.
    Complete { block_start: i64 },
}

/// All records before `i` are one minute apart from their predecessor.
pub open spec fn steady_until(t: Seq<i64>, i: int) -> bool {
    forall|j: int| 1 <= j < i ==> #[trigger] t[j] - t[j - 1] == MINUTE_MS
}

/// The spacing of each record with its predecessor fits in an `i64` up to the
/// first spacing that is not one minute.
pub open spec fn spacing_fits(t: Seq<i64>) -> bool {
    forall|i: int|
        1 <= i < t.len() && steady_until(t, i) ==> i64::MIN <= #[trigger] (t[i] - t[i - 1])
            <= i64::MAX
}

/// A window of minute records to fetch, and whether to pause before fetching it.
#[derive(Clone, Copy, Debug, PartialEq, Eq)]
pub struct SyncRequest {
    pub from: i64,
    pub to: i64,
    pub pause: bool,
}

/// A storage block start is where its timestamp's block begins: a multiple of the
/// block span, at most one span before a non-negative timestamp (and at most one
/// span after a negative one), and aligning it again changes nothing.
pub proof fn lemma_dbtimestamp_aligns(t: int)
    ensures
        dbtimestamp_spec(t) % (BLOCK_SPAN_MS as int) == 0,
        t >= 0 ==> dbtimestamp_spec(t) <= t < dbtimestamp_spec(t) + BLOCK_SPAN_MS,
        t < 0 ==> dbtimestamp_spec(t) - BLOCK_SPAN_MS < t <= dbtimestamp_spec(t),
        dbtimestamp_spec(dbtimestamp_spec(t)) == dbtimestamp_spec(t),
{
    let k = BLOCK_SPAN_MS as int;
    let d = dbtimestamp_spec(t);
    if t >= 0 {
        assert(d == (t / k) * k) by (nonlinear_arith)
            requires
                d == t - t % k,
                k > 0,
        ;
    } else {
        assert(d == -(((-t) / k) * k)) by (nonlinear_arith)
            requires
                d == t + (-t) % k,
                k > 0,
        ;
    }
    if t >= 0 {
        vstd::arithmetic::div_mod::lemma_mod_multiples_basic(t / k, k);
    } else {
        vstd::arithmetic::div_mod::lemma_mod_multiples_basic(-((-t) / k), k);
        assert(d == (-((-t) / k)) * k) by (nonlinear_arith)
            requires
                d == -(((-t) / k) * k),
        ;
    }
    if t < 0 {
        let q = (-t) / k;
        vstd::arithmetic::div_mod::lemma_mod_multiples_basic(q, k);
        assert(-d == q * k);
        assert((-d) % k == 0);
    }
}

/// Bars made of consecutive records follow each other without gap or overlap:
/// each bar but the last ends where the next starts, the first starts at record 0,
/// the last ends where the left-over records start (at the end when `dolastbar`),
/// and fewer than a bar's width of records are left over.
pub proof fn lemma_bars_partition(n: int, w: int, dolastbar: bool)
    requires
        n >= 0,
        w >= 1,
    ensures
        forall|i: int| 0 <= i < bar_count(n, w, dolastbar) - 1 ==> #[trigger] group_end(i, w, n) == (i + 1) * w,
        bar_count(n, w, dolastbar) > 0 ==> group_end(bar_count(n, w, dolastbar) - 1, w, n)
            == remainder_start_spec(n, w, dolastbar),
        0 <= n - remainder_start_spec(n, w, dolastbar) < w,
        dolastbar ==> remainder_start_spec(n, w, dolastbar) == n,
{
    let c = bar_count(n, w, dolastbar);
    let full = n / w;
    assert(0 <= n - full * w < w) by (nonlinear_arith)
        requires
            n >= 0,
            w >= 1,
            full == n / w,
    ;
    assert forall|i: int| 0 <= i < c - 1 implies #[trigger] group_end(i, w, n) == (i + 1) * w by {
        assert((i + 1) * w <= full * w) by (nonlinear_arith)
            requires
                i + 1 <= full,
                w >= 1,
        ;
        if (i + 1) * w == n {
            assert(i + 1 == full) by (nonlinear_arith)
                requires
                    (i + 1) * w == n,
                    full == n / w,
                    w >= 1,
            ;
        }
    }
    if c > 0 {
        if dolastbar && n % w != 0 {
            assert(full * w < n) by (nonlinear_arith)
                requires
                    full == n / w,
                    n % w != 0,
                    w >= 1,
                    n >= 0,
            ;
            assert(n < (full + 1) * w) by (nonlinear_arith)
                requires
                    0 <= n - full * w < w,
            ;
        } else {
            assert(full * w <= n);
            assert(((c - 1) + 1) * w == full * w);
            if dolastbar {
                assert(full * w == n) by (nonlinear_arith)
                    requires
                        full == n / w,
                        n % w == 0,
                        w >= 1,
                ;
            }
        }
    }
}

/// The highest high of records is one of their highs and no high exceeds it; the
/// lowest low is one of their lows and no low is under it.
pub proof fn lemma_extremes_of_records(s: Seq<Ohlc>)
    requires
        s.len() > 0,
    ensures
        forall|j: int| 0 <= j < s.len() ==> #[trigger] s[j].high <= max_high(s) && min_low(s) <= s[j].low,
        exists|j: int| 0 <= j < s.len() && #[trigger] s[j].high == max_high(s),
        exists|j: int| 0 <= j < s.len() && #[trigger] s[j].low == min_low(s),
    decreases s.len(),
{
    let p = s.drop_last();
    let k = s.len() - 1;
    if s.len() == 1 {
        assert(p.len() == 0);
        assert(s[0].high == max_high(s));
        assert(s[0].low == min_low(s));
    } else {
        lemma_extremes_of_records(p);
        assert forall|j: int| 0 <= j < s.len() implies #[trigger] s[j].high <= max_high(s) && min_low(s)
            <= s[j].low by {
            if j < k {
                assert(s[j] == p[j]);
            }
        }
        let jh = choose|j: int| 0 <= j < p.len() && #[trigger] p[j].high == max_high(p);
        let jl = choose|j: int| 0 <= j < p.len() && #[trigger] p[j].low == min_low(p);
        assert(s[jh] == p[jh] && s[jl] == p[jl]);
        if s.last().high > max_high(p) {
            assert(s[k].high == max_high(s));
        } else {
            assert(s[jh].high == max_high(s));
        }
        if s.last().low < min_low(p) {
            assert(s[k].low == min_low(s));
        } else {
            assert(s[jl].low == min_low(s));
        }
    }
}

/// A bar opens at the time and price of its first record and closes at the price of
/// its last; its high and low are the extremes of its records.
pub proof fn lemma_bar_of_records(s: Seq<Ohlc>)
    requires
        s.len() > 0,
    ensures
        merge_spec(s).open_time == s[0].open_time,
        merge_spec(s).open == s[0].open,
        merge_spec(s).close == s[s.len() - 1].close,
        forall|j: int| 0 <= j < s.len() ==> #[trigger] s[j].high <= merge_spec(s).high && merge_spec(s).low <= s[j].low,
        exists|j: int| 0 <= j < s.len() && #[trigger] s[j].high == merge_spec(s).high,
        exists|j: int| 0 <= j < s.len() && #[trigger] s[j].low == merge_spec(s).low,
{
    lemma_extremes_of_records(s);
}

/// For a positive timeframe of `tf` minutes, a bar is `tf` records: bar `i` of `n`
/// records covers records `i * tf` up to `(i + 1) * tf`, or up to `n` for a closed
/// partial last bar. Without `dolastbar` there are as many bars as whole multiples
/// of `tf` fit in `n`, and the records after them are left over; with it, one more
/// bar takes a partial rest and nothing is left over.
pub proof fn lemma_bars_are_timeframe_long(n: int, tf: i32, dolastbar: bool)
    requires
        n >= 0,
        tf > 0,
    ensures
        group_width(tf) == tf as int,
        !dolastbar ==> bar_count(n, group_width(tf), dolastbar) * tf <= n
            < (bar_count(n, group_width(tf), dolastbar) + 1) * tf,
        !dolastbar ==> remainder_start_spec(n, group_width(tf), dolastbar) == bar_count(
            n,
            group_width(tf),
            dolastbar,
        ) * tf,
        dolastbar ==> (bar_count(n, group_width(tf), dolastbar) - 1) * tf < n <= bar_count(
            n,
            group_width(tf),
            dolastbar,
        ) * tf,
        dolastbar ==> remainder_start_spec(n, group_width(tf), dolastbar) == n,
        forall|i: int|
            0 <= i < bar_count(n, group_width(tf), dolastbar) ==> #[trigger] group_end(i, group_width(tf), n)
                == (if (i + 1) * tf <= n { (i + 1) * tf } else { n }) && i * tf < group_end(
                i,
                group_width(tf),
                n,
            ),
{
    let w = tf as int;
    assert(group_width(tf) == w);
    let q = n / w;
    assert(q * w <= n < (q + 1) * w) by (nonlinear_arith)
        requires
            n >= 0,
            w >= 1,
            q == n / w,
    ;
    if dolastbar {
        if n % w != 0 {
            assert(q * w < n) by (nonlinear_arith)
                requires
                    q * w <= n,
                    q == n / w,
                    n % w != 0,
                    w >= 1,
            ;
            assert(((q + 1) - 1) * w < n <= (q + 1) * w);
        } else {
            assert(q * w == n) by (nonlinear_arith)
                requires
                    q == n / w,
                    n % w == 0,
                    w >= 1,
            ;
            assert((q - 1) * w < n) by (nonlinear_arith)
                requires
                    q * w == n,
                    w >= 1,
            ;
        }
    }
    let c = bar_count(n, w, dolastbar);
    assert(dolastbar ==> (c - 1) * w < n <= c * w);
    assert forall|i: int| 0 <= i < c implies #[trigger] group_end(i, w, n) == (if (i + 1) * w <= n {
        (i + 1) * w
    } else {
        n
    }) && i * w < group_end(i, w, n) by {
        assert(i * w < (i + 1) * w && i * w <= (c - 1) * w) by (nonlinear_arith)
            requires
                0 <= i < c,
                w >= 1,
        ;
        assert((c - 1) * w < n) by (nonlinear_arith)
            requires
                c >= 1,
                dolastbar ==> (c - 1) * w < n,
                !dolastbar ==> c * w <= n,
                w >= 1,
        ;
    }
}

/// The prices of the bars that `items` group into, `w` records to a bar.
pub open spec fn bar_prices(items: Seq<Ohlc>, w: int, dolastbar: bool) -> Seq<Ohlc> {
    let n = items.len() as int;
    Seq::new(
        bar_count(n, w, dolastbar) as nat,
        |i: int| merge_spec(items.subrange(i * w, group_end(i, w, n))),
    )
}

/// The records that grouping `items` leaves over for the next call.
pub open spec fn leftover(items: Seq<Ohlc>, w: int, dolastbar: bool) -> Seq<Ohlc> {
    items.subrange(remainder_start_spec(items.len() as int, w, dolastbar), items.len() as int)
}

/// Feeding records in two chunks, carrying what the first leaves over into the
/// second, gives the same bars, and leaves over the same records, as feeding them
/// all at once (when a partial last bar is not closed).
pub proof fn lemma_grouping_in_chunks(carried: Seq<Ohlc>, first: Seq<Ohlc>, second: Seq<Ohlc>, w: int)
    requires
        w >= 1,
    ensures
        bar_prices(carried + first + second, w, false) == bar_prices(carried + first, w, false)
            + bar_prices(leftover(carried + first, w, false) + second, w, false),
        leftover(carried + first + second, w, false) == leftover(
            leftover(carried + first, w, false) + second,
            w,
            false,
        ),
{
    let u = carried + first;
    let all = u + second;
    let n1 = u.len() as int;
    let q1 = n1 / w;
    let m = q1 * w;
    let v = leftover(u, w, false) + second;
    let nv = v.len() as int;
    let qv = nv / w;
    let n = all.len() as int;
    assert(0 <= m <= n1) by (nonlinear_arith)
        requires
            n1 >= 0,
            w >= 1,
            q1 == n1 / w,
            m == q1 * w,
    ;
    assert(n == m + nv);
    assert(n / w == q1 + qv) by {
        vstd::arithmetic::div_mod::lemma_hoist_over_denominator(nv, q1, w as nat);
        assert(q1 * w == m);
    }
    assert(qv * w <= nv) by (nonlinear_arith)
        requires
            nv >= 0,
            w >= 1,
            qv == nv / w,
    ;
    assert((n / w) * w == m + qv * w) by (nonlinear_arith)
        requires
            n / w == q1 + qv,
            m == q1 * w,
    ;
    // Bars.
    let left = bar_prices(u, w, false);
    let right = bar_prices(v, w, false);
    let whole = bar_prices(all, w, false);
    assert(whole.len() == left.len() + right.len());
    assert forall|i: int| 0 <= i < whole.len() implies #[trigger] whole[i] == (left + right)[i] by {
        assert((i + 1) * w <= (n / w) * w && i * w + w == (i + 1) * w) by (nonlinear_arith)
            requires
                0 <= i < n / w,
                w >= 1,
        ;
        assert(group_end(i, w, n) == (i + 1) * w);
        if i < q1 {
            assert((i + 1) * w <= m) by (nonlinear_arith)
                requires
                    0 <= i < q1,
                    m == q1 * w,
                    w >= 1,
            ;
            assert(group_end(i, w, n1) == (i + 1) * w);
            assert(all.subrange(i * w, (i + 1) * w) =~= u.subrange(i * w, (i + 1) * w));
        } else {
            let j = i - q1;
            assert(i * w == m + j * w && (i + 1) * w == m + (j + 1) * w && (j + 1) * w <= qv * w)
                by (nonlinear_arith)
                requires
                    j == i - q1,
                    0 <= j < qv,
                    m == q1 * w,
                    w >= 1,
            ;
            assert(group_end(j, w, nv) == (j + 1) * w);
            assert(all.subrange(i * w, (i + 1) * w) =~= v.subrange(j * w, (j + 1) * w));
        }
    }
    assert(whole =~= left + right);
    // Left-over records.
    assert(all.subrange((n / w) * w, n) =~= v.subrange(qv * w, nv));
}

pub struct Timeframe;

impl Timeframe {
    /// Aligns a millisecond timestamp to the start of its storage block.
    pub fn get_dbtimestamp(timestamp_ms: i64) -> (r: i64)
        ensures
            r == dbtimestamp_spec(timestamp_ms as int),
    {
        timestamp_ms - timestamp_ms % BLOCK_SPAN_MS
    }

    /// Merges the records `start..end` of `items` into one.
    pub fn merge_range(items: &Vec<Ohlc>, start: usize, end: usize) -> (r: Ohlc)
        requires
            start < end <= items.len(),
        ensures
            r == merge_spec(items@.subrange(start as int, end as int)),
    {
        let ghost s = items@.subrange(start as int, end as int);
        let mut high: u64 = 0;
        let mut low: u64 = u64::MAX;
        let mut i = start;
        while i < end
            invariant
                start <= i <= end <= items.len(),
                s == items@.subrange(start as int, end as int),
                high == max_high(items@.subrange(start as int, i as int)),
                low == min_low(items@.subrange(start as int, i as int)),
            decreases end - i,
        {
            let ghost pre = items@.subrange(start as int, i as int);
            assert(items@.subrange(start as int, i + 1).drop_last() =~= pre);
            if items[i].high > high {
                high = items[i].high;
            }
            if items[i].low < low {
                low = items[i].low;
            }
            i += 1;
        }
        assert(items@.subrange(start as int, end as int) =~= s);
        Ohlc {
            open_time: items[start].open_time,
            open: items[start].open,
            high,
            low,
            close: items[end - 1].close,
        }
    }

    /// Groups consecutive minute records into bars of `timeframe_minutes` records.
    /// A trailing partial bar is closed too when `dolastbar` is set; otherwise its
    /// records are left over, from `remainder_start` on.
    pub fn group_bars(items: &Vec<Ohlc>, timeframe_minutes: i32, dolastbar: bool) -> (r: Grouping)
        ensures
            ({
                let n = items.len() as int;
                let w = group_width(timeframe_minutes);
                &&& r.bars.len() == bar_count(n, w, dolastbar)
                &&& r.remainder_start == remainder_start_spec(n, w, dolastbar)
                &&& r.bars@.map_values(|g: BarGroup| g.prices) == bar_prices(items@, w, dolastbar)
                &&& forall|i: int|
                    0 <= i < r.bars.len() ==> {
                        &&& (#[trigger] r.bars[i]).start == i * w
                        &&& r.bars[i].end == group_end(i, w, n)
                        &&& r.bars[i].prices == merge_spec(
                            items@.subrange(i * w, group_end(i, w, n)),
                        )
                    }
            }),
    {
        let n = items.len();
        let k = timeframe_minutes as usize;
        let w: usize = if k == 0 { 1 } else { k };
        let ghost wi = group_width(timeframe_minutes);
        assert(w as int == wi);
        let mut bars: Vec<BarGroup> = Vec::new();
        let mut start: usize = 0;
        let mut full: usize = 0;
        // Full bars.
        while n - start >= w
            invariant
                w >= 1,
                w as int == wi,
                n == items.len(),
                start == full * w,
                start <= n,
                bars.len() == full,
                forall|i: int|
                    0 <= i < full ==> {
                        &&& (#[trigger] bars@[i]).start == i * w
                        &&& bars@[i].end == group_end(i, w as int, n as int)
                        &&& bars@[i].prices == merge_spec(
                            items@.subrange(i * w, group_end(i, w as int, n as int)),
                        )
                    },
            decreases n - start,
        {
            let end = start + w;
            assert(group_end(full as int, w as int, n as int) == end) by (nonlinear_arith)
                requires
                    start == full * w,
                    end == start + w,
                    end <= n,
            ;
            let prices = Self::merge_range(items, start, end);
            bars.push(BarGroup { start, end, prices });
            proof {
                assert(start + w == (full + 1) * w && full < end) by (nonlinear_arith)
                    requires
                        start == full * w,
                        end == start + w,
                        w >= 1,
                ;
            }
            start = end;
            full += 1;
        }
        proof {
            assert(full == n / w && start == (n / w) * w) by (nonlinear_arith)
                requires
                    start == full * w,
                    start <= n,
                    n - start < w,
                    w >= 1,
            ;
        }
        let remainder_start: usize;
        if dolastbar {
            if start < n {
                assert(n % w != 0) by (nonlinear_arith)
                    requires
                        start == (n / w) * w,
                        start < n,
                        w >= 1,
                ;
                assert(group_end(full as int, w as int, n as int) == n) by (nonlinear_arith)
                    requires
                        start == full * w,
                        n - start < w,
                ;
                let prices = Self::merge_range(items, start, n);
                bars.push(BarGroup { start, end: n, prices });
            } else {
                assert(n % w == 0) by (nonlinear_arith)
                    requires
                        start == (n / w) * w,
                        start == n,
                        w >= 1,
                ;
            }
            remainder_start = n;
        } else {
            remainder_start = start;
        }
        Grouping { bars, remainder_start }
    }

    /// Checks a fetched chunk of minute records by their open times: fewer than a
    /// block's worth are recent data; otherwise every record must follow its
    /// predecessor by exactly one minute, and the chunk is stored as the block that
    /// starts at its first open time.
    pub fn check_chunk(open_times: &Vec<i64>) -> (r: ChunkCheck)
        requires
            open_times.len() >= FULL_CHUNK_LEN ==> spacing_fits(open_times@),
        ensures
            open_times.len() < FULL_CHUNK_LEN ==> r == ChunkCheck::Recent,
            open_times.len() >= FULL_CHUNK_LEN ==> match r {
                ChunkCheck::Recent => false,
                ChunkCheck::Gap { index, prev, next, diff } => {
                    &&& 1 <= index < open_times.len()
                    &&& steady_until(open_times@, index as int)
                    &&& prev == open_times@[index - 1]
                    &&& next == open_times@[index as int]
                    &&& diff == next - prev
                    &&& diff != MINUTE_MS
                },
                ChunkCheck::Complete { block_start } => {
                    &&& steady_until(open_times@, open_times.len() as int)
                    &&& block_start == open_times@[0]
                },
            },
    {
        let n = open_times.len();
        if n < FULL_CHUNK_LEN {
            return ChunkCheck::Recent;
        }
        let mut i: usize = 1;
        while i < n
            invariant
                1 <= i <= n,
                n == open_times.len(),
                n >= FULL_CHUNK_LEN,
                spacing_fits(open_times@),
                steady_until(open_times@, i as int),
            decreases n - i,
        {
            let prev = open_times[i - 1];
            let next = open_times[i];
            assert(i64::MIN <= open_times@[i as int] - open_times@[i - 1] <= i64::MAX);
            let diff = next - prev;
            if diff != MINUTE_MS {
                return ChunkCheck::Gap { index: i, prev, next, diff };
            }
            i += 1;
        }
        ChunkCheck::Complete { block_start: open_times[0] }
    }

    /// Whether the spacing of each record with its predecessor fits in an `i64` up to
    /// the first spacing that is not one minute, as checking a chunk needs.
    pub fn chunk_spacing_fits(open_times: &Vec<i64>) -> (r: bool)
        ensures
            r == spacing_fits(open_times@),
    {
        let n = open_times.len();
        let mut i: usize = 1;
        if n == 0 {
            return true;
        }
        while i < n
            invariant
                1 <= i <= n,
                n == open_times.len(),
                steady_until(open_times@, i as int),
                forall|j: int| 1 <= j < i ==> i64::MIN <= #[trigger] (open_times@[j] - open_times@[j - 1]) <= i64::MAX,
            decreases n - i,
        {
            let diff = (open_times[i] as i128) - (open_times[i - 1] as i128);
            if diff < i64::MIN as i128 || diff > i64::MAX as i128 {
                assert(steady_until(open_times@, i as int));
                assert(!(i64::MIN <= open_times@[i as int] - open_times@[i - 1] <= i64::MAX));
                return false;
            }
            if diff != MINUTE_MS as i128 {
                assert forall|j: int|
                    1 <= j < n && steady_until(open_times@, j) implies i64::MIN <= #[trigger] (open_times@[j] - open_times@[j - 1]) <= i64::MAX by {
                    if j > i {
                        assert(!(open_times@[i as int] - open_times@[i - 1] == MINUTE_MS));
                    }
                }
                return true;
            }
            i += 1;
        }
        true
    }

    /// Where synchronisation starts: at the block of `start_time` when nothing is
    /// stored yet (`last_timestamp == 0`), else one block after the last stored one.
    pub fn sync_start(last_timestamp: i64, start_time: i64) -> (r: i64)
        requires
            last_timestamp != 0 ==> last_timestamp <= i64::MAX - BLOCK_SPAN_MS,
        ensures
            last_timestamp == 0 ==> r == dbtimestamp_spec(start_time as int),
            last_timestamp != 0 ==> r == last_timestamp + BLOCK_SPAN_MS,
    {
        if last_timestamp == 0 {
            Self::get_dbtimestamp(start_time)
        } else {
            last_timestamp + BLOCK_SPAN_MS
        }
    }

    /// The next window to fetch while synchronising from `current` up to `end_time`:
    /// none once `current` has reached `end_time`; a pause comes before every
    /// request but one that starts exactly at `start_time`.
    pub fn next_sync_request(current: i64, start_time: i64, end_time: i64) -> (r: Option<SyncRequest>)
        requires
            current < end_time ==> current <= i64::MAX - BLOCK_SPAN_MS,
        ensures
            current >= end_time ==> r is None,
            current < end_time ==> r == Some(SyncRequest {
                from: current,
                to: (current + BLOCK_SPAN_MS) as i64,
                pause: current != start_time,
            }),
    {
        if current < end_time {
            Some(SyncRequest { from: current, to: current + BLOCK_SPAN_MS, pause: current != start_time })
        } else {
            None
        }
    }

    /// The window the update loop fetches at time `now_ms`: from five minutes ago to
    /// one minute ago.
    pub fn recent_window(now_ms: i64) -> (r: (i64, i64))
        requires
            now_ms >= i64::MIN + 5 * MINUTE_MS,
        ensures
            r.0 == now_ms - 5 * MINUTE_MS,
            r.1 == now_ms - MINUTE_MS,
    {
        (now_ms - 5 * MINUTE_MS, now_ms - MINUTE_MS)
    }

    /// Whether the update loop fetches again after `elapsed_secs` seconds.
    pub fn update_due(elapsed_secs: u64) -> (r: bool)
        ensures
            r == (elapsed_secs >= UPDATE_INTERVAL),
    {
        elapsed_secs >= UPDATE_INTERVAL
    }
}

} // verus!
