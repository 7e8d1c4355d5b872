//! Hourly aggregation of minute records: grouping by hour, the record that stands
//! for each hour, and the decisions around a run of the aggregation.
use vstd::prelude::*;
use crate::db::{decode_timestamp, decode_timestamp_spec};
use crate::settings::AGGREGATION_VERSION;
use crate::sort::{comes_before, is_stable_order, stable_order};
use crate::timeframe::{max_high, merge_spec, min_low, Ohlc, HOUR_MS};

verus! {

/// The records of `items` at the positions `members`, in that order.
pub open spec fn member_records(items: Seq<Ohlc>, members: Seq<usize>) -> Seq<Ohlc> {
    members.map_values(|m: usize| items[m as int])
}

/// The record that stands for one hour: the merge of its minute records, stamped
/// with the start of the hour.
pub open spec fn hour_record(items: Seq<Ohlc>, members: Seq<usize>, hour: i64) -> Ohlc {
    let m = merge_spec(member_records(items, members));
    Ohlc { open_time: hour, ..m }
}

/// The minute records of one hour.
#[derive(Debug)]
pub struct HourGroup {
    /// Start of the hour.
    pub hour: i64,
    /// Positions of its records, in their original order.
    pub members: Vec<usize>,
    /// The record that stands for the hour.
    pub prices: Ohlc,
}

/// Record `i` belongs to one of `groups`.
pub open spec fn in_some_group(groups: Seq<HourGroup>, i: usize) -> bool {
    exists|g: int| 0 <= g < groups.len() && (#[trigger] groups[g]).members@.contains(i)
}

/// `groups` splits the records with hour keys `hours` by hour, as a map from hour
/// to the list of records, filled in record order, holds them.
pub open spec fn is_hour_grouping(items: Seq<Ohlc>, hours: Seq<i64>, groups: Seq<HourGroup>) -> bool {
    &&& forall|g: int, h: int| 0 <= g < h < groups.len() ==> #[trigger] groups[g].hour < #[trigger] groups[h].hour
    &&& forall|g: int|
        0 <= g < groups.len() ==> {
            let ms = (#[trigger] groups[g]).members@;
            &&& ms.len() > 0
            &&& forall|p: int| 0 <= p < ms.len() ==> #[trigger] ms[p] < hours.len()
            &&& forall|p: int| 0 <= p < ms.len() ==> hours[#[trigger] ms[p] as int] == groups[g].hour
            &&& forall|p: int, q: int| 0 <= p < q < ms.len() ==> #[trigger] ms[p] < #[trigger] ms[q]
            &&& groups[g].prices == hour_record(items, ms, groups[g].hour)
        }
    &&& forall|i: int| 0 <= i < hours.len() ==> #[trigger] in_some_group(groups, i as usize)
}

/// Every record lands in exactly one hour: the group that holds it is the one of
/// its hour, and no other group holds it.
pub proof fn lemma_hour_grouping_unique(items: Seq<Ohlc>, hours: Seq<i64>, groups: Seq<HourGroup>, i: int)
    requires
        is_hour_grouping(items, hours, groups),
        0 <= i < hours.len(),
        hours.len() <= usize::MAX,
    ensures
        exists|g: int| 0 <= g < groups.len() && (#[trigger] groups[g]).members@.contains(i as usize) && groups[g].hour == hours[i],
        forall|g1: int, g2: int|
            0 <= g1 < groups.len() && 0 <= g2 < groups.len() && (#[trigger] groups[g1]).members@.contains(i as usize)
                && (#[trigger] groups[g2]).members@.contains(i as usize) ==> g1 == g2,
{
    assert(in_some_group(groups, i as usize));
    let g = choose|g: int| 0 <= g < groups.len() && (#[trigger] groups[g]).members@.contains(i as usize);
    let ms = groups[g].members@;
    let p = choose|p: int| 0 <= p < ms.len() && ms[p] == i as usize;
    assert(hours[ms[p] as int] == groups[g].hour);
    assert((i as usize) as int == i);
    assert(groups[g].hour == hours[i]);
    assert(0 <= g < groups.len() && groups[g].members@.contains(i as usize) && groups[g].hour == hours[i]);
    assert forall|g1: int, g2: int|
        0 <= g1 < groups.len() && 0 <= g2 < groups.len() && (#[trigger] groups[g1]).members@.contains(i as usize)
            && (#[trigger] groups[g2]).members@.contains(i as usize) implies g1 == g2 by {
        let m1 = groups[g1].members@;
        let m2 = groups[g2].members@;
        let p1 = choose|p: int| 0 <= p < m1.len() && m1[p] == i as usize;
        let p2 = choose|p: int| 0 <= p < m2.len() && m2[p] == i as usize;
        assert(hours[m1[p1] as int] == groups[g1].hour);
        assert(hours[m2[p2] as int] == groups[g2].hour);
        if g1 < g2 {
            assert(groups[g1].hour < groups[g2].hour);
        } else if g2 < g1 {
            assert(groups[g2].hour < groups[g1].hour);
        }
    }
}

/// Merges the records at `members` and stamps the result with `hour`.
pub fn merge_members(items: &Vec<Ohlc>, members: &Vec<usize>, hour: i64) -> (r: Ohlc)
    requires
        members.len() > 0,
        forall|p: int| 0 <= p < members.len() ==> #[trigger] members@[p] < items.len(),
    ensures
        r == hour_record(items@, members@, hour),
{
    let ghost recs = member_records(items@, members@);
    let mut high: u64 = 0;
    let mut low: u64 = u64::MAX;
    let mut i: usize = 0;
    while i < members.len()
        invariant
            i <= members.len(),
            recs == member_records(items@, members@),
            forall|p: int| 0 <= p < members.len() ==> #[trigger] members@[p] < items.len(),
            high == max_high(recs.take(i as int)),
            low == min_low(recs.take(i as int)),
        decreases members.len() - i,
    {
        let rec = items[members[i]];
        assert(recs.take(i + 1).drop_last() =~= recs.take(i as int));
        assert(recs[i as int] == rec);
        if rec.high > high {
            high = rec.high;
        }
        if rec.low < low {
            low = rec.low;
        }
        i += 1;
    }
    assert(recs.take(members.len() as int) =~= recs);
    let first = items[members[0]];
    let last = items[members[members.len() - 1]];
    Ohlc { open_time: hour, open: first.open, high, low, close: last.close }
}

/// Groups minute records by the start of their hour (`hours[i]` for record `i`):
/// one group per hour, hours ascending, each group's records in their original order.
pub fn hourly_groups(items: &Vec<Ohlc>, hours: &Vec<i64>) -> (r: Vec<HourGroup>)
    requires
        items.len() == hours.len(),
    ensures
        is_hour_grouping(items@, hours@, r@),
{
    let n = hours.len();
    let order = stable_order(hours);
    let mut groups: Vec<HourGroup> = Vec::new();
    let mut p: usize = 0;
    while p < n
        invariant
            n == hours.len(),
            n == items.len(),
            p <= n,
            is_stable_order(hours@, order@),
            forall|g: int, h: int| 0 <= g < h < groups@.len() ==> #[trigger] groups@[g].hour < #[trigger] groups@[h].hour,
            groups@.len() > 0 && p < n ==> groups@.last().hour < hours@[order@[p as int] as int],
            forall|g: int|
                0 <= g < groups@.len() ==> {
                    let ms = (#[trigger] groups@[g]).members@;
                    &&& ms.len() > 0
                    &&& forall|a: int| 0 <= a < ms.len() ==> #[trigger] ms[a] < hours.len()
                    &&& forall|a: int| 0 <= a < ms.len() ==> hours@[#[trigger] ms[a] as int] == groups@[g].hour
                    &&& forall|a: int, b: int| 0 <= a < b < ms.len() ==> #[trigger] ms[a] < #[trigger] ms[b]
                    &&& groups@[g].prices == hour_record(items@, ms, groups@[g].hour)
                },
            forall|q: int| 0 <= q < p ==> #[trigger] in_some_group(groups@, order@[q]),
        decreases n - p,
    {
        let h = hours[order[p]];
        let mut members: Vec<usize> = Vec::new();
        let mut q: usize = p;
        while q < n && hours[order[q]] == h
            invariant
                n == hours.len(),
                p < n,
                p <= q <= n,
                h == hours@[order@[p as int] as int],
                is_stable_order(hours@, order@),
                members@ == order@.subrange(p as int, q as int),
                forall|a: int| p <= a < q ==> hours@[#[trigger] order@[a] as int] == h,
            decreases n - q,
        {
            members.push(order[q]);
            assert(members@ =~= order@.subrange(p as int, q + 1));
            q += 1;
        }
        proof {
            assert forall|a: int, b: int| 0 <= a < b < members@.len() implies #[trigger] members@[a] < #[trigger] members@[b] by {
                assert(members@[a] == order@[p + a] && members@[b] == order@[p + b]);
                assert(comes_before(hours@, order@[p + a], order@[p + b]));
            }
            assert forall|a: int| 0 <= a < members@.len() implies #[trigger] members@[a] < hours.len() by {
                assert(members@[a] == order@[p + a]);
            }
            assert forall|a: int| 0 <= a < members@.len() implies hours@[#[trigger] members@[a] as int] == h by {
                assert(members@[a] == order@[p + a]);
            }
            if q < n {
                assert(comes_before(hours@, order@[p as int], order@[q as int]));
            }
        }
        let prices = merge_members(items, &members, h);
        let ghost old_groups = groups@;
        groups.push(HourGroup { hour: h, members, prices });
        proof {
            assert forall|a: int| 0 <= a < q implies #[trigger] in_some_group(groups@, order@[a]) by {
                if a < p {
                    assert(in_some_group(old_groups, order@[a]));
                    let g = choose|g: int| 0 <= g < old_groups.len() && (#[trigger] old_groups[g]).members@.contains(order@[a]);
                    assert(groups@[g] == old_groups[g]);
                    assert(groups@[g].members@.contains(order@[a]));
                } else {
                    let last = groups@.len() - 1;
                    assert(groups@[last].members@[a - p] == order@[a]);
                    assert(groups@[last].members@.contains(order@[a]));
                }
            }
        }
        p = q;
    }
    proof {
        assert forall|i: int| 0 <= i < hours.len() implies #[trigger] in_some_group(groups@, i as usize) by {
            assert(order@.contains(i as usize));
            let a = choose|a: int| 0 <= a < order@.len() && order@[a] == i as usize;
            assert(in_some_group(groups@, order@[a]));
        }
    }
    groups
}

/// What one run of the aggregation does once the source data is known to exist.
#[derive(Clone, Copy, Debug, PartialEq, Eq)]
pub enum AggregationPlan {
    /// Aggregate the hours from `start` to `end`, reading minute records up to
    /// `query_end`, the last millisecond of the hour at `end`.
    Range { start: i64, end: i64, query_end: i64 },
    /// Nothing was aggregated yet and no complete hour is available.
    NoCompleteHour,
    /// No hour has completed since the last aggregated one.
    NoNewHour,
}

/// Whether there is source data to aggregate: both the first and the last stored
/// timestamps are set (non-zero).
pub fn has_source_data(first_timestamp: i64, last_timestamp: i64) -> (r: bool)
    ensures
        r == (first_timestamp != 0 && last_timestamp != 0),
{
    first_timestamp != 0 && last_timestamp != 0
}

/// The hours to aggregate: from the hour of the first record (`first_hour`, given
/// exactly when nothing was aggregated yet, `last_aggr == 0`), else from the hour
/// after the last aggregated one, up to the hour of the last record (`end_hour`).
pub fn aggregation_plan(last_aggr: i64, first_hour: Option<i64>, end_hour: i64) -> (r: AggregationPlan)
    requires
        (last_aggr == 0) == (first_hour is Some),
        last_aggr != 0 ==> last_aggr <= i64::MAX - HOUR_MS,
        end_hour <= i64::MAX - (HOUR_MS - 1),
    ensures
        ({
            let start = match first_hour {
                Some(f) => f as int,
                None => last_aggr + HOUR_MS,
            };
            if start > end_hour {
                r == if last_aggr == 0 { AggregationPlan::NoCompleteHour } else { AggregationPlan::NoNewHour }
            } else {
                r == AggregationPlan::Range {
                    start: start as i64,
                    end: end_hour,
                    query_end: (end_hour + HOUR_MS - 1) as i64,
                }
            }
        }),
{
    let start = match first_hour {
        Some(f) => f,
        None => last_aggr + HOUR_MS,
    };
    if start > end_hour {
        if last_aggr == 0 {
            AggregationPlan::NoCompleteHour
        } else {
            AggregationPlan::NoNewHour
        }
    } else {
        AggregationPlan::Range { start, end: end_hour, query_end: end_hour + (HOUR_MS - 1) }
    }
}

/// A stored timestamp value read as the aggregation reads metadata: a missing value
/// or one that is not eight bytes long counts as `0`.
pub fn stored_timestamp_or_zero(value: &Option<Vec<u8>>) -> (r: i64)
    ensures
        r == match value {
            Some(b) => match decode_timestamp_spec(b@) {
                Some(t) => t,
                None => 0,
            },
            None => 0,
        },
{
    match value {
        Some(b) => match decode_timestamp(b.as_slice()) {
            Some(t) => t,
            None => 0,
        },
        None => 0,
    }
}

/// Whether aggregated data must be rebuilt: its stored version is not the current one.
pub fn needs_rebuild(stored_version: i64) -> (r: bool)
    ensures
        r == (stored_version != AGGREGATION_VERSION),
{
    stored_version != AGGREGATION_VERSION
}

/// The first hour a run wrote that is not zero (`0` when there is none), the last
/// hour it wrote, and how many hours it wrote.
pub open spec fn first_nonzero_hour(groups: Seq<HourGroup>) -> i64
    decreases groups.len(),
{
    if groups.len() == 0 {
        0
    } else if groups[0].hour != 0 {
        groups[0].hour
    } else {
        first_nonzero_hour(groups.drop_first())
    }
}

/// Summary of a run: first hour written that is not zero (else `0`), last hour
/// written (else `0`), and the number of hours written.
pub fn aggregation_summary(groups: &Vec<HourGroup>) -> (r: (i64, i64, usize))
    ensures
        r.0 == first_nonzero_hour(groups@),
        r.1 == if groups.len() == 0 { 0 } else { groups@.last().hour },
        r.2 == groups.len(),
{
    let mut first: i64 = 0;
    let mut last: i64 = 0;
    let mut i: usize = 0;
    assert(groups@.skip(0) =~= groups@);
    while i < groups.len()
        invariant
            i <= groups.len(),
            first_nonzero_hour(groups@) == if first != 0 { first } else { first_nonzero_hour(groups@.skip(i as int)) },
            i > 0 ==> last == groups@[i - 1].hour,
            i == 0 ==> last == 0,
        decreases groups.len() - i,
    {
        assert(groups@.skip(i as int).drop_first() =~= groups@.skip(i + 1));
        if first == 0 {
            first = groups[i].hour;
        }
        last = groups[i].hour;
        i += 1;
    }
    proof {
        if first == 0 {
            assert(groups@.skip(i as int).len() == 0);
        }
    }
    (first, last, groups.len())
}

/// Whether the first aggregated hour kept in the store is to be replaced by
/// `first_aggr`: a run wrote a (non-zero) first hour, and none is kept or the
/// kept one is later.
pub fn should_store_first(stored_first: i64, first_aggr: i64) -> (r: bool)
    ensures
        r == (first_aggr > 0 && (stored_first == 0 || first_aggr < stored_first)),
{
    first_aggr > 0 && (stored_first == 0 || first_aggr < stored_first)
}

} // verus!
