//! Splits the reconciled timeline into maximal runs of one glucose status and
//! drops runs too short to matter.
use vstd::prelude::*;
use crate::clock::now_millis;
use crate::nightscout::{instant_of, Entry};
use crate::types::{status_of, GlucoseStatus};

verus! {

/// A run of samples of one status: status, first index, last index.
pub type StatusRange = (GlucoseStatus, usize, usize);

/// The status of sample `i`.
pub open spec fn status_at(entries: Seq<Entry>, i: int, low: u64, high: u64) -> GlucoseStatus {
    status_of(entries[i].sgv as int, low as int, high as int)
}

/// The ranges lie end to end over indices `0..n`: no gap, no overlap.
pub open spec fn tiles(r: Seq<StatusRange>, n: int) -> bool {
    &&& (n == 0) == (r.len() == 0)
    &&& r.len() > 0 ==> r[0].1 == 0 && r.last().2 == n - 1
    &&& forall|k: int| 0 <= k < r.len() ==> (#[trigger] r[k]).1 <= r[k].2
    &&& forall|k: int| 0 <= k < r.len() - 1 ==> #[trigger] r[k + 1].1 == r[k].2 + 1
}

/// Each range holds samples of its own status only, and neighbouring ranges
/// differ in status, so each range is a maximal run.
pub open spec fn maximal_runs(r: Seq<StatusRange>, entries: Seq<Entry>, low: u64, high: u64) -> bool {
    &&& forall|k: int, i: int|
        0 <= k < r.len() && r[k].1 <= i <= r[k].2 ==> #[trigger] status_at(entries, i, low, high)
            == (#[trigger] r[k]).0
    &&& forall|k: int| 0 <= k < r.len() - 1 ==> (#[trigger] r[k]).0 != r[k + 1].0
}

/// Some range of `r` holds index `i`.
pub open spec fn in_some_range(r: Seq<StatusRange>, i: int) -> bool {
    exists|k: int| 0 <= k < r.len() && (#[trigger] r[k]).1 <= i <= r[k].2
}

/// Splits `entries` into maximal runs of equal status (low below
/// `target_low`, high above `target_high`, in range otherwise).
pub fn identify_status_ranges(
    entries: &[Entry],
    _user_timezone: &str,
    target_low: u64,
    target_high: u64,
) -> (r: Vec<StatusRange>)
    ensures
        tiles(r@, entries@.len() as int),
        maximal_runs(r@, entries@, target_low, target_high),
{
    let mut ranges: Vec<StatusRange> = Vec::new();
    if entries.len() == 0 {
        return ranges;
    }
    let mut current = GlucoseStatus::from_sgv(entries[0].sgv as u64, target_low, target_high);
    let mut start: usize = 0;
    let mut i: usize = 1;
    while i < entries.len()
        invariant
            1 <= i <= entries@.len(),
            start < i,
            (start == 0) == (ranges@.len() == 0),
            ranges@.len() > 0 ==> ranges@[0].1 == 0 && ranges@.last().2 == start - 1
                && ranges@.last().0 != current,
            forall|k: int| 0 <= k < ranges@.len() ==> (#[trigger] ranges@[k]).1 <= ranges@[k].2,
            forall|k: int| 0 <= k < ranges@.len() - 1 ==> #[trigger] ranges@[k + 1].1 == ranges@[k].2 + 1,
            maximal_runs(ranges@, entries@, target_low, target_high),
            forall|j: int| start <= j < i ==> #[trigger] status_at(entries@, j, target_low, target_high) == current,
        decreases entries@.len() - i,
    {
        let status = GlucoseStatus::from_sgv(entries[i].sgv as u64, target_low, target_high);
        if status != current {
            let ghost old_ranges = ranges@;
            ranges.push((current, start, i - 1));
            assert(forall|k: int| 0 <= k < old_ranges.len() ==> ranges@[k] == old_ranges[k]);
            current = status;
            start = i;
        }
        i += 1;
    }
    let ghost old_ranges = ranges@;
    ranges.push((current, start, entries.len() - 1));
    assert(forall|k: int| 0 <= k < old_ranges.len() ==> ranges@[k] == old_ranges[k]);
    ranges
}

/// Each sample index lies in exactly one range of a tiling.
pub proof fn lemma_ranges_cover(r: Seq<StatusRange>, n: int)
    requires
        tiles(r, n),
    ensures
        forall|i: int| 0 <= i < n ==> #[trigger] in_some_range(r, i),
        forall|k1: int, k2: int| 0 <= k1 < k2 < r.len() ==> (#[trigger] r[k1]).2 < (#[trigger] r[k2]).1,
{
    assert forall|k1: int, k2: int| 0 <= k1 < k2 < r.len() implies (#[trigger] r[k1]).2 < (
    #[trigger] r[k2]).1 by {
        lemma_ranges_ordered(r, n, k1, k2);
    }
    assert forall|i: int| 0 <= i < n implies #[trigger] in_some_range(r, i) by {
        lemma_index_covered(r, n, i, r.len() - 1);
    }
}

proof fn lemma_ranges_ordered(r: Seq<StatusRange>, n: int, k1: int, k2: int)
    requires
        tiles(r, n),
        0 <= k1 < k2 < r.len(),
    ensures
        r[k1].2 < r[k2].1,
    decreases k2 - k1,
{
    let k = k2 - 1;
    assert(r[k + 1].1 == r[k].2 + 1);
    if k1 < k2 - 1 {
        lemma_ranges_ordered(r, n, k1, k2 - 1);
        assert(r[k2 - 1].1 <= r[k2 - 1].2);
    }
}

proof fn lemma_index_covered(r: Seq<StatusRange>, n: int, i: int, m: int)
    requires
        tiles(r, n),
        0 <= i < n,
        0 <= m < r.len(),
        i <= r[m].2,
    ensures
        in_some_range(r, i),
    decreases m,
{
    if m == 0 {
        assert(r[0].1 <= i <= r[0].2);
    } else if i <= r[m - 1].2 {
        lemma_index_covered(r, n, i, m - 1);
    } else {
        let k = m - 1;
        assert(r[k + 1].1 == r[k].2 + 1);
        assert(r[m].1 <= i <= r[m].2);
    }
}


/// Whole seconds of a millisecond instant, rounded down.
pub open spec fn secs_of(ms: int) -> int {
    ms / 1000
}

/// Whole minutes between the first and last sample of a range.
pub open spec fn duration_minutes(entries: Seq<Entry>, r: StatusRange, now: int) -> int {
    let a = secs_of(instant_of(entries[r.1 as int], now));
    let b = secs_of(instant_of(entries[r.2 as int], now));
    (if b >= a {
        b - a
    } else {
        a - b
    }) / 60
}

/// A range survives the filter: its indices are valid, and it is low or lasts
/// at least `min_minutes`.
pub open spec fn keeps_range(r: StatusRange, entries: Seq<Entry>, now: int, min_minutes: int) -> bool {
    &&& r.1 < entries.len()
    &&& r.2 < entries.len()
    &&& (r.0 == GlucoseStatus::Low || duration_minutes(entries, r, now) >= min_minutes)
}

/// The ranges of `rs` that survive the filter, in order.
pub open spec fn kept_ranges(rs: Seq<StatusRange>, entries: Seq<Entry>, now: int, min_minutes: int) -> Seq<
    StatusRange,
>
    decreases rs.len(),
{
    if rs.len() == 0 {
        Seq::empty()
    } else {
        let k = kept_ranges(rs.drop_last(), entries, now, min_minutes);
        if keeps_range(rs.last(), entries, now, min_minutes) {
            k.push(rs.last())
        } else {
            k
        }
    }
}

/// Minutes an in-range or high run must last to be kept.
pub const SIGNIFICANT_RANGE_MINUTES: u64 = 30;

pub(crate) fn secs_floor(ms: i64) -> (r: i64)
    ensures
        r as int == secs_of(ms as int),
{
    if ms >= 0 {
        ms / 1000
    } else {
        let m: i64 = -(ms + 1);
        let q: i64 = m / 1000;
        assert(ms as int / 1000 == -(q as int) - 1) by (nonlinear_arith)
            requires
                m as int == -(ms as int + 1),
                m >= 0,
                q as int == m as int / 1000,
        ;
        -q - 1
    }
}

/// Keeps low ranges of any length and other ranges that last at least
/// `min_minutes`, measuring time at `now_ms` where a sample has none.
pub fn filter_ranges_by_duration_at(
    status_ranges: Vec<StatusRange>,
    entries: &[Entry],
    now_ms: i64,
    min_minutes: u64,
) -> (r: Vec<StatusRange>)
    ensures
        r@ == kept_ranges(status_ranges@, entries@, now_ms as int, min_minutes as int),
{
    let mut kept: Vec<StatusRange> = Vec::new();
    let mut i: usize = 0;
    while i < status_ranges.len()
        invariant
            i <= status_ranges@.len(),
            kept@ == kept_ranges(status_ranges@.subrange(0, i as int), entries@, now_ms as int, min_minutes as int),
        decreases status_ranges@.len() - i,
    {
        proof {
            let p = status_ranges@.subrange(0, i + 1);
            assert(p.drop_last() =~= status_ranges@.subrange(0, i as int));
        }
        let (status, start, end) = status_ranges[i];
        if start < entries.len() && end < entries.len() {
            let a = secs_floor(entries[start].instant_millis(now_ms));
            let b = secs_floor(entries[end].instant_millis(now_ms));
            let span: i128 = if b >= a {
                b as i128 - a as i128
            } else {
                a as i128 - b as i128
            };
            let minutes: i128 = span / 60;
            if status == GlucoseStatus::Low || minutes >= min_minutes as i128 {
                kept.push((status, start, end));
            }
        }
        i += 1;
    }
    assert(status_ranges@.subrange(0, status_ranges@.len() as int) =~= status_ranges@);
    kept
}

/// Keeps low ranges of any length and other ranges that last at least thirty
/// minutes. Durations are differences of instants, so the zone does not
/// change them.
pub fn filter_ranges_by_duration(
    status_ranges: Vec<StatusRange>,
    entries: &[Entry],
    _user_timezone: &str,
) -> (r: Vec<StatusRange>)
    ensures
        exists|now: int|
            now >= 0 && r@ == kept_ranges(status_ranges@, entries@, now, SIGNIFICANT_RANGE_MINUTES as int),
{
    let now = now_millis();
    filter_ranges_by_duration_at(status_ranges, entries, now, SIGNIFICANT_RANGE_MINUTES)
}

/// Every kept range is one of the input ranges and survives the filter.
pub proof fn lemma_kept_ranges_from(rs: Seq<StatusRange>, entries: Seq<Entry>, now: int, min_minutes: int)
    ensures
        forall|k: int|
            0 <= k < kept_ranges(rs, entries, now, min_minutes).len() ==> keeps_range(
                #[trigger] kept_ranges(rs, entries, now, min_minutes)[k],
                entries,
                now,
                min_minutes,
            ) && rs.contains(kept_ranges(rs, entries, now, min_minutes)[k]),
    decreases rs.len(),
{
    if rs.len() > 0 {
        lemma_kept_ranges_from(rs.drop_last(), entries, now, min_minutes);
        let k0 = kept_ranges(rs.drop_last(), entries, now, min_minutes);
        let k1 = kept_ranges(rs, entries, now, min_minutes);
        assert forall|k: int| 0 <= k < k1.len() implies keeps_range(#[trigger] k1[k], entries, now, min_minutes)
            && rs.contains(k1[k]) by {
            if k < k0.len() {
                assert(k1[k] == k0[k]);
                let j = choose|j: int| 0 <= j < rs.drop_last().len() && rs.drop_last()[j] == k0[k];
                assert(rs[j] == k0[k]);
            } else {
                assert(rs[rs.len() - 1] == k1[k]);
            }
        }
    }
}

/// The duration filter never keeps an in-range or high run shorter than
/// `min_minutes`, and always keeps a low run, however short.
pub proof fn lemma_duration_filter(rs: Seq<StatusRange>, entries: Seq<Entry>, now: int, min_minutes: int)
    ensures
        forall|i: int|
            0 <= i < kept_ranges(rs, entries, now, min_minutes).len() && (#[trigger] kept_ranges(
                rs,
                entries,
                now,
                min_minutes,
            )[i]).0 != GlucoseStatus::Low ==> duration_minutes(
                entries,
                kept_ranges(rs, entries, now, min_minutes)[i],
                now,
            ) >= min_minutes,
        forall|i: int|
            0 <= i < rs.len() && (#[trigger] rs[i]).0 == GlucoseStatus::Low && rs[i].1 < entries.len()
                && rs[i].2 < entries.len() ==> kept_ranges(rs, entries, now, min_minutes).contains(rs[i]),
    decreases rs.len(),
{
    if rs.len() > 0 {
        let r0 = rs.drop_last();
        lemma_duration_filter(r0, entries, now, min_minutes);
        let k0 = kept_ranges(r0, entries, now, min_minutes);
        let k = kept_ranges(rs, entries, now, min_minutes);
        assert forall|i: int|
            0 <= i < rs.len() && (#[trigger] rs[i]).0 == GlucoseStatus::Low && rs[i].1 < entries.len()
                && rs[i].2 < entries.len() implies k.contains(rs[i]) by {
            if i < rs.len() - 1 {
                assert(r0[i] == rs[i]);
                let j = choose|j: int| 0 <= j < k0.len() && k0[j] == r0[i];
                assert(k[j] == rs[i]);
            } else {
                assert(k[k.len() - 1] == rs[i]);
            }
        }
        assert forall|i: int|
            0 <= i < k.len() && (#[trigger] k[i]).0 != GlucoseStatus::Low implies duration_minutes(
            entries,
            k[i],
            now,
        ) >= min_minutes by {
            if i < k0.len() {
                assert(k[i] == k0[i]);
            }
        }
    }
}

} // verus!
