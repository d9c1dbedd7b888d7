//! The timeline reconciler: restricts samples to a time window and drops
//! duplicates, keeping the order of the input.
use vstd::prelude::*;
use crate::clock::now_millis;
use crate::clock::chrono_millis_ok;
use crate::nightscout::{instant_of, raw_millis, Delta, Entry, NightscoutError};
use crate::text::{after_last, last_index_of, str_eq};

verus! {

/// How close two readings must be to count as one: within `max_gap_ms`
/// milliseconds, with values equal once divided by `value_step` hundredths.
#[derive(Clone, Copy, Debug, PartialEq, Eq, Structural)]
pub struct DedupTolerance {
    pub max_gap_ms: u64,
    pub value_step: u64,
}

/// Thirty seconds apart, values equal to two decimal places.
pub open spec fn default_tolerance() -> DedupTolerance {
    DedupTolerance { max_gap_ms: 30_000, value_step: 1 }
}

/// Two readings of the same kind, close in time, with the same rounded value.
pub open spec fn same_reading(a: Entry, b: Entry, tol: DedupTolerance, now: int) -> bool {
    let gap = if instant_of(a, now) >= instant_of(b, now) {
        instant_of(a, now) - instant_of(b, now)
    } else {
        instant_of(b, now) - instant_of(a, now)
    };
    &&& gap <= tol.max_gap_ms
    &&& match (a.mbg, b.mbg) {
        (Some(x), Some(y)) => x as int / tol.value_step as int == y as int / tol.value_step as int,
        (None, None) => a.sgv as int / tol.value_step as int == b.sgv as int / tol.value_step as int,
        _ => false,
    }
}

/// The identifier of a sample, as text.
pub open spec fn id_view(e: Entry) -> Option<Seq<char>> {
    match e.id {
        Some(s) => Some(s@),
        None => None,
    }
}

/// Whether sample `i` of `w` has an identifier that an earlier sample carries.
pub open spec fn id_seen_before(w: Seq<Entry>, i: int) -> bool {
    &&& id_view(w[i]) is Some
    &&& exists|j: int| 0 <= j < i && #[trigger] id_view(w[j]) == id_view(w[i])
}

/// Samples of `s` whose instant is at or after `cutoff`, in order.
pub open spec fn window_of(s: Seq<Entry>, now: int, cutoff: int) -> Seq<Entry>
    decreases s.len(),
{
    if s.len() == 0 {
        Seq::empty()
    } else {
        let w = window_of(s.drop_last(), now, cutoff);
        if instant_of(s.last(), now) >= cutoff {
            w.push(s.last())
        } else {
            w
        }
    }
}

/// Walks `w` in order and keeps a sample unless its identifier was seen before
/// or an already kept sample is the same reading.
pub open spec fn dedup_of(w: Seq<Entry>, tol: DedupTolerance, now: int) -> Seq<Entry>
    decreases w.len(),
{
    if w.len() == 0 {
        Seq::empty()
    } else {
        let r = dedup_of(w.drop_last(), tol, now);
        if id_seen_before(w, w.len() - 1) || exists|k: int|
            0 <= k < r.len() && same_reading(r[k], w.last(), tol, now) {
            r
        } else {
            r.push(w.last())
        }
    }
}

/// Start of a window of `hours` hours that ends at `now`.
pub open spec fn cutoff_of(now: int, hours: int) -> int {
    now - hours * 3_600_000
}

/// The reconciled timeline, or `None` where nothing is left.
pub open spec fn reconciled(s: Seq<Entry>, hours: int, now: int, tol: DedupTolerance) -> Option<
    Seq<Entry>,
> {
    let w = window_of(s, now, cutoff_of(now, hours));
    if w.len() == 0 {
        None
    } else {
        Some(dedup_of(w, tol, now))
    }
}


/// `idx` maps each element of `sub` to the position in `s` it was taken from,
/// with positions strictly increasing.
pub open spec fn embeds<T>(sub: Seq<T>, s: Seq<T>, idx: Seq<int>) -> bool {
    &&& idx.len() == sub.len()
    &&& forall|i: int, j: int| 0 <= i < j < idx.len() ==> idx[i] < idx[j]
    &&& forall|i: int| 0 <= i < idx.len() ==> 0 <= #[trigger] idx[i] < s.len() && sub[i] == s[idx[i]]
}

/// `sub` is `s` with some elements left out and the rest in their order.
pub open spec fn is_subsequence<T>(sub: Seq<T>, s: Seq<T>) -> bool {
    exists|idx: Seq<int>| embeds(sub, s, idx)
}

/// No two samples share an identifier, and no two are the same reading.
pub open spec fn is_clean(r: Seq<Entry>, tol: DedupTolerance, now: int) -> bool {
    &&& forall|i: int, j: int|
        0 <= i < j < r.len() && id_view(r[i]) is Some ==> id_view(r[i]) != id_view(r[j])
    &&& forall|i: int, j: int| 0 <= i < j < r.len() ==> !same_reading(r[i], r[j], tol, now)
}

/// The reconciler, with its duplicate tolerance.
pub struct Nightscout {
    pub tolerance: DedupTolerance,
}

/// The outcome of reconciling `s` at time `now`: the timeline, or `NoEntries`
/// where nothing is left.
pub open spec fn reconcile_outcome(
    r: Result<Vec<Entry>, NightscoutError>,
    s: Seq<Entry>,
    hours: int,
    now: int,
    tol: DedupTolerance,
) -> bool {
    match r {
        Ok(v) => reconciled(s, hours, now, tol) == Some(v@),
        Err(e) => e == NightscoutError::NoEntries && reconciled(s, hours, now, tol) is None,
    }
}

fn same_reading_exec(a: &Entry, b: &Entry, tol: DedupTolerance, now_ms: i64) -> (r: bool)
    requires
        tol.value_step > 0,
    ensures
        r == same_reading(*a, *b, tol, now_ms as int),
{
    let ta = a.instant_millis(now_ms) as i128;
    let tb = b.instant_millis(now_ms) as i128;
    let gap = if ta >= tb {
        ta - tb
    } else {
        tb - ta
    };
    if gap > tol.max_gap_ms as i128 {
        return false;
    }
    match (a.mbg, b.mbg) {
        (Some(x), Some(y)) => x as u64 / tol.value_step == y as u64 / tol.value_step,
        (None, None) => a.sgv as u64 / tol.value_step == b.sgv as u64 / tol.value_step,
        _ => false,
    }
}

fn same_id(a: &Option<String>, b: &Option<String>) -> (r: bool)
    ensures
        r == (match (a, b) {
            (Some(x), Some(y)) => x@ == y@,
            (None, None) => true,
            _ => false,
        }),
{
    match (a, b) {
        (Some(x), Some(y)) => x.eq(y),
        (None, None) => true,
        _ => false,
    }
}

fn id_seen(w: &Vec<Entry>, i: usize) -> (r: bool)
    requires
        i < w@.len(),
    ensures
        r == id_seen_before(w@, i as int),
{
    if w[i].id.is_none() {
        return false;
    }
    let mut j: usize = 0;
    while j < i
        invariant
            j <= i < w@.len(),
            id_view(w@[i as int]) is Some,
            forall|k: int| 0 <= k < j ==> #[trigger] id_view(w@[k]) != id_view(w@[i as int]),
        decreases i - j,
    {
        if same_id(&w[j].id, &w[i].id) {
            assert(id_view(w@[j as int]) == id_view(w@[i as int]));
            return true;
        }
        j += 1;
    }
    false
}

fn has_same_reading(kept: &Vec<Entry>, e: &Entry, tol: DedupTolerance, now_ms: i64) -> (r: bool)
    requires
        tol.value_step > 0,
    ensures
        r == exists|k: int| 0 <= k < kept@.len() && same_reading(kept@[k], *e, tol, now_ms as int),
{
    let mut k: usize = 0;
    while k < kept.len()
        invariant
            k <= kept@.len(),
            tol.value_step > 0,
            forall|m: int| 0 <= m < k ==> !same_reading(#[trigger] kept@[m], *e, tol, now_ms as int),
        decreases kept@.len() - k,
    {
        if same_reading_exec(&kept[k], e, tol, now_ms) {
            return true;
        }
        k += 1;
    }
    false
}

/// Keeps each sample of `w` unless its identifier was seen before or a kept
/// sample is the same reading.
pub fn dedup_samples(w: &Vec<Entry>, tol: DedupTolerance, now_ms: i64) -> (r: Vec<Entry>)
    requires
        tol.value_step > 0,
    ensures
        r@ == dedup_of(w@, tol, now_ms as int),
{
    let mut kept: Vec<Entry> = Vec::new();
    let mut i: usize = 0;
    while i < w.len()
        invariant
            i <= w@.len(),
            tol.value_step > 0,
            kept@ == dedup_of(w@.subrange(0, i as int), tol, now_ms as int),
        decreases w@.len() - i,
    {
        let seen = id_seen(w, i);
        let dup = has_same_reading(&kept, &w[i], tol, now_ms);
        proof {
            let p = w@.subrange(0, i + 1);
            assert(p.drop_last() =~= w@.subrange(0, i as int));
            assert(id_seen_before(p, i as int) == id_seen_before(w@, i as int)) by {
                if id_seen_before(w@, i as int) {
                    let j = choose|j: int| 0 <= j < i && #[trigger] id_view(w@[j]) == id_view(w@[i as int]);
                    assert(id_view(p[j]) == id_view(p[i as int]));
                }
                if id_seen_before(p, i as int) {
                    let j = choose|j: int| 0 <= j < i && #[trigger] id_view(p[j]) == id_view(p[i as int]);
                    assert(id_view(w@[j]) == id_view(w@[i as int]));
                }
            }
        }
        if !seen && !dup {
            kept.push(w[i].clone());
        }
        i += 1;
    }
    assert(w@.subrange(0, w@.len() as int) =~= w@);
    kept
}

/// Deduplication keeps at least the first sample.
pub proof fn lemma_dedup_nonempty(w: Seq<Entry>, tol: DedupTolerance, now: int)
    requires
        w.len() > 0,
    ensures
        dedup_of(w, tol, now).len() > 0,
    decreases w.len(),
{
    if w.len() == 1 {
        assert(!id_seen_before(w, 0));
    } else {
        lemma_dedup_nonempty(w.drop_last(), tol, now);
    }
}

impl Nightscout {
    /// A reconciler with the default tolerance: readings within thirty seconds
    /// whose values agree to two decimal places are one reading.
    pub fn new() -> (r: Self)
        ensures
            r.tolerance == default_tolerance(),
    {
        Nightscout { tolerance: DedupTolerance { max_gap_ms: 30_000, value_step: 1 } }
    }

    /// Restricts `entries` to the `hours` hours before `now_ms` and drops
    /// duplicates, keeping the input order.
    pub fn reconcile_at(&self, entries: &[Entry], hours: u16, now_ms: i64) -> (r: Result<
        Vec<Entry>,
        NightscoutError,
    >)
        requires
            self.tolerance.value_step > 0,
        ensures
            reconcile_outcome(r, entries@, hours as int, now_ms as int, self.tolerance),
    {
        let cutoff: i128 = now_ms as i128 - (hours as i128) * 3_600_000;
        let mut window: Vec<Entry> = Vec::new();
        let mut i: usize = 0;
        while i < entries.len()
            invariant
                i <= entries@.len(),
                cutoff == cutoff_of(now_ms as int, hours as int),
                window@ == window_of(entries@.subrange(0, i as int), now_ms as int, cutoff as int),
            decreases entries@.len() - i,
        {
            proof {
                let p = entries@.subrange(0, i + 1);
                assert(p.drop_last() =~= entries@.subrange(0, i as int));
            }
            let t = entries[i].instant_millis(now_ms);
            if t as i128 >= cutoff {
                window.push(entries[i].clone());
            }
            i += 1;
        }
        assert(entries@.subrange(0, entries@.len() as int) =~= entries@);
        if window.len() == 0 {
            return Err(NightscoutError::NoEntries);
        }
        let kept = dedup_samples(&window, self.tolerance, now_ms);
        proof {
            lemma_dedup_nonempty(window@, self.tolerance, now_ms as int);
        }
        Ok(kept)
    }

    /// Restricts `entries` to the `hours` hours before now and drops
    /// duplicates. Instants are compared as such, so the zone does not change
    /// which samples are kept.
    pub fn filter_and_clean_entries(&self, entries: &[Entry], hours: u16, user_timezone: &str) -> (r:
        Result<Vec<Entry>, NightscoutError>)
        requires
            self.tolerance.value_step > 0,
        ensures
            exists|now: int| now >= 0 && reconcile_outcome(r, entries@, hours as int, now, self.tolerance),
    {
        let now = now_millis();
        self.reconcile_at(entries, hours, now)
    }
}


proof fn lemma_window_embeds(s: Seq<Entry>, now: int, cutoff: int) -> (idx: Seq<int>)
    ensures
        embeds(window_of(s, now, cutoff), s, idx),
        forall|i: int|
            0 <= i < window_of(s, now, cutoff).len() ==> instant_of(
                #[trigger] window_of(s, now, cutoff)[i],
                now,
            ) >= cutoff,
    decreases s.len(),
{
    if s.len() == 0 {
        Seq::empty()
    } else {
        let idx0 = lemma_window_embeds(s.drop_last(), now, cutoff);
        let w0 = window_of(s.drop_last(), now, cutoff);
        if instant_of(s.last(), now) >= cutoff {
            let idx = idx0.push(s.len() - 1);
            let w = w0.push(s.last());
            assert forall|i: int| 0 <= i < idx.len() implies 0 <= #[trigger] idx[i] < s.len() && w[i]
                == s[idx[i]] by {
                if i < idx0.len() {
                    assert(s.drop_last()[idx0[i]] == s[idx0[i]]);
                }
            }
            idx
        } else {
            assert forall|i: int| 0 <= i < idx0.len() implies 0 <= #[trigger] idx0[i] < s.len()
                && w0[i] == s[idx0[i]] by {
                assert(s.drop_last()[idx0[i]] == s[idx0[i]]);
            }
            idx0
        }
    }
}

proof fn lemma_dedup_embeds(w: Seq<Entry>, tol: DedupTolerance, now: int) -> (idx: Seq<int>)
    ensures
        embeds(dedup_of(w, tol, now), w, idx),
    decreases w.len(),
{
    if w.len() == 0 {
        Seq::empty()
    } else {
        let idx0 = lemma_dedup_embeds(w.drop_last(), tol, now);
        let r0 = dedup_of(w.drop_last(), tol, now);
        if dedup_of(w, tol, now) == r0 {
            assert forall|i: int| 0 <= i < idx0.len() implies 0 <= #[trigger] idx0[i] < w.len()
                && r0[i] == w[idx0[i]] by {
                assert(w.drop_last()[idx0[i]] == w[idx0[i]]);
            }
            idx0
        } else {
            let idx = idx0.push(w.len() - 1);
            let r = r0.push(w.last());
            assert forall|i: int| 0 <= i < idx.len() implies 0 <= #[trigger] idx[i] < w.len() && r[i]
                == w[idx[i]] by {
                if i < idx0.len() {
                    assert(w.drop_last()[idx0[i]] == w[idx0[i]]);
                }
            }
            idx
        }
    }
}

proof fn lemma_embeds_compose<T>(a: Seq<T>, b: Seq<T>, c: Seq<T>, i1: Seq<int>, i2: Seq<int>) -> (idx:
    Seq<int>)
    requires
        embeds(a, b, i1),
        embeds(b, c, i2),
    ensures
        embeds(a, c, idx),
{
    let idx = Seq::new(i1.len(), |k: int| i2[i1[k]]);
    assert forall|i: int, j: int| 0 <= i < j < idx.len() implies idx[i] < idx[j] by {
        assert(i1[i] < i1[j]);
        assert(0 <= i1[i] < b.len() && 0 <= i1[j] < b.len());
    }
    assert forall|i: int| 0 <= i < idx.len() implies 0 <= #[trigger] idx[i] < c.len() && a[i]
        == c[idx[i]] by {
        assert(0 <= i1[i] < b.len());
    }
    idx
}

proof fn lemma_dedup_clean(w: Seq<Entry>, tol: DedupTolerance, now: int)
    ensures
        is_clean(dedup_of(w, tol, now), tol, now),
    decreases w.len(),
{
    if w.len() > 0 {
        lemma_dedup_clean(w.drop_last(), tol, now);
        let r0 = dedup_of(w.drop_last(), tol, now);
        let e = w.last();
        if dedup_of(w, tol, now) != r0 {
            let r = r0.push(e);
            assert(r == dedup_of(w, tol, now));
            let idx = lemma_dedup_embeds(w.drop_last(), tol, now);
            assert(!id_seen_before(w, w.len() - 1));
            assert forall|i: int, j: int|
                0 <= i < j < r.len() && id_view(r[i]) is Some implies id_view(r[i]) != id_view(r[j]) by {
                if j == r.len() - 1 {
                    let k = idx[i];
                    assert(0 <= k < w.len() - 1);
                    assert(r[i] == w.drop_last()[k]);
                    assert(w.drop_last()[k] == w[k]);
                    if id_view(r[i]) == id_view(r[j]) {
                        assert(id_view(w[k]) == id_view(w[w.len() - 1]));
                    }
                } else {
                    assert(r[i] == r0[i] && r[j] == r0[j]);
                }
            }
            assert forall|i: int, j: int| 0 <= i < j < r.len() implies !same_reading(r[i], r[j], tol, now) by {
                if j == r.len() - 1 {
                    assert(r[i] == r0[i]);
                } else {
                    assert(r[i] == r0[i] && r[j] == r0[j]);
                }
            }
        }
    }
}

proof fn lemma_window_fixed(r: Seq<Entry>, now: int, cutoff: int)
    requires
        forall|i: int| 0 <= i < r.len() ==> instant_of(#[trigger] r[i], now) >= cutoff,
    ensures
        window_of(r, now, cutoff) == r,
    decreases r.len(),
{
    if r.len() > 0 {
        let r0 = r.drop_last();
        assert forall|i: int| 0 <= i < r0.len() implies instant_of(#[trigger] r0[i], now) >= cutoff by {
            assert(r0[i] == r[i]);
        }
        lemma_window_fixed(r0, now, cutoff);
        assert(instant_of(r[r.len() - 1], now) >= cutoff);
        assert(r0.push(r.last()) =~= r);
    }
}

proof fn lemma_dedup_fixed(r: Seq<Entry>, tol: DedupTolerance, now: int)
    requires
        is_clean(r, tol, now),
    ensures
        dedup_of(r, tol, now) == r,
    decreases r.len(),
{
    if r.len() > 0 {
        let r0 = r.drop_last();
        let n = r.len() - 1;
        assert forall|i: int, j: int|
            0 <= i < j < r0.len() && id_view(r0[i]) is Some implies id_view(r0[i]) != id_view(r0[j]) by {
            assert(r0[i] == r[i] && r0[j] == r[j]);
        }
        assert forall|i: int, j: int| 0 <= i < j < r0.len() implies !same_reading(r0[i], r0[j], tol, now) by {
            assert(r0[i] == r[i] && r0[j] == r[j]);
        }
        lemma_dedup_fixed(r0, tol, now);
        if id_seen_before(r, n) {
            let j = choose|j: int| 0 <= j < n && #[trigger] id_view(r[j]) == id_view(r[n]);
            assert(id_view(r[j]) is Some);
        }
        assert forall|k: int| 0 <= k < r0.len() implies !same_reading(r0[k], r.last(), tol, now) by {
            assert(r0[k] == r[k]);
        }
        assert(r0.push(r.last()) =~= r);
    }
}

/// Reconciling an already reconciled timeline, at the same time and over the
/// same window, gives it back unchanged.
pub proof fn lemma_reconcile_idempotent(s: Seq<Entry>, hours: int, now: int, tol: DedupTolerance)
    requires
        reconciled(s, hours, now, tol) is Some,
    ensures
        reconciled(reconciled(s, hours, now, tol).unwrap(), hours, now, tol) == reconciled(
            s,
            hours,
            now,
            tol,
        ),
{
    let cutoff = cutoff_of(now, hours);
    let w = window_of(s, now, cutoff);
    let r = dedup_of(w, tol, now);
    let iw = lemma_window_embeds(s, now, cutoff);
    let id = lemma_dedup_embeds(w, tol, now);
    assert forall|i: int| 0 <= i < r.len() implies instant_of(#[trigger] r[i], now) >= cutoff by {
        assert(r[i] == w[id[i]]);
    }
    lemma_window_fixed(r, now, cutoff);
    lemma_dedup_clean(w, tol, now);
    lemma_dedup_fixed(r, tol, now);
    lemma_dedup_nonempty(w, tol, now);
}

/// The reconciled timeline is the input with samples left out, in input
/// order, and each kept sample lies at or after the window's start.
pub proof fn lemma_reconcile_subsequence(s: Seq<Entry>, hours: int, now: int, tol: DedupTolerance)
    requires
        reconciled(s, hours, now, tol) is Some,
    ensures
        is_subsequence(reconciled(s, hours, now, tol).unwrap(), s),
        forall|i: int|
            0 <= i < reconciled(s, hours, now, tol).unwrap().len() ==> instant_of(
                #[trigger] reconciled(s, hours, now, tol).unwrap()[i],
                now,
            ) >= cutoff_of(now, hours),
{
    let cutoff = cutoff_of(now, hours);
    let w = window_of(s, now, cutoff);
    let r = dedup_of(w, tol, now);
    let iw = lemma_window_embeds(s, now, cutoff);
    let id = lemma_dedup_embeds(w, tol, now);
    let idx = lemma_embeds_compose(r, w, s, id, iw);
    assert(embeds(r, s, idx));
    assert forall|i: int| 0 <= i < r.len() implies instant_of(#[trigger] r[i], now) >= cutoff by {
        assert(r[i] == w[id[i]]);
    }
}

/// A sample whose own timestamp lies before the window's start is never in
/// the reconciled timeline, however unique it is.
pub proof fn lemma_old_sample_excluded(s: Seq<Entry>, hours: int, now: int, tol: DedupTolerance, e: Entry)
    requires
        reconciled(s, hours, now, tol) is Some,
        match raw_millis(e) {
            Some(ms) => ms <= i64::MAX && chrono_millis_ok(ms as i64) && (ms as int) < cutoff_of(now, hours),
            None => false,
        },
    ensures
        !reconciled(s, hours, now, tol).unwrap().contains(e),
{
    lemma_reconcile_subsequence(s, hours, now, tol);
}

/// No two samples of the reconciled timeline share an identifier, and no two
/// are the same reading.
pub proof fn lemma_reconcile_distinct(s: Seq<Entry>, hours: int, now: int, tol: DedupTolerance)
    requires
        reconciled(s, hours, now, tol) is Some,
    ensures
        is_clean(reconciled(s, hours, now, tol).unwrap(), tol, now),
{
    lemma_dedup_clean(window_of(s, now, cutoff_of(now, hours)), tol, now);
}


/// The sub-second suffix of a sample's date string: the text after its last
/// `.` (`546Z` for `2025-09-23T08:38:01.546Z`).
pub open spec fn date_id_of(e: Entry) -> Option<Seq<char>> {
    match e.date_string {
        Some(s) => if last_index_of(s@, '.') >= 0 {
            Some(s@.subrange(last_index_of(s@, '.') + 1, s@.len() as int))
        } else {
            None
        },
        None => None,
    }
}

/// The samples of `s` whose date suffix is `id`, in order.
pub open spec fn with_date_id(s: Seq<Entry>, id: Seq<char>) -> Seq<Entry>
    decreases s.len(),
{
    if s.len() == 0 {
        Seq::empty()
    } else {
        let k = with_date_id(s.drop_last(), id);
        if date_id_of(s.last()) == Some(id) {
            k.push(s.last())
        } else {
            k
        }
    }
}

impl Nightscout {
    /// The sub-second suffix of the sample's date string; `MissingData` where
    /// it has no date string or the string has no `.`.
    pub fn get_date_id(entry: &Entry) -> (r: Result<&str, NightscoutError>)
        ensures
            match r {
                Ok(id) => date_id_of(*entry) == Some(id@),
                Err(e) => e == NightscoutError::MissingData && date_id_of(*entry) is None,
            },
    {
        match &entry.date_string {
            Some(s) => match after_last(s.as_str(), '.') {
                Some(id) => Ok(id),
                None => Err(NightscoutError::MissingData),
            },
            None => Err(NightscoutError::MissingData),
        }
    }

    /// Keeps the samples that share the first sample's date suffix, a light
    /// duplicate suppression without a time window. `NoEntries` for no
    /// samples, `MissingData` where the first has no suffix.
    pub fn clean_entries(&self, entries: &[Entry]) -> (r: Result<Vec<Entry>, NightscoutError>)
        ensures
            entries@.len() == 0 ==> r == Err::<Vec<Entry>, NightscoutError>(NightscoutError::NoEntries),
            entries@.len() > 0 && date_id_of(entries@[0]) is None ==> r == Err::<Vec<Entry>, NightscoutError>(
                NightscoutError::MissingData,
            ),
            entries@.len() > 0 && date_id_of(entries@[0]) is Some ==> (match r {
                Ok(v) => v@ == with_date_id(entries@, date_id_of(entries@[0]).unwrap()),
                Err(_) => false,
            }),
    {
        if entries.len() == 0 {
            return Err(NightscoutError::NoEntries);
        }
        let first = match Nightscout::get_date_id(&entries[0]) {
            Ok(id) => id,
            Err(e) => return Err(e),
        };
        let ghost id = first@;
        let mut kept: Vec<Entry> = Vec::new();
        let mut i: usize = 0;
        while i < entries.len()
            invariant
                i <= entries@.len(),
                id == first@,
                kept@ == with_date_id(entries@.subrange(0, i as int), id),
            decreases entries@.len() - i,
        {
            proof {
                assert(entries@.subrange(0, i + 1).drop_last() =~= entries@.subrange(0, i as int));
            }
            let same = match Nightscout::get_date_id(&entries[i]) {
                Ok(d) => str_eq(d, first),
                Err(_) => false,
            };
            if same {
                kept.push(entries[i].clone());
            }
            i += 1;
        }
        assert(entries@.subrange(0, entries@.len() as int) =~= entries@);
        Ok(kept)
    }
}

impl Nightscout {
    /// Change between the two newest samples (the first two) that share the
    /// first sample's date suffix; `NoEntries` where fewer than two do.
    pub fn current_delta(&self, entries: &[Entry]) -> (r: Result<Delta, NightscoutError>)
        ensures
            entries@.len() == 0 ==> r == Err::<Delta, NightscoutError>(NightscoutError::NoEntries),
            entries@.len() > 0 && date_id_of(entries@[0]) is None ==> r == Err::<Delta, NightscoutError>(
                NightscoutError::MissingData,
            ),
            entries@.len() > 0 && date_id_of(entries@[0]) is Some ==> ({
                let kept = with_date_id(entries@, date_id_of(entries@[0]).unwrap());
                match r {
                    Ok(d) => kept.len() >= 2 && d.value == kept[0].sgv - kept[1].sgv,
                    Err(e) => e == NightscoutError::NoEntries && kept.len() < 2,
                }
            }),
    {
        let kept = match self.clean_entries(entries) {
            Ok(v) => v,
            Err(e) => return Err(e),
        };
        if kept.len() < 2 {
            return Err(NightscoutError::NoEntries);
        }
        Ok(kept[0].get_delta(&kept[1]))
    }
}

} // verus!
