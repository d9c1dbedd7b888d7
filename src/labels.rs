//! Chooses which samples get a time label under the horizontal axis: spaced
//! by a minimum interval, at most a few, far enough apart in pixels, and
//! always the newest sample.
use vstd::prelude::*;
use vstd::arithmetic::div_mod::{lemma_div_is_ordered, lemma_div_is_ordered_by_denominator, lemma_div_multiples_vanish};

verus! {

/// Indices of `ts` (instants in seconds, oldest first) picked walking forward:
/// the first one, then each that lies at least `gap` after the last pick.
pub open spec fn interval_picks(ts: Seq<i64>, gap: int) -> Seq<int>
    decreases ts.len(),
{
    if ts.len() == 0 {
        Seq::empty()
    } else {
        let p = interval_picks(ts.drop_last(), gap);
        let i = ts.len() - 1;
        if p.len() == 0 || ts[i] - ts[p.last()] >= gap {
            p.push(i)
        } else {
            p
        }
    }
}

/// `p` with the newest index appended unless a pick already has its instant.
pub open spec fn with_newest(ts: Seq<i64>, p: Seq<int>) -> Seq<int> {
    if ts.len() == 0 || (p.len() > 0 && ts[p.last()] == ts.last()) {
        p
    } else {
        p.push(ts.len() - 1)
    }
}

/// The elements of `p` at positions `j, j + st, ...` below `end`.
pub open spec fn strided(p: Seq<int>, st: int, j: int, end: int) -> Seq<int>
    decreases if j < end {
        end - j
    } else {
        0
    },
{
    if st <= 0 || j >= end {
        Seq::empty()
    } else {
        seq![p[j]] + strided(p, st, j + st, end)
    }
}

/// Where `p` has more than `max` elements: its first element, every
/// `len / max`-th one after it short of the last stride, and its last.
pub open spec fn thinned(p: Seq<int>, max: int) -> Seq<int> {
    if p.len() <= max {
        p
    } else {
        let st = p.len() as int / max;
        seq![p[0]] + strided(p, st, st, p.len() as int - st) + seq![p.last()]
    }
}

/// The first `n` elements of `p` filtered so that each kept label lies at
/// least `min` pixels from the one kept before it; the last element of `p`
/// is always kept, replacing the one before it where the two are too close.
pub open spec fn spaced(p: Seq<int>, n: int, xs: Seq<i32>, min: int) -> Seq<int>
    decreases n,
{
    if n <= 0 {
        Seq::empty()
    } else {
        let f = spaced(p, n - 1, xs, min);
        let c = p[n - 1];
        if f.len() == 0 {
            f.push(c)
        } else {
            let d = xs[c] - xs[f.last()];
            if d >= min || -d >= min {
                f.push(c)
            } else if n == p.len() {
                f.drop_last().push(c)
            } else {
                f
            }
        }
    }
}

/// The label indices for instants `ts` (seconds, oldest first) drawn at
/// pixel columns `xs`.
pub open spec fn time_labels(ts: Seq<i64>, xs: Seq<i32>, gap: int, max: int, min: int) -> Seq<int> {
    let p = thinned(with_newest(ts, interval_picks(ts, gap)), max);
    spaced(p, p.len() as int, xs, min)
}

/// `r` holds the indices `s`.
pub open spec fn same_indices(r: Seq<usize>, s: Seq<int>) -> bool {
    r.len() == s.len() && forall|k: int| 0 <= k < r.len() ==> #[trigger] r[k] as int == s[k]
}

proof fn lemma_picks_bounded(ts: Seq<i64>, gap: int)
    ensures
        forall|k: int|
            0 <= k < interval_picks(ts, gap).len() ==> 0 <= #[trigger] interval_picks(ts, gap)[k] < ts.len(),
        ts.len() > 0 ==> interval_picks(ts, gap).len() > 0,
    decreases ts.len(),
{
    if ts.len() > 0 {
        let p = interval_picks(ts.drop_last(), gap);
        lemma_picks_bounded(ts.drop_last(), gap);
        let q = interval_picks(ts, gap);
        assert forall|k: int| 0 <= k < q.len() implies 0 <= #[trigger] q[k] < ts.len() by {
            if k < p.len() {
                assert(q[k] == p[k]);
            }
        }
    }
}

proof fn lemma_strided_bounded(p: Seq<int>, st: int, j: int, end: int, lo: int, hi: int)
    requires
        0 <= j,
        end <= p.len(),
        forall|k: int| 0 <= k < p.len() ==> lo <= #[trigger] p[k] < hi,
    ensures
        forall|k: int|
            0 <= k < strided(p, st, j, end).len() ==> lo <= #[trigger] strided(p, st, j, end)[k] < hi,
    decreases if j < end {
        end - j
    } else {
        0
    },
{
    if st > 0 && j < end {
        lemma_strided_bounded(p, st, j + st, end, lo, hi);
        let s = strided(p, st, j, end);
        let rest = strided(p, st, j + st, end);
        assert forall|k: int| 0 <= k < s.len() implies lo <= #[trigger] s[k] < hi by {
            if k > 0 {
                assert(s[k] == rest[k - 1]);
            }
        }
    }
}

proof fn lemma_spaced_bounded(p: Seq<int>, n: int, xs: Seq<i32>, min: int, lo: int, hi: int)
    requires
        n <= p.len(),
        forall|k: int| 0 <= k < p.len() ==> lo <= #[trigger] p[k] < hi,
    ensures
        forall|k: int| 0 <= k < spaced(p, n, xs, min).len() ==> lo <= #[trigger] spaced(p, n, xs, min)[k] < hi,
        n > 0 ==> spaced(p, n, xs, min).len() > 0,
        n > 0 ==> spaced(p, n, xs, min).last() == p[n - 1] || n < p.len(),
    decreases n,
{
    if n > 0 {
        lemma_spaced_bounded(p, n - 1, xs, min, lo, hi);
        let f = spaced(p, n - 1, xs, min);
        let g = spaced(p, n, xs, min);
        assert(lo <= p[n - 1] < hi);
        assert forall|k: int| 0 <= k < g.len() implies lo <= #[trigger] g[k] < hi by {
            if k < g.len() - 1 {
                assert(g[k] == f[k]);
            }
        }
    }
}

fn gap_reached(a: i64, b: i64, gap: i64) -> (r: bool)
    ensures
        r == (b - a >= gap),
{
    (b as i128 - a as i128) >= gap as i128
}

/// Chooses the time labels; see `time_labels`. `ts` holds instants in seconds,
/// oldest first, and `xs` their pixel columns. The newest sample, or one at
/// its instant, is always labelled.
pub fn select_time_labels(ts: &[i64], xs: &[i32], gap_secs: i64, max_labels: usize, min_distance: i32) -> (r: Vec<
    usize,
>)
    requires
        xs@.len() == ts@.len(),
        max_labels > 0,
    ensures
        same_indices(r@, time_labels(ts@, xs@, gap_secs as int, max_labels as int, min_distance as int)),
        forall|k: int| 0 <= k < r@.len() ==> #[trigger] r@[k] < ts@.len(),
        ts@.len() > 0 ==> r@.len() > 0 && ts@[r@.last() as int] == ts@.last(),
{
    let mut picks: Vec<usize> = Vec::new();
    let mut i: usize = 0;
    while i < ts.len()
        invariant
            i <= ts@.len(),
            same_indices(picks@, interval_picks(ts@.subrange(0, i as int), gap_secs as int)),
            forall|k: int| 0 <= k < picks@.len() ==> #[trigger] picks@[k] < i,
            i > 0 ==> picks@.len() > 0,
        decreases ts@.len() - i,
    {
        proof {
            let q = ts@.subrange(0, i + 1);
            assert(q.drop_last() =~= ts@.subrange(0, i as int));
            if picks@.len() > 0 {
                assert(q[picks@.last() as int] == ts@[picks@.last() as int]);
            }
        }
        let ghost before = picks@;
        if picks.len() == 0 || gap_reached(ts[picks[picks.len() - 1]], ts[i], gap_secs) {
            picks.push(i);
            assert(picks@[before.len() as int] == i);
        }
        proof {
            let q = interval_picks(ts@.subrange(0, i + 1), gap_secs as int);
            assert forall|k: int| 0 <= k < picks@.len() implies #[trigger] picks@[k] as int == q[k] by {
                if k < before.len() {
                    assert(picks@[k] == before[k]);
                }
            }
        }
        i += 1;
    }
    assert(ts@.subrange(0, ts@.len() as int) =~= ts@);
    let ghost picks0 = interval_picks(ts@, gap_secs as int);
    assert(same_indices(picks@, picks0));
    let n = ts.len();
    if n > 0 && !(picks.len() > 0 && ts[picks[picks.len() - 1]] == ts[n - 1]) {
        let ghost before = picks@;
        picks.push(n - 1);
        proof {
            assert forall|k: int| 0 <= k < picks@.len() implies #[trigger] picks@[k] as int == picks0.push(
                n - 1,
            )[k] by {
                if k < before.len() {
                    assert(picks@[k] == before[k]);
                }
            }
        }
    }
    let ghost picks_full = with_newest(ts@, picks0);
    assert(same_indices(picks@, picks_full));
    proof {
        lemma_picks_bounded(ts@, gap_secs as int);
    }
    assert(forall|k: int| 0 <= k < picks_full.len() ==> 0 <= #[trigger] picks_full[k] < ts@.len());
    let ghost picks_thin = thinned(picks_full, max_labels as int);
    let thin: Vec<usize> = if picks.len() <= max_labels {
        picks
    } else {
        let len = picks.len();
        let st = len / max_labels;
        proof {
            lemma_div_is_ordered(max_labels as int, len as int, max_labels as int);
            lemma_div_multiples_vanish(1, max_labels as int);
            lemma_div_is_ordered_by_denominator(len as int, 1, max_labels as int);
        }
        assert(1 <= st <= len);
        let mut t: Vec<usize> = Vec::new();
        t.push(picks[0]);
        let mut j: usize = st;
        while j < len - st
            invariant
                st >= 1,
                len == picks@.len(),
                len >= st,
                j >= st,
                same_indices(picks@, picks_full),
                seq![picks_full[0]] + strided(picks_full, st as int, st as int, len - st) =~= t@.map_values(|v: usize| v as int)
                    + strided(picks_full, st as int, j as int, len - st),
            decreases len - j,
        {
            let ghost before = t@;
            t.push(picks[j]);
            proof {
                let rest = strided(picks_full, st as int, j as int, len - st);
                assert(rest == seq![picks_full[j as int]] + strided(picks_full, st as int, j + st, len - st));
                assert(t@.map_values(|v: usize| v as int) =~= before.map_values(|v: usize| v as int).push(
                    picks_full[j as int],
                ));
            }
            j += st;
        }
        assert(strided(picks_full, st as int, j as int, len - st) =~= Seq::<int>::empty());
        t.push(picks[len - 1]);
        assert(t@.map_values(|v: usize| v as int) =~= picks_thin);
        t
    };
    assert(same_indices(thin@, picks_thin)) by {
        if picks@.len() > max_labels {
            assert forall|k: int| 0 <= k < thin@.len() implies #[trigger] thin@[k] as int == picks_thin[k] by {
                assert(thin@.map_values(|v: usize| v as int)[k] == thin@[k] as int);
            }
        }
    }
    proof {
        if picks_full.len() > max_labels {
            let st = picks_full.len() as int / (max_labels as int);
            lemma_strided_bounded(picks_full, st, st, picks_full.len() as int - st, 0, ts@.len() as int);
            let mid = strided(picks_full, st, st, picks_full.len() as int - st);
            assert forall|k: int| 0 <= k < picks_thin.len() implies 0 <= #[trigger] picks_thin[k] < ts@.len() by {
                if 0 < k < picks_thin.len() - 1 {
                    assert(picks_thin[k] == mid[k - 1]);
                }
            }
        }
    }
    let mut out: Vec<usize> = Vec::new();
    let mut k: usize = 0;
    while k < thin.len()
        invariant
            k <= thin@.len(),
            same_indices(thin@, picks_thin),
            forall|m: int| 0 <= m < picks_thin.len() ==> 0 <= #[trigger] picks_thin[m] < ts@.len(),
            xs@.len() == ts@.len(),
            same_indices(out@, spaced(picks_thin, k as int, xs@, min_distance as int)),
        decreases thin@.len() - k,
    {
        let c = thin[k];
        let ghost before = out@;
        proof {
            lemma_spaced_bounded(picks_thin, k as int, xs@, min_distance as int, 0, ts@.len() as int);
            if out@.len() > 0 {
                assert(0 <= spaced(picks_thin, k as int, xs@, min_distance as int).last() < ts@.len());
            }
        }
        if out.len() == 0 {
            out.push(c);
        } else {
            let last = out[out.len() - 1];
            let d: i64 = xs[c] as i64 - xs[last] as i64;
            if d >= min_distance as i64 || -d >= min_distance as i64 {
                out.push(c);
            } else if k == thin.len() - 1 {
                out.pop();
                out.push(c);
            }
        }
        proof {
            let f = spaced(picks_thin, k as int, xs@, min_distance as int);
            let g = spaced(picks_thin, k + 1, xs@, min_distance as int);
            assert forall|m: int| 0 <= m < out@.len() implies #[trigger] out@[m] as int == g[m] by {
                if m < out@.len() - 1 {
                    assert(out@[m] == before[m]);
                }
            }
        }
        k += 1;
    }
    proof {
        lemma_spaced_bounded(picks_thin, picks_thin.len() as int, xs@, min_distance as int, 0, ts@.len() as int);
        if ts@.len() > 0 {
            lemma_picks_bounded(ts@, gap_secs as int);
        }
    }
    out
}

} // verus!
