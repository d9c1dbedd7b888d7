//! Maps instants and glucose values onto the inner plot rectangle. The
//! horizontal map is proportional to elapsed time, so gaps in the data show as
//! blank space.
use vstd::prelude::*;
use vstd::arithmetic::div_mod::{lemma_div_is_ordered, lemma_div_multiples_vanish, lemma_div_pos_is_pos, lemma_fundamental_div_mod};
use vstd::arithmetic::mul::lemma_mul_inequality;
use crate::stickers::clamp;
use crate::nightscout::Entry;
use crate::types::PrefUnit;

verus! {

/// The inner plot rectangle, the time window it shows (milliseconds) and the
/// glucose range it shows (hundredths of mg/dL).
#[derive(Clone, Copy, Debug, PartialEq, Eq, Structural)]
pub struct Projection {
    pub left: i32,
    pub right: i32,
    pub top: i32,
    pub bottom: i32,
    pub oldest_ms: i64,
    pub newest_ms: i64,
    pub y_lo: u64,
    pub y_hi: u64,
}

impl Projection {
    /// Non-empty rectangle, window and value range.
    pub open spec fn valid(self) -> bool {
        &&& self.left < self.right
        &&& self.top < self.bottom
        &&& self.oldest_ms < self.newest_ms
        &&& self.y_lo < self.y_hi
    }

    /// Horizontal pixel of instant `t`: left edge plus the elapsed fraction of
    /// the window times the width, rounded down; instants outside the window
    /// land on its edges.
    pub open spec fn x_of(self, t: int) -> int {
        let c = clamp(t, self.oldest_ms as int, self.newest_ms as int);
        self.left + (c - self.oldest_ms) * (self.right - self.left) / (self.newest_ms - self.oldest_ms)
    }

    /// Vertical pixel of value `v` (hundredths of mg/dL), growing upwards from
    /// the bottom edge; values outside the range land on its edges.
    pub open spec fn y_of(self, v: int) -> int {
        let c = clamp(v, self.y_lo as int, self.y_hi as int);
        self.bottom - (c - self.y_lo) * (self.bottom - self.top) / (self.y_hi - self.y_lo)
    }

    pub fn project_x(&self, t: i64) -> (r: i32)
        requires
            self.valid(),
        ensures
            r == self.x_of(t as int),
            self.left <= r <= self.right,
    {
        let c: i64 = if t < self.oldest_ms {
            self.oldest_ms
        } else if t > self.newest_ms {
            self.newest_ms
        } else {
            t
        };
        let span: i128 = self.newest_ms as i128 - self.oldest_ms as i128;
        let w: i128 = self.right as i128 - self.left as i128;
        let elapsed: i128 = c as i128 - self.oldest_ms as i128;
        proof {
            lemma_scaled_down(elapsed as int, span as int, w as int);
            assert(span * w <= 0x4_0000_0000_0000_0000 * 0x2_0000_0000) by (nonlinear_arith)
                requires
                    0 < span <= 0x4_0000_0000_0000_0000,
                    0 <= w <= 0x2_0000_0000,
            ;
        }
        let off: i128 = elapsed * w / span;
        (self.left as i128 + off) as i32
    }

    pub fn project_y(&self, v: u64) -> (r: i32)
        requires
            self.valid(),
        ensures
            r == self.y_of(v as int),
            self.top <= r <= self.bottom,
    {
        let c: u64 = if v < self.y_lo {
            self.y_lo
        } else if v > self.y_hi {
            self.y_hi
        } else {
            v
        };
        let span: i128 = self.y_hi as i128 - self.y_lo as i128;
        let h: i128 = self.bottom as i128 - self.top as i128;
        let rise: i128 = c as i128 - self.y_lo as i128;
        proof {
            lemma_scaled_down(rise as int, span as int, h as int);
            assert(span * h <= 0x4_0000_0000_0000_0000 * 0x2_0000_0000) by (nonlinear_arith)
                requires
                    0 < span <= 0x4_0000_0000_0000_0000,
                    0 <= h <= 0x2_0000_0000,
            ;
        }
        let off: i128 = rise * h / span;
        (self.bottom as i128 - off) as i32
    }
}

/// `0 <= n * w / d <= w` for `0 <= n <= d`.
pub proof fn lemma_scaled_down(n: int, d: int, w: int)
    requires
        0 <= n <= d,
        0 < d,
        0 <= w,
    ensures
        0 <= n * w <= d * w,
        0 <= n * w / d <= w,
{
    lemma_mul_inequality(0, n, w);
    lemma_mul_inequality(n, d, w);
    lemma_div_pos_is_pos(n * w, d);
    lemma_div_is_ordered(n * w, d * w, d);
    assert(d * w == w * d) by (nonlinear_arith);
    lemma_div_multiples_vanish(w, d);
}

/// The horizontal map is affine in time up to rounding to whole pixels: for
/// instants `t1 < t2 < t3` in the window, the slopes over `[t1, t2]` and
/// `[t2, t3]` agree within one pixel per interval, that is
/// `|(x2 - x1)(t3 - t2) - (x3 - x2)(t2 - t1)| < t3 - t1`.
pub proof fn lemma_projection_affine(p: Projection, t1: int, t2: int, t3: int)
    requires
        p.valid(),
        p.oldest_ms <= t1 < t2 < t3 <= p.newest_ms,
    ensures
        ({
            let d = (p.x_of(t2) - p.x_of(t1)) * (t3 - t2) - (p.x_of(t3) - p.x_of(t2)) * (t2 - t1);
            -(t3 - t1) < d < t3 - t1
        }),
{
    let s = p.newest_ms - p.oldest_ms;
    let w = p.right - p.left;
    let a1 = (t1 - p.oldest_ms) * w;
    let a2 = (t2 - p.oldest_ms) * w;
    let a3 = (t3 - p.oldest_ms) * w;
    lemma_fundamental_div_mod(a1, s);
    lemma_fundamental_div_mod(a2, s);
    lemma_fundamental_div_mod(a3, s);
    let q1 = a1 / s;
    let q2 = a2 / s;
    let q3 = a3 / s;
    let r1 = a1 % s;
    let r2 = a2 % s;
    let r3 = a3 % s;
    assert(0 <= r1 < s && 0 <= r2 < s && 0 <= r3 < s);
    assert(p.x_of(t1) == p.left + q1);
    assert(p.x_of(t2) == p.left + q2);
    assert(p.x_of(t3) == p.left + q3);
    let x = q2 - q1;
    let y = q3 - q2;
    let a = t3 - t2;
    let b = t2 - t1;
    let d = x * a - y * b;
    assert(a2 - a1 == b * w) by (nonlinear_arith)
        requires
            a1 == (t1 - p.oldest_ms) * w,
            a2 == (t2 - p.oldest_ms) * w,
            b == t2 - t1,
    ;
    assert(a3 - a2 == a * w) by (nonlinear_arith)
        requires
            a2 == (t2 - p.oldest_ms) * w,
            a3 == (t3 - p.oldest_ms) * w,
            a == t3 - t2,
    ;
    assert(s * x == b * w - (r2 - r1)) by (nonlinear_arith)
        requires
            a1 == s * q1 + r1,
            a2 == s * q2 + r2,
            a2 - a1 == b * w,
            x == q2 - q1,
    ;
    assert(s * y == a * w - (r3 - r2)) by (nonlinear_arith)
        requires
            a2 == s * q2 + r2,
            a3 == s * q3 + r3,
            a3 - a2 == a * w,
            y == q3 - q2,
    ;
    assert(s * d == (s * x) * a - (s * y) * b) by (nonlinear_arith)
        requires
            d == x * a - y * b,
    ;
    assert((s * x) * a - (s * y) * b == (r1 - r2) * a + (r3 - r2) * b) by (nonlinear_arith)
        requires
            s * x == b * w - (r2 - r1),
            s * y == a * w - (r3 - r2),
    ;
    assert(s * d == (r1 - r2) * (t3 - t2) + (r3 - r2) * (t2 - t1));
    assert(-(s * (t3 - t1)) < s * d < s * (t3 - t1)) by (nonlinear_arith)
        requires
            s * d == (r1 - r2) * (t3 - t2) + (r3 - r2) * (t2 - t1),
            0 <= r1 < s,
            0 <= r2 < s,
            0 <= r3 < s,
            t1 < t2 < t3,
    ;
    assert(-(t3 - t1) < d < t3 - t1) by (nonlinear_arith)
        requires
            -(s * (t3 - t1)) < s * d < s * (t3 - t1),
            s > 0,
    ;
}


/// Largest sensor value of `s` (0 for none).
pub open spec fn max_sgv(s: Seq<Entry>) -> int
    decreases s.len(),
{
    if s.len() == 0 {
        0
    } else {
        let m = max_sgv(s.drop_last());
        if s.last().sgv > m {
            s.last().sgv as int
        } else {
            m
        }
    }
}

/// `v` rounded up to a multiple of `m`.
pub open spec fn ceil_to(v: int, m: int) -> int {
    (v + m - 1) / m * m
}

/// Value range of the vertical axis (hundredths of mg/dL) for the largest
/// value `max`: from 40 mg/dL up to `max` rounded up to 10 mg/dL, kept within
/// 200..400 mg/dL; in mmol/L from 2 up to `max` rounded up to whole mmol/L,
/// kept within 11..22 mmol/L (1 mmol/L = 18 mg/dL).
pub open spec fn axis_range(unit: PrefUnit, max: int) -> (int, int) {
    match unit {
        PrefUnit::MgDl => (4000, clamp(ceil_to(max, 1000), 20000, 40000)),
        PrefUnit::Mmol => (3600, clamp(ceil_to(max, 1800), 19800, 39600)),
    }
}

/// The vertical value range for `entries` shown in `unit`.
pub fn y_axis_range(entries: &[Entry], unit: PrefUnit) -> (r: (u64, u64))
    ensures
        (r.0 as int, r.1 as int) == axis_range(unit, max_sgv(entries@)),
        r.0 < r.1,
{
    let mut m: u64 = 0;
    let mut i: usize = 0;
    while i < entries.len()
        invariant
            i <= entries@.len(),
            m == max_sgv(entries@.subrange(0, i as int)),
        decreases entries@.len() - i,
    {
        proof {
            assert(entries@.subrange(0, i + 1).drop_last() =~= entries@.subrange(0, i as int));
        }
        if entries[i].sgv as u64 > m {
            m = entries[i].sgv as u64;
        }
        i += 1;
    }
    assert(entries@.subrange(0, entries@.len() as int) =~= entries@);
    let wide: u128 = m as u128;
    match unit {
        PrefUnit::MgDl => {
            let c: u128 = (wide + 999) / 1000 * 1000;
            let hi: u64 = if c < 20000 {
                20000
            } else if c > 40000 {
                40000
            } else {
                c as u64
            };
            (4000, hi)
        },
        PrefUnit::Mmol => {
            let c: u128 = (wide + 1799) / 1800 * 1800;
            let hi: u64 = if c < 19800 {
                19800
            } else if c > 39600 {
                39600
            } else {
                c as u64
            };
            (3600, hi)
        },
    }
}

/// Most horizontal grid lines.
pub const Y_LABEL_COUNT: usize = 8;

/// First grid value and spacing (hundredths of mg/dL) for an axis ending at
/// `hi`: seven steps of whole tens of mg/dL from 40 mg/dL, or of whole mmol/L
/// from 2 mmol/L, enough to reach `hi`.
pub open spec fn grid_start_step(unit: PrefUnit, hi: int) -> (int, int) {
    match unit {
        PrefUnit::MgDl => (4000, ((hi / 100 - 40 + 69) / 70 * 10) * 100),
        PrefUnit::Mmol => (3600, ((hi / 1800 - 2 + 6) / 7) * 1800),
    }
}

/// Values of the horizontal grid lines (hundredths of mg/dL): the first
/// value and its multiples of the step, at most eight, none above `hi`.
pub fn y_grid_values(unit: PrefUnit, hi: u64) -> (r: Vec<u64>)
    requires
        hi <= 40000,
        unit == PrefUnit::MgDl ==> hi >= 20000,
        unit == PrefUnit::Mmol ==> hi >= 19800,
    ensures
        r@.len() <= Y_LABEL_COUNT,
        forall|i: int|
            0 <= i < r@.len() ==> #[trigger] r@[i] == grid_start_step(unit, hi as int).0 + grid_start_step(
                unit,
                hi as int,
            ).1 * i && r@[i] <= hi,
        r@.len() == Y_LABEL_COUNT || grid_start_step(unit, hi as int).0 + grid_start_step(unit, hi as int).1
            * r@.len() > hi,
{
    let (start, step): (u64, u64) = match unit {
        PrefUnit::MgDl => (4000, ((hi / 100 - 40 + 69) / 70 * 10) * 100),
        PrefUnit::Mmol => (3600, ((hi / 1800 - 2 + 6) / 7) * 1800),
    };
    assert(step > 0 && step <= 40000);
    let mut values: Vec<u64> = Vec::new();
    let mut v: u64 = start;
    while values.len() < Y_LABEL_COUNT && v <= hi
        invariant
            values@.len() <= Y_LABEL_COUNT,
            v == start + step * values@.len(),
            step <= 40000,
            hi <= 40000,
            forall|i: int| 0 <= i < values@.len() ==> #[trigger] values@[i] == start + step * i && values@[i] <= hi,
        decreases Y_LABEL_COUNT - values@.len(),
    {
        let ghost n = values@.len() as int;
        values.push(v);
        assert(step * (n + 1) == step * n + step) by (nonlinear_arith);
        v = v + step;
    }
    values
}

/// Minimum time between two time labels: 30 minutes for windows up to three
/// hours, an hour up to six, two up to twelve, three beyond.
pub fn label_interval_minutes(hours: u16) -> (r: u64)
    ensures
        r == (if hours <= 3 {
            30u64
        } else if hours <= 6 {
            60u64
        } else if hours <= 12 {
            120u64
        } else {
            180u64
        }),
{
    if hours <= 3 {
        30
    } else if hours <= 6 {
        60
    } else if hours <= 12 {
        120
    } else {
        180
    }
}

} // verus!
