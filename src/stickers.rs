//! Chooses up to three stickers that fit the glucose ranges and searches for
//! positions where they cover neither the curve, the treatment markers nor
//! each other.
use vstd::prelude::*;
use vstd::arithmetic::div_mod::{lemma_div_is_ordered, lemma_div_multiples_vanish, lemma_div_pos_is_pos};
use vstd::arithmetic::mul::lemma_mul_inequality;
use crate::clock::{random_below, random_bool};
use crate::segments::StatusRange;
use crate::types::{category_of, has_category, GlucoseStatus, Sticker, StickerCategory};

verus! {

/// Most stickers drawn on one chart.
pub const MAX_STICKERS_PER_GRAPH: usize = 3;

/// A pixel position on the canvas.
pub type Px = (i32, i32);

/// A disc already taken on the canvas: centre and radius.
pub type Area = (i32, i32, u32);

/// Distances (pixels) and the attempt budget of the position search.
#[derive(Clone, Copy, Debug, PartialEq, Eq, Structural)]
pub struct StickerConfig {
    pub sticker_radius: u32,
    pub curve_avoidance_distance: u32,
    pub treatment_avoidance_distance: u32,
    pub max_attempts: usize,
}

pub open spec fn default_config() -> StickerConfig {
    StickerConfig {
        sticker_radius: 120,
        curve_avoidance_distance: 100,
        treatment_avoidance_distance: 120,
        max_attempts: 500,
    }
}

impl Default for StickerConfig {
    fn default() -> (r: Self)
        ensures
            r == default_config(),
    {
        StickerConfig {
            sticker_radius: 120,
            curve_avoidance_distance: 100,
            treatment_avoidance_distance: 120,
            max_attempts: 500,
        }
    }
}

/// A choice of sticker (index into the sticker list) and the range it
/// illustrates, if any.
pub type Choice = (usize, Option<(usize, usize)>);

/// A choice is a valid sticker, tied to one of `ranges` and of that range's
/// category or of the catch-all one, or tied to none and of the catch-all one.
pub open spec fn valid_choice(s: Seq<Sticker>, ranges: Seq<StatusRange>, c: Choice) -> bool {
    &&& c.0 < s.len()
    &&& match c.1 {
        Some((a, b)) => exists|k: int|
            0 <= k < ranges.len() && (#[trigger] ranges[k]).1 == a && ranges[k].2 == b && (
            s[c.0 as int].category == category_of(ranges[k].0) || s[c.0 as int].category
                == StickerCategory::Any),
        None => s[c.0 as int].category == StickerCategory::Any,
    }
}

fn pool_of(stickers: &[Sticker], category: StickerCategory) -> (r: Vec<usize>)
    ensures
        forall|i: int|
            0 <= i < r@.len() ==> (#[trigger] r@[i]) < stickers@.len() && stickers@[r@[i] as int].category
                == category,
        r@.len() > 0 <==> has_category(stickers@, category),
{
    let mut pool: Vec<usize> = Vec::new();
    let mut i: usize = 0;
    while i < stickers.len()
        invariant
            i <= stickers@.len(),
            forall|j: int|
                0 <= j < pool@.len() ==> (#[trigger] pool@[j]) < stickers@.len()
                    && stickers@[pool@[j] as int].category == category,
            pool@.len() > 0 <==> exists|j: int| 0 <= j < i && (#[trigger] stickers@[j]).category == category,
        decreases stickers@.len() - i,
    {
        if stickers[i].category == category {
            pool.push(i);
        }
        i += 1;
    }
    pool
}

fn count_status(ranges: &[StatusRange], status: GlucoseStatus) -> (r: usize)
    ensures
        r <= ranges@.len(),
{
    let mut n: usize = 0;
    let mut i: usize = 0;
    while i < ranges.len()
        invariant
            i <= ranges@.len(),
            n <= i,
        decreases ranges@.len() - i,
    {
        if ranges[i].0 == status {
            n += 1;
        }
        i += 1;
    }
    n
}

fn pick(pool: &Vec<usize>) -> (r: usize)
    requires
        pool@.len() > 0,
    ensures
        pool@.contains(r),
{
    let k = random_below(pool.len() as u64) as usize;
    pool[k]
}

/// Picks up to three stickers: while ranges remain, a random range and a
/// sticker of its category (or, three times in ten when several ranges share
/// the status, a catch-all one); then catch-all stickers tied to no range.
pub fn select_stickers_to_place(stickers: &[Sticker], status_ranges: &[StatusRange]) -> (r: Vec<Choice>)
    ensures
        r@.len() <= MAX_STICKERS_PER_GRAPH,
        forall|i: int| 0 <= i < r@.len() ==> valid_choice(stickers@, status_ranges@, #[trigger] r@[i]),
        forall|i: int, j: int| 0 <= i < j < r@.len() && (#[trigger] r@[i]).1 is None ==> (#[trigger] r@[j]).1 is None,
        has_category(stickers@, StickerCategory::Any) ==> r@.len() == MAX_STICKERS_PER_GRAPH,
        status_ranges@.len() > 0 && (forall|k: int|
            0 <= k < status_ranges@.len() ==> has_category(stickers@, category_of((#[trigger] status_ranges@[k]).0)))
            ==> r@.len() == MAX_STICKERS_PER_GRAPH,
        !has_category(stickers@, StickerCategory::Any) && status_ranges@.len() == 0 ==> r@.len() == 0,
{
    let low = pool_of(stickers, StickerCategory::Low);
    let in_range = pool_of(stickers, StickerCategory::InRange);
    let high = pool_of(stickers, StickerCategory::High);
    let any = pool_of(stickers, StickerCategory::Any);
    let mut chosen: Vec<Choice> = Vec::new();
    let mut stopped = false;
    while chosen.len() < MAX_STICKERS_PER_GRAPH && status_ranges.len() > 0 && !stopped
        invariant
            chosen@.len() <= MAX_STICKERS_PER_GRAPH,
            status_ranges@.len() == 0 ==> chosen@.len() == 0,
            forall|i: int| 0 <= i < chosen@.len() ==> valid_choice(stickers@, status_ranges@, #[trigger] chosen@[i]),
            forall|i: int| 0 <= i < chosen@.len() ==> (#[trigger] chosen@[i]).1 is Some,
            stopped ==> exists|k: int|
                0 <= k < status_ranges@.len() && !has_category(stickers@, category_of((#[trigger] status_ranges@[k]).0))
                    && !has_category(stickers@, StickerCategory::Any),
            forall|i: int| 0 <= i < low@.len() ==> (#[trigger] low@[i]) < stickers@.len() && stickers@[low@[i] as int].category == StickerCategory::Low,
            forall|i: int| 0 <= i < in_range@.len() ==> (#[trigger] in_range@[i]) < stickers@.len() && stickers@[in_range@[i] as int].category == StickerCategory::InRange,
            forall|i: int| 0 <= i < high@.len() ==> (#[trigger] high@[i]) < stickers@.len() && stickers@[high@[i] as int].category == StickerCategory::High,
            forall|i: int| 0 <= i < any@.len() ==> (#[trigger] any@[i]) < stickers@.len() && stickers@[any@[i] as int].category == StickerCategory::Any,
            low@.len() > 0 <==> has_category(stickers@, StickerCategory::Low),
            in_range@.len() > 0 <==> has_category(stickers@, StickerCategory::InRange),
            high@.len() > 0 <==> has_category(stickers@, StickerCategory::High),
            any@.len() > 0 <==> has_category(stickers@, StickerCategory::Any),
        decreases MAX_STICKERS_PER_GRAPH - chosen@.len() + if stopped { 0int } else { 1int },
    {
        let k = random_below(status_ranges.len() as u64) as usize;
        let (status, start, end) = status_ranges[k];
        let ctx = match status {
            GlucoseStatus::Low => &low,
            GlucoseStatus::InRange => &in_range,
            GlucoseStatus::High => &high,
        };
        assert(forall|i: int| 0 <= i < ctx@.len() ==> (#[trigger] ctx@[i]) < stickers@.len() && stickers@[ctx@[i] as int].category == category_of(status));
        assert(ctx@.len() > 0 <==> has_category(stickers@, category_of(status)));
        if ctx.len() == 0 && any.len() == 0 {
            stopped = true;
        } else {
            let shared = count_status(status_ranges, status) > 1;
            let use_any = shared && random_below(100) < 30;
            let s = if use_any && any.len() > 0 {
                pick(&any)
            } else if ctx.len() > 0 {
                pick(ctx)
            } else {
                pick(&any)
            };
            let ghost c: Choice = (s, Some((start, end)));
            assert(status_ranges@[k as int].1 == start && status_ranges@[k as int].2 == end);
            assert(valid_choice(stickers@, status_ranges@, c));
            chosen.push((s, Some((start, end))));
        }
    }
    let ghost first = chosen@.len();
    while chosen.len() < MAX_STICKERS_PER_GRAPH && any.len() > 0
        invariant
            first <= chosen@.len() <= MAX_STICKERS_PER_GRAPH,
            forall|i: int| 0 <= i < chosen@.len() ==> valid_choice(stickers@, status_ranges@, #[trigger] chosen@[i]),
            forall|i: int| 0 <= i < first ==> (#[trigger] chosen@[i]).1 is Some,
            forall|i: int| first <= i < chosen@.len() ==> (#[trigger] chosen@[i]).1 is None,
            forall|i: int| 0 <= i < any@.len() ==> (#[trigger] any@[i]) < stickers@.len() && stickers@[any@[i] as int].category == StickerCategory::Any,
            any@.len() > 0 <==> has_category(stickers@, StickerCategory::Any),
            first == MAX_STICKERS_PER_GRAPH || status_ranges@.len() == 0 || stopped,
            status_ranges@.len() == 0 ==> first == 0,
            stopped ==> exists|k: int|
                0 <= k < status_ranges@.len() && !has_category(stickers@, category_of((#[trigger] status_ranges@[k]).0))
                    && !has_category(stickers@, StickerCategory::Any),
            !has_category(stickers@, StickerCategory::Any) ==> chosen@.len() == first,
        decreases MAX_STICKERS_PER_GRAPH - chosen@.len(),
    {
        let s = pick(&any);
        chosen.push((s, None));
    }
    chosen
}


/// `v` clamped into `[lo, hi]`.
pub open spec fn clamp(v: int, lo: int, hi: int) -> int {
    if v < lo {
        lo
    } else if v > hi {
        hi
    } else {
        v
    }
}

/// The pixel at `n` thousandths of the way from `lo` to `hi`.
pub open spec fn to_pixel(n: int, lo: int, hi: int) -> int {
    lo + n * (hi - lo) / 1000
}

/// How many thousandths of the way from `lo` to `hi` pixel `p` lies, with `p`
/// clamped into that span.
pub open spec fn to_thousandths(p: int, lo: int, hi: int) -> int {
    (clamp(p, lo, hi) - lo) * 1000 / (hi - lo)
}

/// Squared distance between two points.
pub open spec fn dist2(ax: int, ay: int, bx: int, by: int) -> int {
    (ax - bx) * (ax - bx) + (ay - by) * (ay - by)
}

/// A disc of `radius` at `(x, y)` overlaps none of `areas`.
pub open spec fn clear_of_areas(x: int, y: int, areas: Seq<Area>, radius: int) -> bool {
    forall|k: int|
        0 <= k < areas.len() ==> dist2(x, y, (#[trigger] areas[k]).0 as int, areas[k].1 as int) >= (radius
            + areas[k].2) * (radius + areas[k].2)
}

/// `(x, y)` lies at least `d` away from each of `pts`.
pub open spec fn clear_of_points(x: int, y: int, pts: Seq<Px>, d: int) -> bool {
    forall|k: int|
        0 <= k < pts.len() ==> dist2(x, y, (#[trigger] pts[k]).0 as int, pts[k].1 as int) >= d * d
}

/// A sticker centred at `(x, y)` overlaps no placed sticker and keeps its
/// distance from the curve and from the treatment markers.
pub open spec fn acceptable(
    x: int,
    y: int,
    areas: Seq<Area>,
    curve: Seq<Px>,
    treatments: Seq<Px>,
    config: StickerConfig,
) -> bool {
    &&& clear_of_areas(x, y, areas, config.sticker_radius as int)
    &&& clear_of_points(x, y, curve, config.curve_avoidance_distance as int)
    &&& clear_of_points(x, y, treatments, config.treatment_avoidance_distance as int)
}

/// The random numbers one attempt of the search uses.
#[derive(Clone, Copy, Debug, PartialEq, Eq, Structural)]
pub struct Draws {
    /// Place above the target rather than below.
    pub flip: bool,
    /// Thousandths, below 1000.
    pub u: u64,
    /// Thousandths, below 1000.
    pub v: u64,
    /// Canvas quadrant, below 4.
    pub quadrant: u64,
}

pub open spec fn draws_ok(d: Draws) -> bool {
    d.u < 1000 && d.v < 1000 && d.quadrant < 4
}

/// How far (thousandths) the search has widened at `attempt` out of `max`.
pub open spec fn expansion(attempt: int, max: int) -> int {
    attempt * 500 / max
}

/// The candidate position (thousandths of the inner plot, from its top left)
/// of one attempt. Near a target: above or below it, a widening distance
/// away, with a widening sideways jitter. With no target: a random spot in a
/// random quadrant for the first half of the attempts, then anywhere in the
/// middle of the plot.
pub open spec fn candidate(target: Option<(int, int)>, attempt: int, max: int, d: Draws) -> (int, int) {
    let e = expansion(attempt, max);
    match target {
        Some((tx, ty)) => {
            let vertical = 200 + e;
            let dy = if d.flip {
                -vertical
            } else {
                vertical
            };
            let hr = 150 + e;
            let dx = d.u * hr / 1000 - hr / 2;
            (clamp(tx + dx, 50, 950), clamp(ty + dy, 50, 950))
        },
        None => if attempt < max / 2 {
            let bx = if d.quadrant % 2 == 0 {
                100int
            } else {
                600int
            };
            let by = if d.quadrant < 2 {
                100int
            } else {
                600int
            };
            (bx + d.u * 300 / 1000, by + d.v * 300 / 1000)
        } else {
            (200 + d.u * 600 / 1000, 200 + d.v * 600 / 1000)
        },
    }
}

proof fn lemma_scaled(n: int, den: int, span: int)
    requires
        0 <= n <= den,
        0 < den,
        0 <= span,
    ensures
        0 <= n * span / den <= span,
        0 <= n * span,
{
    lemma_mul_inequality(0, n, span);
    lemma_mul_inequality(n, den, span);
    lemma_div_pos_is_pos(n * span, den);
    lemma_div_is_ordered(n * span, den * span, den);
    assert(den * span == span * den) by (nonlinear_arith);
    lemma_div_multiples_vanish(span, den);
}

fn clamp_exec(v: i64, lo: i64, hi: i64) -> (r: i64)
    requires
        lo <= hi,
    ensures
        r == clamp(v as int, lo as int, hi as int),
        lo <= r <= hi,
{
    if v < lo {
        lo
    } else if v > hi {
        hi
    } else {
        v
    }
}

/// The candidate of one attempt; see `candidate`.
pub fn candidate_position(target: Option<(i64, i64)>, attempt: usize, max_attempts: usize, d: Draws) -> (r: (
    i64,
    i64,
))
    requires
        attempt < max_attempts,
        draws_ok(d),
        target matches Some((tx, ty)) ==> 0 <= tx <= 1000 && 0 <= ty <= 1000,
    ensures
        (r.0 as int, r.1 as int) == candidate(
            match target {
                Some((tx, ty)) => Some((tx as int, ty as int)),
                None => None,
            },
            attempt as int,
            max_attempts as int,
            d,
        ),
        0 <= r.0 <= 1000,
        0 <= r.1 <= 1000,
        target is Some ==> 50 <= r.0 <= 950 && 50 <= r.1 <= 950,
        target is None ==> 100 <= r.0 <= 900 && 100 <= r.1 <= 900,
{
    proof {
        lemma_scaled(attempt as int, max_attempts as int, 500);
        assert(attempt as int * 500 == 500 * attempt as int) by (nonlinear_arith);
        lemma_scaled(d.u as int, 1000, 300);
        lemma_scaled(d.v as int, 1000, 300);
        lemma_scaled(d.u as int, 1000, 600);
        lemma_scaled(d.v as int, 1000, 600);
    }
    let e: i64 = ((attempt as u128 * 500) / max_attempts as u128) as i64;
    match target {
        Some((tx, ty)) => {
            let vertical: i64 = 200 + e;
            let dy: i64 = if d.flip {
                -vertical
            } else {
                vertical
            };
            let hr: i64 = 150 + e;
            proof {
                lemma_scaled(d.u as int, 1000, hr as int);
            }
            let dx: i64 = (d.u as i64) * hr / 1000 - hr / 2;
            (clamp_exec(tx + dx, 50, 950), clamp_exec(ty + dy, 50, 950))
        },
        None => {
            if attempt < max_attempts / 2 {
                let bx: i64 = if d.quadrant % 2 == 0 {
                    100
                } else {
                    600
                };
                let by: i64 = if d.quadrant < 2 {
                    100
                } else {
                    600
                };
                (bx + (d.u as i64) * 300 / 1000, by + (d.v as i64) * 300 / 1000)
            } else {
                (200 + (d.u as i64) * 600 / 1000, 200 + (d.v as i64) * 600 / 1000)
            }
        },
    }
}

/// Pixel at `n` thousandths of the way from `lo` to `hi`.
pub fn to_pixel_exec(n: i64, lo: i32, hi: i32) -> (r: i32)
    requires
        0 <= n <= 1000,
        lo < hi,
    ensures
        r == to_pixel(n as int, lo as int, hi as int),
        lo <= r <= hi,
{
    let span: i64 = hi as i64 - lo as i64;
    proof {
        lemma_scaled(n as int, 1000, span as int);
        lemma_mul_inequality(n as int, 1000, span as int);
    }
    let off: i64 = n * span / 1000;
    (lo as i64 + off) as i32
}

/// Thousandths of the way from `lo` to `hi` at which pixel `p` lies, clamped.
pub fn to_thousandths_exec(p: i32, lo: i32, hi: i32) -> (r: i64)
    requires
        lo < hi,
    ensures
        r == to_thousandths(p as int, lo as int, hi as int),
        0 <= r <= 1000,
{
    let c = clamp_exec(p as i64, lo as i64, hi as i64);
    let span: i64 = hi as i64 - lo as i64;
    proof {
        lemma_mul_inequality(0, c - lo, 1000);
        lemma_mul_inequality(c - lo, span as int, 1000);
        lemma_div_pos_is_pos((c - lo) * 1000, span as int);
        lemma_div_is_ordered((c - lo) * 1000, span * 1000, span as int);
        assert(span * 1000 == 1000 * span) by (nonlinear_arith);
        lemma_div_multiples_vanish(1000, span as int);
    }
    (c - lo as i64) * 1000 / span
}

fn square(d: i64) -> (r: i128)
    requires
        -0x4_0000_0000 <= d <= 0x4_0000_0000,
    ensures
        r == d * d,
        0 <= r <= 0x10_0000_0000_0000_0000,
{
    proof {
        assert(0 <= d * d <= 0x10_0000_0000_0000_0000) by (nonlinear_arith)
            requires
                -0x4_0000_0000 <= d <= 0x4_0000_0000,
        ;
    }
    (d as i128) * (d as i128)
}

fn dist2_exec(ax: i32, ay: i32, bx: i32, by: i32) -> (r: i128)
    ensures
        r == dist2(ax as int, ay as int, bx as int, by as int),
{
    square(ax as i64 - bx as i64) + square(ay as i64 - by as i64)
}

fn clear_of_areas_exec(x: i32, y: i32, areas: &[Area], radius: u32) -> (r: bool)
    ensures
        r == clear_of_areas(x as int, y as int, areas@, radius as int),
{
    let mut k: usize = 0;
    while k < areas.len()
        invariant
            k <= areas@.len(),
            forall|j: int|
                0 <= j < k ==> dist2(x as int, y as int, (#[trigger] areas@[j]).0 as int, areas@[j].1 as int)
                    >= (radius + areas@[j].2) * (radius + areas@[j].2),
        decreases areas@.len() - k,
    {
        let (ax, ay, ar) = areas[k];
        let reach = square(radius as i64 + ar as i64);
        if dist2_exec(x, y, ax, ay) < reach {
            return false;
        }
        k += 1;
    }
    true
}

fn clear_of_points_exec(x: i32, y: i32, pts: &[Px], d: u32) -> (r: bool)
    ensures
        r == clear_of_points(x as int, y as int, pts@, d as int),
{
    let reach = square(d as i64);
    let mut k: usize = 0;
    while k < pts.len()
        invariant
            k <= pts@.len(),
            reach == d * d,
            forall|j: int|
                0 <= j < k ==> dist2(x as int, y as int, (#[trigger] pts@[j]).0 as int, pts@[j].1 as int) >= d * d,
        decreases pts@.len() - k,
    {
        let (px, py) = pts[k];
        if dist2_exec(x, y, px, py) < reach {
            return false;
        }
        k += 1;
    }
    true
}

/// Whether a sticker centred at `(x, y)` is acceptable; see `acceptable`.
pub fn is_acceptable(
    x: i32,
    y: i32,
    areas: &[Area],
    curve: &[Px],
    treatments: &[Px],
    config: &StickerConfig,
) -> (r: bool)
    ensures
        r == acceptable(x as int, y as int, areas@, curve@, treatments@, *config),
{
    clear_of_areas_exec(x, y, areas, config.sticker_radius) && clear_of_points_exec(
        x,
        y,
        curve,
        config.curve_avoidance_distance,
    ) && clear_of_points_exec(x, y, treatments, config.treatment_avoidance_distance)
}


fn draw() -> (d: Draws)
    ensures
        draws_ok(d),
{
    Draws { flip: random_bool(), u: random_below(1000), v: random_below(1000), quadrant: random_below(4) }
}

/// Every spot of the inner plot is acceptable.
pub open spec fn all_acceptable(
    areas: Seq<Area>,
    curve: Seq<Px>,
    treatments: Seq<Px>,
    left: int,
    right: int,
    top: int,
    bottom: int,
    config: StickerConfig,
) -> bool {
    forall|x: int, y: int|
        0 <= x <= 1000 && 0 <= y <= 1000 ==> #[trigger] acceptable(
            to_pixel(x, left, right),
            to_pixel(y, top, bottom),
            areas,
            curve,
            treatments,
            config,
        )
}

/// Searches up to `config.max_attempts` random candidates for a position where
/// a sticker is acceptable, near a random sample of `range` when one is given.
/// The position is in thousandths of the inner plot from its top left corner;
/// `None` means the budget ran out, which is no error.
pub fn find_sticker_position(
    range: Option<(usize, usize)>,
    points_px: &[Px],
    occupied_areas: &[Area],
    treatment_positions: &[Px],
    inner_plot_left: i32,
    inner_plot_right: i32,
    inner_plot_top: i32,
    inner_plot_bottom: i32,
    config: &StickerConfig,
) -> (r: Option<(i64, i64)>)
    requires
        inner_plot_left < inner_plot_right,
        inner_plot_top < inner_plot_bottom,
        range matches Some((a, b)) ==> a <= b < points_px@.len(),
    ensures
        config.max_attempts == 0 ==> r is None,
        config.max_attempts > 0 && all_acceptable(
            occupied_areas@,
            points_px@,
            treatment_positions@,
            inner_plot_left as int,
            inner_plot_right as int,
            inner_plot_top as int,
            inner_plot_bottom as int,
            *config,
        ) ==> r is Some,
        r matches Some((x, y)) ==> {
            &&& 0 <= x <= 1000
            &&& 0 <= y <= 1000
            &&& range is Some ==> 50 <= x <= 950 && 50 <= y <= 950
            &&& range is None ==> 100 <= x <= 900 && 100 <= y <= 900
            &&& acceptable(
                to_pixel(x as int, inner_plot_left as int, inner_plot_right as int),
                to_pixel(y as int, inner_plot_top as int, inner_plot_bottom as int),
                occupied_areas@,
                points_px@,
                treatment_positions@,
                *config,
            )
        },
{
    let target: Option<(i64, i64)> = match range {
        Some((start, end)) => {
            let n: usize = points_px.len();
            assert(end < n);
            let off = random_below((end - start + 1) as u64);
            let idx = start + off as usize;
            let (px, py) = points_px[idx];
            Some(
                (
                    to_thousandths_exec(px, inner_plot_left, inner_plot_right),
                    to_thousandths_exec(py, inner_plot_top, inner_plot_bottom),
                ),
            )
        },
        None => None,
    };
    let mut attempt: usize = 0;
    while attempt < config.max_attempts
        invariant
            inner_plot_left < inner_plot_right,
            inner_plot_top < inner_plot_bottom,
            target matches Some((tx, ty)) ==> 0 <= tx <= 1000 && 0 <= ty <= 1000,
            target is Some <==> range is Some,
            all_acceptable(
                occupied_areas@,
                points_px@,
                treatment_positions@,
                inner_plot_left as int,
                inner_plot_right as int,
                inner_plot_top as int,
                inner_plot_bottom as int,
                *config,
            ) ==> attempt == 0,
        decreases config.max_attempts - attempt,
    {
        let (x, y) = candidate_position(target, attempt, config.max_attempts, draw());
        assert(0 <= x <= 1000 && 0 <= y <= 1000);
        let ax = to_pixel_exec(x, inner_plot_left, inner_plot_right);
        let ay = to_pixel_exec(y, inner_plot_top, inner_plot_bottom);
        if is_acceptable(ax, ay, occupied_areas, points_px, treatment_positions, config) {
            return Some((x, y));
        }
        attempt += 1;
    }
    None
}

/// A sticker placed on the chart: its index in the sticker list and its
/// centre in pixels.
#[derive(Clone, Copy, Debug, PartialEq, Eq, Structural)]
pub struct Placement {
    pub sticker: usize,
    pub x: i32,
    pub y: i32,
}

/// The discs of `radius` around the placements overlap pairwise nowhere: the
/// distance of two centres is at least the sum of the radii.
pub open spec fn placements_apart(p: Seq<Placement>, radius: int) -> bool {
    forall|i: int, j: int|
        0 <= i < j < p.len() ==> dist2((#[trigger] p[i]).x as int, p[i].y as int, (#[trigger] p[j]).x as int, p[j].y as int)
            >= (radius + radius) * (radius + radius)
}

/// Selects stickers for the ranges and places each where it is acceptable;
/// a sticker that finds no position is skipped.
pub fn place_stickers(
    stickers: &[Sticker],
    status_ranges: &[StatusRange],
    points_px: &[Px],
    treatment_positions: &[Px],
    inner_plot_left: i32,
    inner_plot_right: i32,
    inner_plot_top: i32,
    inner_plot_bottom: i32,
    config: &StickerConfig,
) -> (r: Vec<Placement>)
    requires
        inner_plot_left < inner_plot_right,
        inner_plot_top < inner_plot_bottom,
        forall|k: int|
            0 <= k < status_ranges@.len() ==> (#[trigger] status_ranges@[k]).1 <= status_ranges@[k].2 < points_px@.len(),
    ensures
        r@.len() <= MAX_STICKERS_PER_GRAPH,
        config.max_attempts > 0 && points_px@.len() == 0 && treatment_positions@.len() == 0 && has_category(
            stickers@,
            StickerCategory::Any,
        ) ==> r@.len() >= 1,
        placements_apart(r@, config.sticker_radius as int),
        forall|i: int|
            0 <= i < r@.len() ==> {
                &&& (#[trigger] r@[i]).sticker < stickers@.len()
                &&& inner_plot_left <= r@[i].x <= inner_plot_right
                &&& inner_plot_top <= r@[i].y <= inner_plot_bottom
                &&& clear_of_points(r@[i].x as int, r@[i].y as int, points_px@, config.curve_avoidance_distance as int)
                &&& clear_of_points(
                    r@[i].x as int,
                    r@[i].y as int,
                    treatment_positions@,
                    config.treatment_avoidance_distance as int,
                )
            },
{
    let choices = select_stickers_to_place(stickers, status_ranges);
    let mut placed: Vec<Placement> = Vec::new();
    let mut occupied: Vec<Area> = Vec::new();
    let mut i: usize = 0;
    while i < choices.len()
        invariant
            inner_plot_left < inner_plot_right,
            inner_plot_top < inner_plot_bottom,
            forall|k: int|
                0 <= k < status_ranges@.len() ==> (#[trigger] status_ranges@[k]).1 <= status_ranges@[k].2 < points_px@.len(),
            forall|c: int| 0 <= c < choices@.len() ==> valid_choice(stickers@, status_ranges@, #[trigger] choices@[c]),
            choices@.len() <= MAX_STICKERS_PER_GRAPH,
            has_category(stickers@, StickerCategory::Any) ==> choices@.len() == MAX_STICKERS_PER_GRAPH,
            config.max_attempts > 0 && points_px@.len() == 0 && treatment_positions@.len() == 0 && has_category(
                stickers@,
                StickerCategory::Any,
            ) && i > 0 ==> placed@.len() >= 1,
            i <= choices@.len(),
            placed@.len() <= i,
            occupied@.len() == placed@.len(),
            forall|k: int|
                0 <= k < placed@.len() ==> #[trigger] occupied@[k] == (placed@[k].x, placed@[k].y, config.sticker_radius),
            placements_apart(placed@, config.sticker_radius as int),
            forall|k: int|
                0 <= k < placed@.len() ==> {
                    &&& (#[trigger] placed@[k]).sticker < stickers@.len()
                    &&& inner_plot_left <= placed@[k].x <= inner_plot_right
                    &&& inner_plot_top <= placed@[k].y <= inner_plot_bottom
                    &&& clear_of_points(
                        placed@[k].x as int,
                        placed@[k].y as int,
                        points_px@,
                        config.curve_avoidance_distance as int,
                    )
                    &&& clear_of_points(
                        placed@[k].x as int,
                        placed@[k].y as int,
                        treatment_positions@,
                        config.treatment_avoidance_distance as int,
                    )
                },
        decreases choices@.len() - i,
    {
        let (sticker, range) = choices[i];
        assert(valid_choice(stickers@, status_ranges@, choices@[i as int]));
        proof {
            if points_px@.len() == 0 && treatment_positions@.len() == 0 && i == 0 {
                assert forall|x: int, y: int| 0 <= x <= 1000 && 0 <= y <= 1000 implies #[trigger] acceptable(
                    to_pixel(x, inner_plot_left as int, inner_plot_right as int),
                    to_pixel(y, inner_plot_top as int, inner_plot_bottom as int),
                    occupied@,
                    points_px@,
                    treatment_positions@,
                    *config,
                ) by {}
            }
        }
        let found = find_sticker_position(
            range,
            points_px,
            occupied.as_slice(),
            treatment_positions,
            inner_plot_left,
            inner_plot_right,
            inner_plot_top,
            inner_plot_bottom,
            config,
        );
        if let Some((nx, ny)) = found {
            let x = to_pixel_exec(nx, inner_plot_left, inner_plot_right);
            let y = to_pixel_exec(ny, inner_plot_top, inner_plot_bottom);
            let ghost before = placed@;
            let ghost areas = occupied@;
            let p = Placement { sticker, x, y };
            placed.push(p);
            occupied.push((x, y, config.sticker_radius));
            proof {
                assert forall|a: int, b: int| 0 <= a < b < placed@.len() implies dist2(
                    (#[trigger] placed@[a]).x as int,
                    placed@[a].y as int,
                    (#[trigger] placed@[b]).x as int,
                    placed@[b].y as int,
                ) >= (config.sticker_radius + config.sticker_radius) * (config.sticker_radius
                    + config.sticker_radius) by {
                    if b == placed@.len() - 1 {
                        assert(areas[a] == (before[a].x, before[a].y, config.sticker_radius));
                        assert(dist2(x as int, y as int, areas[a].0 as int, areas[a].1 as int) >= (
                        config.sticker_radius + areas[a].2) * (config.sticker_radius + areas[a].2));
                        assert(dist2(x as int, y as int, before[a].x as int, before[a].y as int) == dist2(
                            before[a].x as int,
                            before[a].y as int,
                            x as int,
                            y as int,
                        )) by (nonlinear_arith);
                    } else {
                        assert(placed@[a] == before[a] && placed@[b] == before[b]);
                    }
                }
            }
        }
        i += 1;
    }
    placed
}

} // verus!
