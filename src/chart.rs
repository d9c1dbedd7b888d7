//! Composes a chart: reconciles the samples, segments them, projects them
//! onto the canvas, lays out labels and treatment markers and places the
//! stickers. The result is a plan of what to draw where, in pixels.
use vstd::prelude::*;
use crate::clock::{chrono_millis_ok, local_day_number, local_day_of, millis_representable, parse_rfc3339_millis, rfc3339_millis};
use crate::labels::{select_time_labels, time_labels as label_choice};
use crate::nightscout::{instant_of, store_index, Entry, Profile, ProfileStore, Treatment};
use crate::projection::{axis_range, grid_start_step, label_interval_minutes, max_sgv, y_axis_range, y_grid_values};
use crate::reconcile::{cutoff_of, default_tolerance, lemma_dedup_nonempty, reconciled, window_of, Nightscout};
use crate::segments::{filter_ranges_by_duration_at, identify_status_ranges, lemma_kept_ranges_from, SIGNIFICANT_RANGE_MINUTES};
use crate::stickers::{clear_of_points, dist2, place_stickers, placements_apart, Placement, StickerConfig, MAX_STICKERS_PER_GRAPH};
use crate::projection::Projection;
use crate::segments::{secs_floor, secs_of};
use crate::stickers::Px;
use crate::text::{lower_of, str_eq, to_lower};
use crate::types::{status_of, GlucoseStatus, NightscoutInfo, PrefUnit, Sticker};

verus! {

/// Canvas size in pixels.
pub const CANVAS_WIDTH: u32 = 1700;
pub const CANVAS_HEIGHT: u32 = 1100;
/// The plot rectangle, inside the margins, where the axes are drawn.
pub const PLOT_LEFT: i32 = 160;
pub const PLOT_RIGHT: i32 = 1620;
pub const PLOT_TOP: i32 = 80;
pub const PLOT_BOTTOM: i32 = 940;
/// The inner rectangle, padded inside the plot, that holds every element.
pub const INNER_LEFT: i32 = 180;
pub const INNER_RIGHT: i32 = 1600;
pub const INNER_TOP: i32 = 100;
pub const INNER_BOTTOM: i32 = 920;
/// Thresholds (hundredths of mg/dL) where the profile gives none.
pub const DEFAULT_TARGET_LOW: u64 = 7000;
pub const DEFAULT_TARGET_HIGH: u64 = 18000;
/// Most time labels, and their least distance apart in pixels.
pub const MAX_TIME_LABELS: usize = 6;
pub const MIN_LABEL_DISTANCE: i32 = 160;

/// Why no chart could be made, or why one sticker was left out.
#[derive(Clone, Copy, Debug, PartialEq, Eq, Structural)]
pub enum RenderError {
    /// No sample survives windowing and deduplication.
    NoData,
    /// The profile store lacks the default profile.
    MissingProfile,
    /// A sticker image could not be fetched or decoded.
    AssetUnavailable,
}

/// The unit a lower-cased unit name selects: mmol/L for `mmol/l` or `mmol`,
/// mg/dL for anything else.
pub open spec fn unit_named(lowered: Seq<char>) -> PrefUnit {
    if lowered == "mmol/l"@ || lowered == "mmol"@ {
        PrefUnit::Mmol
    } else {
        PrefUnit::MgDl
    }
}

/// The unit a lower-cased unit name selects; see `unit_named`.
pub fn pref_unit_of(lowered: &str) -> (r: PrefUnit)
    ensures
        r == unit_named(lowered@),
{
    if str_eq(lowered, "mmol/l") || str_eq(lowered, "mmol") {
        PrefUnit::Mmol
    } else {
        PrefUnit::MgDl
    }
}

/// The display unit of a profile: by its unit name, case-insensitively;
/// mg/dL where it names none.
pub fn pref_unit(units: &Option<String>) -> (r: PrefUnit)
    ensures
        r == match units {
            Some(u) => unit_named(lower_of(u@)),
            None => PrefUnit::MgDl,
        },
{
    match units {
        Some(u) => {
            let lowered = to_lower(u.as_str());
            pref_unit_of(lowered.as_str())
        },
        None => PrefUnit::MgDl,
    }
}

/// The instant of a treatment: its RFC 3339 creation time, else its raw
/// timestamp (with `now` where chrono cannot represent it); `None` where it
/// has neither or the creation time does not parse.
pub open spec fn treatment_instant(t: Treatment, now: int) -> Option<int> {
    match t.created_at {
        Some(s) => match rfc3339_millis(s@) {
            Some(m) => Some(m as int),
            None => None,
        },
        None => match (match t.date {
            Some(d) => Some(d),
            None => t.mills,
        }) {
            Some(ms) => if ms <= i64::MAX && chrono_millis_ok(ms as i64) {
                Some(ms as int)
            } else {
                Some(now)
            },
            None => None,
        },
    }
}

pub fn treatment_instant_millis(t: &Treatment, now_ms: i64) -> (r: Option<i64>)
    ensures
        match r {
            Some(m) => treatment_instant(*t, now_ms as int) == Some(m as int),
            None => treatment_instant(*t, now_ms as int) is None,
        },
{
    match &t.created_at {
        Some(s) => parse_rfc3339_millis(s.as_str()),
        None => {
            let raw = match t.date {
                Some(d) => Some(d),
                None => t.mills,
            };
            match raw {
                Some(ms) => if ms <= i64::MAX as u64 && millis_representable(ms as i64) {
                    Some(ms as i64)
                } else {
                    Some(now_ms)
                },
                None => None,
            }
        },
    }
}

/// Seconds between two millisecond instants, each rounded down to seconds.
pub open spec fn secs_apart(a: int, b: int) -> int {
    let d = secs_of(a) - secs_of(b);
    if d >= 0 {
        d
    } else {
        -d
    }
}

/// Index `i` of `inst` is the first closest (in whole seconds) to `t`.
pub open spec fn is_nearest(inst: Seq<i64>, t: int, i: int) -> bool {
    &&& 0 <= i < inst.len()
    &&& forall|j: int| 0 <= j < inst.len() ==> secs_apart(t, inst[i] as int) <= secs_apart(t, #[trigger] inst[j] as int)
    &&& forall|j: int| 0 <= j < i ==> secs_apart(t, inst[i] as int) < secs_apart(t, #[trigger] inst[j] as int)
}

/// The first sample closest in time to `t`.
pub open spec fn nearest_of(inst: Seq<i64>, t: int) -> int {
    choose|i: int| is_nearest(inst, t, i)
}

proof fn lemma_nearest_unique(inst: Seq<i64>, t: int, i: int)
    requires
        is_nearest(inst, t, i),
    ensures
        nearest_of(inst, t) == i,
{
    let j = nearest_of(inst, t);
    assert(is_nearest(inst, t, j));
    if j < i {
        assert(secs_apart(t, inst[i] as int) < secs_apart(t, inst[j] as int));
    } else if i < j {
        assert(secs_apart(t, inst[j] as int) < secs_apart(t, inst[i] as int));
    }
}

fn secs_apart_exec(a: i64, b: i64) -> (r: i128)
    ensures
        r == secs_apart(a as int, b as int),
{
    let d: i128 = secs_floor(a) as i128 - secs_floor(b) as i128;
    if d >= 0 {
        d
    } else {
        -d
    }
}

/// The first sample closest in time to `t`.
pub fn nearest_index(inst: &Vec<i64>, t: i64) -> (r: usize)
    requires
        inst@.len() > 0,
    ensures
        is_nearest(inst@, t as int, r as int),
        r as int == nearest_of(inst@, t as int),
{
    let mut best: usize = 0;
    let mut best_d = secs_apart_exec(t, inst[0]);
    let mut j: usize = 1;
    while j < inst.len()
        invariant
            1 <= j <= inst@.len(),
            best < j,
            best_d == secs_apart(t as int, inst@[best as int] as int),
            forall|k: int| 0 <= k < j ==> best_d <= secs_apart(t as int, #[trigger] inst@[k] as int),
            forall|k: int| 0 <= k < best ==> best_d < secs_apart(t as int, #[trigger] inst@[k] as int),
        decreases inst@.len() - j,
    {
        let d = secs_apart_exec(t, inst[j]);
        if d < best_d {
            best = j;
            best_d = d;
        }
        j += 1;
    }
    proof {
        lemma_nearest_unique(inst@, t as int, best as int);
    }
    best
}


/// An insulin dose drawn as a triangle below the curve.
#[derive(Clone, Copy, Debug, PartialEq, Eq, Structural)]
pub struct InsulinMarker {
    pub treatment: usize,
    pub x: i32,
    pub y: i32,
    /// Half the triangle's width in pixels.
    pub size: i32,
    /// Hundredths of a unit.
    pub amount: u64,
    /// Micro-doses are drawn small and without a label.
    pub micro: bool,
}

/// A carbohydrate intake drawn as a disc above the curve.
#[derive(Clone, Copy, Debug, PartialEq, Eq, Structural)]
pub struct CarbsMarker {
    pub treatment: usize,
    pub x: i32,
    pub y: i32,
    pub radius: i32,
    /// Whole grams, for the label.
    pub grams: u64,
}

/// A finger-stick reading drawn at its own value.
#[derive(Clone, Copy, Debug, PartialEq, Eq, Structural)]
pub struct ReadingMarker {
    pub x: i32,
    pub y: i32,
    /// Hundredths of mg/dL.
    pub value: u64,
}

/// Marks of the treatments, and the points stickers keep away from.
pub struct TreatmentMarks {
    pub insulin: Vec<InsulinMarker>,
    pub carbs: Vec<CarbsMarker>,
    pub readings: Vec<ReadingMarker>,
    pub positions: Vec<Px>,
}

/// A treatment is a finger-stick check with a value.
pub open spec fn finger_reading(t: Treatment) -> bool {
    &&& t.glucose is Some
    &&& match t.glucose_type {
        Some(g) => g@ == "Finger"@,
        None => false,
    }
}

/// Where each treatment with an instant sits: its projected column and the row
/// of the nearest sample. Stickers keep away from these points.
pub open spec fn treatment_anchors(tr: Seq<Treatment>, inst: Seq<i64>, pts: Seq<Px>, p: Projection, now: int) -> Seq<Px>
    decreases tr.len(),
{
    if tr.len() == 0 {
        Seq::empty()
    } else {
        let a = treatment_anchors(tr.drop_last(), inst, pts, p, now);
        match treatment_instant(tr.last(), now) {
            Some(t) => a.push((p.x_of(t) as i32, pts[nearest_of(inst, t)].1)),
            None => a,
        }
    }
}

/// Finger-stick markers: at the check's projected instant and its own value.
pub open spec fn treatment_readings(tr: Seq<Treatment>, p: Projection, now: int) -> Seq<ReadingMarker>
    decreases tr.len(),
{
    if tr.len() == 0 {
        Seq::empty()
    } else {
        let a = treatment_readings(tr.drop_last(), p, now);
        match treatment_instant(tr.last(), now) {
            Some(t) => if finger_reading(tr.last()) {
                let g = tr.last().glucose.unwrap();
                a.push(ReadingMarker { x: p.x_of(t) as i32, y: p.y_of(g as int) as i32, value: g })
            } else {
                a
            },
            None => a,
        }
    }
}

/// Meter readings of the samples: at the sample's column and the meter value.
pub open spec fn meter_anchors(tl: Seq<Entry>, pts: Seq<Px>, p: Projection) -> Seq<Px>
    decreases tl.len(),
{
    if tl.len() == 0 {
        Seq::empty()
    } else {
        let a = meter_anchors(tl.drop_last(), pts, p);
        match tl.last().mbg {
            Some(v) => if v > 0 {
                a.push((pts[tl.len() - 1].0, p.y_of(v as int) as i32))
            } else {
                a
            },
            None => a,
        }
    }
}

/// Markers of the meter readings of the samples.
pub open spec fn meter_readings(tl: Seq<Entry>, pts: Seq<Px>, p: Projection) -> Seq<ReadingMarker>
    decreases tl.len(),
{
    if tl.len() == 0 {
        Seq::empty()
    } else {
        let a = meter_readings(tl.drop_last(), pts, p);
        match tl.last().mbg {
            Some(v) => if v > 0 {
                a.push(ReadingMarker { x: pts[tl.len() - 1].0, y: p.y_of(v as int) as i32, value: v as u64 })
            } else {
                a
            },
            None => a,
        }
    }
}

/// A dose counts as a micro-dose where it is marked `SMB` or is at most the
/// threshold (hundredths of a unit).
pub open spec fn micro_dose(t: Treatment, threshold: int) -> bool {
    (match t.type_ {
        Some(s) => s@ == "SMB"@,
        None => false,
    }) || (match t.insulin {
        Some(v) => v <= threshold,
        None => false,
    })
}

/// Triangle size for a dose: small for micro-doses, growing with the amount
/// above the threshold.
pub open spec fn insulin_size(amount: int, micro: bool, threshold: int) -> int {
    if micro {
        8
    } else if amount <= threshold + 100 {
        12
    } else if amount <= threshold + 500 {
        18
    } else {
        30
    }
}

/// Disc radius for an intake (hundredths of a gram).
pub open spec fn carbs_radius(c: int) -> int {
    if c < 50 {
        8
    } else if c <= 200 {
        14
    } else {
        24
    }
}

/// A treatment gets an insulin marker: it has an instant and a dose, and is
/// no micro-dose hidden by the settings.
pub open spec fn shows_insulin(t: Treatment, s: NightscoutInfo, now: int) -> bool {
    &&& treatment_instant(t, now) is Some
    &&& t.insulin matches Some(v) && v > 0
    &&& !(micro_dose(t, s.microbolus_threshold as int) && !s.display_microbolus)
}

/// A treatment gets a carbohydrate marker.
pub open spec fn shows_carbs(t: Treatment, now: int) -> bool {
    &&& treatment_instant(t, now) is Some
    &&& t.carbs matches Some(c) && c > 0
}

/// Marker `m` is right for treatment `m.treatment`: at its projected instant,
/// 70 pixels below the nearest sample, sized by its dose.
pub open spec fn insulin_marker_ok(
    m: InsulinMarker,
    tr: Seq<Treatment>,
    s: NightscoutInfo,
    inst: Seq<i64>,
    pts: Seq<Px>,
    p: Projection,
    now: int,
) -> bool {
    &&& m.treatment < tr.len()
    &&& shows_insulin(tr[m.treatment as int], s, now)
    &&& m.x == p.x_of(treatment_instant(tr[m.treatment as int], now).unwrap())
    &&& exists|k: int|
        is_nearest(inst, treatment_instant(tr[m.treatment as int], now).unwrap(), k) && m.y == (#[trigger] pts[k]).1
            + 70
    &&& Some(m.amount) == tr[m.treatment as int].insulin
    &&& m.micro == micro_dose(tr[m.treatment as int], s.microbolus_threshold as int)
    &&& m.size == insulin_size(m.amount as int, m.micro, s.microbolus_threshold as int)
}

/// Marker `m` is right for treatment `m.treatment`: at its projected instant,
/// 70 pixels above the nearest sample, sized by its amount.
pub open spec fn carbs_marker_ok(m: CarbsMarker, tr: Seq<Treatment>, inst: Seq<i64>, pts: Seq<Px>, p: Projection, now: int) -> bool {
    &&& m.treatment < tr.len()
    &&& shows_carbs(tr[m.treatment as int], now)
    &&& m.x == p.x_of(treatment_instant(tr[m.treatment as int], now).unwrap())
    &&& exists|k: int|
        is_nearest(inst, treatment_instant(tr[m.treatment as int], now).unwrap(), k) && m.y == (#[trigger] pts[k]).1
            - 70
    &&& m.radius == carbs_radius(tr[m.treatment as int].carbs.unwrap() as int)
    &&& m.grams == tr[m.treatment as int].carbs.unwrap() / 100
}

fn is_smb(t: &Treatment) -> (r: bool)
    ensures
        r == match t.type_ {
            Some(s) => s@ == "SMB"@,
            None => false,
        },
{
    match &t.type_ {
        Some(s) => str_eq(s.as_str(), "SMB"),
        None => false,
    }
}

/// Positions and sizes of the treatment markers. Each insulin dose and each
/// intake with an instant gets a marker at its projected instant, offset
/// from the nearest sample; hidden micro-doses get none. Finger-stick checks
/// and meter readings are drawn at their own value.
pub fn mark_treatments(
    treatments: &[Treatment],
    timeline: &[Entry],
    inst: &Vec<i64>,
    pts: &Vec<Px>,
    proj: &Projection,
    settings: &NightscoutInfo,
    now_ms: i64,
) -> (r: TreatmentMarks)
    requires
        proj.valid(),
        inst@.len() > 0,
        inst@.len() == pts@.len(),
        timeline@.len() == pts@.len(),
        forall|k: int| 0 <= k < pts@.len() ==> INNER_TOP <= (#[trigger] pts@[k]).1 <= INNER_BOTTOM,
    ensures
        forall|i: int|
            0 <= i < r.insulin@.len() ==> insulin_marker_ok(
                #[trigger] r.insulin@[i],
                treatments@,
                *settings,
                inst@,
                pts@,
                *proj,
                now_ms as int,
            ),
        forall|j: int|
            0 <= j < treatments@.len() && shows_insulin(treatments@[j], *settings, now_ms as int) ==> exists|i: int|
                0 <= i < r.insulin@.len() && (#[trigger] r.insulin@[i]).treatment == j,
        forall|i: int|
            0 <= i < r.carbs@.len() ==> carbs_marker_ok(#[trigger] r.carbs@[i], treatments@, inst@, pts@, *proj, now_ms as int),
        forall|j: int|
            0 <= j < treatments@.len() && shows_carbs(treatments@[j], now_ms as int) ==> exists|i: int|
                0 <= i < r.carbs@.len() && (#[trigger] r.carbs@[i]).treatment == j,
        r.positions@ == treatment_anchors(treatments@, inst@, pts@, *proj, now_ms as int) + meter_anchors(
            timeline@,
            pts@,
            *proj,
        ),
        r.readings@ == treatment_readings(treatments@, *proj, now_ms as int) + meter_readings(timeline@, pts@, *proj),
{
    let mut insulin: Vec<InsulinMarker> = Vec::new();
    let mut carbs: Vec<CarbsMarker> = Vec::new();
    let mut readings: Vec<ReadingMarker> = Vec::new();
    let mut positions: Vec<Px> = Vec::new();
    let thr = settings.microbolus_threshold;
    let mut i: usize = 0;
    while i < treatments.len()
        invariant
            proj.valid(),
            inst@.len() > 0,
            inst@.len() == pts@.len(),
            thr == settings.microbolus_threshold,
            forall|k: int| 0 <= k < pts@.len() ==> INNER_TOP <= (#[trigger] pts@[k]).1 <= INNER_BOTTOM,
            i <= treatments@.len(),
            positions@ == treatment_anchors(treatments@.subrange(0, i as int), inst@, pts@, *proj, now_ms as int),
            readings@ == treatment_readings(treatments@.subrange(0, i as int), *proj, now_ms as int),
            forall|m: int|
                0 <= m < insulin@.len() ==> insulin_marker_ok(#[trigger] insulin@[m], treatments@, *settings, inst@, pts@, *proj, now_ms as int),
            forall|m: int| 0 <= m < insulin@.len() ==> (#[trigger] insulin@[m]).treatment < i,
            forall|j: int|
                0 <= j < i && shows_insulin(treatments@[j], *settings, now_ms as int) ==> exists|m: int|
                    0 <= m < insulin@.len() && (#[trigger] insulin@[m]).treatment == j,
            forall|m: int| 0 <= m < carbs@.len() ==> carbs_marker_ok(#[trigger] carbs@[m], treatments@, inst@, pts@, *proj, now_ms as int),
            forall|m: int| 0 <= m < carbs@.len() ==> (#[trigger] carbs@[m]).treatment < i,
            forall|j: int|
                0 <= j < i && shows_carbs(treatments@[j], now_ms as int) ==> exists|m: int|
                    0 <= m < carbs@.len() && (#[trigger] carbs@[m]).treatment == j,
        decreases treatments@.len() - i,
    {
        let t = &treatments[i];
        proof {
            assert(treatments@.subrange(0, i + 1).drop_last() =~= treatments@.subrange(0, i as int));
        }
        let ghost ins0 = insulin@;
        let ghost carbs0 = carbs@;
        let ghost mut pushed_ins = false;
        let ghost mut pushed_carbs = false;
        if let Some(ti) = treatment_instant_millis(t, now_ms) {
            let x = proj.project_x(ti);
            let k = nearest_index(inst, ti);
            let y = pts[k].1;
            positions.push((x, y));
            if t.is_insulin() {
                let amount = match t.insulin {
                    Some(v) => v,
                    None => 0,
                };
                let micro = is_smb(t) || amount <= thr;
                if !(micro && !settings.display_microbolus) {
                    let size: i32 = if micro {
                        8
                    } else if amount as u128 <= thr as u128 + 100 {
                        12
                    } else if amount as u128 <= thr as u128 + 500 {
                        18
                    } else {
                        30
                    };
                    let m = InsulinMarker { treatment: i, x, y: y + 70, size, amount, micro };
                    assert(pts@[k as int].1 == y);
                    assert(insulin_marker_ok(m, treatments@, *settings, inst@, pts@, *proj, now_ms as int));
                    insulin.push(m);
                    proof {
                        pushed_ins = true;
                    }
                }
            }
            if t.is_carbs() {
                let c = match t.carbs {
                    Some(v) => v,
                    None => 0,
                };
                let radius: i32 = if c < 50 {
                    8
                } else if c <= 200 {
                    14
                } else {
                    24
                };
                let m = CarbsMarker { treatment: i, x, y: y - 70, radius, grams: c / 100 };
                assert(pts@[k as int].1 == y);
                assert(carbs_marker_ok(m, treatments@, inst@, pts@, *proj, now_ms as int));
                carbs.push(m);
                proof {
                    pushed_carbs = true;
                }
            }
            if t.is_glucose_reading() {
                if let Some(g) = t.glucose {
                    readings.push(ReadingMarker { x, y: proj.project_y(g), value: g });
                }
            }
        }
        proof {
            assert(pushed_ins ==> insulin@ == ins0.push(insulin@.last()) && insulin@.last().treatment == i);
            assert(!pushed_ins ==> insulin@ == ins0);
            assert(shows_insulin(treatments@[i as int], *settings, now_ms as int) ==> pushed_ins);
            assert(pushed_carbs ==> carbs@ == carbs0.push(carbs@.last()) && carbs@.last().treatment == i);
            assert(!pushed_carbs ==> carbs@ == carbs0);
            assert(shows_carbs(treatments@[i as int], now_ms as int) ==> pushed_carbs);
            assert forall|j: int|
                0 <= j < i + 1 && shows_insulin(treatments@[j], *settings, now_ms as int) implies exists|m: int|
                    0 <= m < insulin@.len() && (#[trigger] insulin@[m]).treatment == j by {
                if j < i {
                    let m = choose|m: int| 0 <= m < ins0.len() && (#[trigger] ins0[m]).treatment == j;
                    assert(insulin@[m] == ins0[m]);
                } else {
                    assert(insulin@[insulin@.len() - 1].treatment == j);
                }
            }
            assert forall|j: int|
                0 <= j < i + 1 && shows_carbs(treatments@[j], now_ms as int) implies exists|m: int|
                    0 <= m < carbs@.len() && (#[trigger] carbs@[m]).treatment == j by {
                if j < i {
                    let m = choose|m: int| 0 <= m < carbs0.len() && (#[trigger] carbs0[m]).treatment == j;
                    assert(carbs@[m] == carbs0[m]);
                } else {
                    assert(carbs@[carbs@.len() - 1].treatment == j);
                }
            }
        }
        i += 1;
    }
    assert(treatments@.subrange(0, treatments@.len() as int) =~= treatments@);
    let ghost ins_done = insulin@;
    let ghost carbs_done = carbs@;
    let ghost anchors = positions@;
    let ghost checks = readings@;
    let mut e: usize = 0;
    while e < timeline.len()
        invariant
            proj.valid(),
            timeline@.len() == pts@.len(),
            insulin@ == ins_done,
            carbs@ == carbs_done,
            e <= timeline@.len(),
            anchors == treatment_anchors(treatments@, inst@, pts@, *proj, now_ms as int),
            checks == treatment_readings(treatments@, *proj, now_ms as int),
            positions@ == anchors + meter_anchors(timeline@.subrange(0, e as int), pts@, *proj),
            readings@ == checks + meter_readings(timeline@.subrange(0, e as int), pts@, *proj),
            forall|j: int|
                0 <= j < treatments@.len() && shows_insulin(treatments@[j], *settings, now_ms as int) ==> exists|m: int|
                    0 <= m < ins_done.len() && (#[trigger] ins_done[m]).treatment == j,
            forall|j: int|
                0 <= j < treatments@.len() && shows_carbs(treatments@[j], now_ms as int) ==> exists|m: int|
                    0 <= m < carbs_done.len() && (#[trigger] carbs_done[m]).treatment == j,
            forall|m: int|
                0 <= m < ins_done.len() ==> insulin_marker_ok(#[trigger] ins_done[m], treatments@, *settings, inst@, pts@, *proj, now_ms as int),
            forall|m: int| 0 <= m < carbs_done.len() ==> carbs_marker_ok(#[trigger] carbs_done[m], treatments@, inst@, pts@, *proj, now_ms as int),
        decreases timeline@.len() - e,
    {
        let ghost q = timeline@.subrange(0, e + 1);
        proof {
            assert(q.drop_last() =~= timeline@.subrange(0, e as int));
        }
        let ghost pos0 = positions@;
        let ghost rd0 = readings@;
        if let Some(v) = timeline[e].mbg {
            if v > 0 {
                let x = pts[e].0;
                let y = proj.project_y(v as u64);
                positions.push((x, y));
                readings.push(ReadingMarker { x, y, value: v as u64 });
                proof {
                    assert(positions@ =~= anchors + meter_anchors(q, pts@, *proj));
                    assert(readings@ =~= checks + meter_readings(q, pts@, *proj));
                }
            }
        }
        e += 1;
    }
    assert(timeline@.subrange(0, timeline@.len() as int) =~= timeline@);
    let r = TreatmentMarks { insulin, carbs, readings, positions };
    assert forall|j: int|
        0 <= j < treatments@.len() && shows_insulin(treatments@[j], *settings, now_ms as int) implies exists|i: int|
            0 <= i < r.insulin@.len() && (#[trigger] r.insulin@[i]).treatment == j by {
        let m = choose|m: int| 0 <= m < ins_done.len() && (#[trigger] ins_done[m]).treatment == j;
        assert(r.insulin@[m] == ins_done[m]);
    }
    assert forall|j: int|
        0 <= j < treatments@.len() && shows_carbs(treatments@[j], now_ms as int) implies exists|i: int|
            0 <= i < r.carbs@.len() && (#[trigger] r.carbs@[i]).treatment == j by {
        let m = choose|m: int| 0 <= m < carbs_done.len() && (#[trigger] carbs_done[m]).treatment == j;
        assert(r.carbs@[m] == carbs_done[m]);
    }
    r
}


/// Whole minutes from `t` to `now`, rounded toward zero.
pub open spec fn minutes_between(now: int, t: int) -> int {
    let d = now - t;
    if d >= 0 {
        d / 60000
    } else {
        -((-d) / 60000)
    }
}

/// Age of a label in half hours, rounded to nearest: zero under half an hour.
pub open spec fn half_hours_ago(minutes: int) -> int {
    if -60 < minutes < 30 {
        0
    } else if minutes >= 0 {
        (minutes + 15) / 30
    } else {
        -((-minutes + 15) / 30)
    }
}

pub fn label_age(now_ms: i64, t: i64) -> (r: i64)
    ensures
        r == half_hours_ago(minutes_between(now_ms as int, t as int)),
{
    let d: i128 = now_ms as i128 - t as i128;
    let minutes: i128 = if d >= 0 {
        d / 60000
    } else {
        -((-d) / 60000)
    };
    let h: i128 = if -60 < minutes && minutes < 30 {
        0
    } else if minutes >= 0 {
        (minutes + 15) / 30
    } else {
        -((-minutes + 15) / 30)
    };
    h as i64
}

/// Indices where the day changes from the sample before to a day not yet
/// marked.
pub open spec fn day_changes(days: Seq<Option<i32>>) -> Seq<int>
    decreases days.len(),
{
    if days.len() <= 1 {
        Seq::empty()
    } else {
        let c = day_changes(days.drop_last());
        let i = days.len() - 1;
        if days[i] != days[i - 1] && !(exists|k: int| 0 <= k < c.len() && days[#[trigger] c[k]] == days[i]) {
            c.push(i)
        } else {
            c
        }
    }
}

proof fn lemma_day_changes_bounded(days: Seq<Option<i32>>)
    ensures
        forall|k: int| 0 <= k < day_changes(days).len() ==> 0 < #[trigger] day_changes(days)[k] < days.len(),
    decreases days.len(),
{
    if days.len() > 1 {
        lemma_day_changes_bounded(days.drop_last());
        let c = day_changes(days.drop_last());
        let d = day_changes(days);
        assert forall|k: int| 0 <= k < d.len() implies 0 < #[trigger] d[k] < days.len() by {
            if k < c.len() {
                assert(d[k] == c[k]);
            }
        }
    }
}

/// Where a day boundary marker goes; see `day_changes`.
pub fn day_change_indices(days: &Vec<Option<i32>>) -> (r: Vec<usize>)
    ensures
        r@.len() == day_changes(days@).len(),
        forall|k: int| 0 <= k < r@.len() ==> #[trigger] r@[k] as int == day_changes(days@)[k],
{
    let mut out: Vec<usize> = Vec::new();
    if days.len() <= 1 {
        return out;
    }
    let mut i: usize = 1;
    while i < days.len()
        invariant
            1 <= i <= days@.len(),
            out@.len() == day_changes(days@.subrange(0, i as int)).len(),
            forall|k: int| 0 <= k < out@.len() ==> #[trigger] out@[k] as int == day_changes(days@.subrange(0, i as int))[k],
            forall|k: int| 0 <= k < out@.len() ==> #[trigger] out@[k] < i,
        decreases days@.len() - i,
    {
        let ghost q = days@.subrange(0, i + 1);
        let ghost c = day_changes(days@.subrange(0, i as int));
        proof {
            assert(q.drop_last() =~= days@.subrange(0, i as int));
        }
        let cur = days[i];
        let mut seen = false;
        let mut k: usize = 0;
        while k < out.len()
            invariant
                k <= out@.len(),
                i < days@.len(),
                q == days@.subrange(0, i + 1),
                cur == days@[i as int],
                out@.len() == c.len(),
                forall|m: int| 0 <= m < out@.len() ==> #[trigger] out@[m] as int == c[m],
                forall|m: int| 0 <= m < out@.len() ==> #[trigger] out@[m] < i,
                seen == exists|m: int| 0 <= m < k && q[#[trigger] c[m]] == q[i as int],
            decreases out@.len() - k,
        {
            if days[out[k]] == cur {
                assert(q[c[k as int]] == q[i as int]);
                seen = true;
            }
            k += 1;
        }
        if cur != days[i - 1] && !seen {
            out.push(i);
        }
        proof {
            let d = day_changes(q);
            assert forall|m: int| 0 <= m < out@.len() implies #[trigger] out@[m] as int == d[m] by {
                if m < c.len() {
                    assert(out@[m] as int == c[m]);
                }
            }
        }
        i += 1;
    }
    assert(days@.subrange(0, days@.len() as int) =~= days@);
    out
}

/// A sample drawn as a dot coloured by its status.
#[derive(Clone, Copy, Debug, PartialEq, Eq, Structural)]
pub struct PlotPoint {
    pub x: i32,
    pub y: i32,
    pub status: GlucoseStatus,
}

/// A horizontal grid line and its value (hundredths of mg/dL).
#[derive(Clone, Copy, Debug, PartialEq, Eq, Structural)]
pub struct GridLine {
    pub value: u64,
    pub y: i32,
}

/// A time label under the axis: the instant to print, its column and its age
/// in half hours.
#[derive(Clone, Copy, Debug, PartialEq, Eq, Structural)]
pub struct TimeLabel {
    /// Index of the labelled sample in the timeline.
    pub sample: usize,
    pub instant_ms: i64,
    pub x: i32,
    pub half_hours_ago: i64,
}

/// A dashed line where a new day starts, with the instant whose date it shows.
#[derive(Clone, Copy, Debug, PartialEq, Eq, Structural)]
pub struct DayMarker {
    /// Index of the first sample of the new day in the timeline.
    pub sample: usize,
    pub instant_ms: i64,
    pub x: i32,
}

/// Everything to draw on one chart, in pixels.
pub struct ChartPlan {
    pub unit: PrefUnit,
    pub projection: Projection,
    pub grid: Vec<GridLine>,
    pub time_labels: Vec<TimeLabel>,
    pub day_markers: Vec<DayMarker>,
    pub points: Vec<PlotPoint>,
    pub point_radius: i32,
    pub marks: TreatmentMarks,
    pub stickers: Vec<Placement>,
}

/// Length of a window of `hours` hours in milliseconds (1 for none).
pub open spec fn window_ms(hours: int) -> int {
    if hours == 0 {
        1
    } else {
        hours * 3_600_000
    }
}

/// The projection of a chart drawn at `now` over `hours` hours for `timeline`.
pub open spec fn chart_projection(now: int, hours: int, unit: PrefUnit, timeline: Seq<Entry>) -> Projection {
    Projection {
        left: INNER_LEFT,
        right: INNER_RIGHT,
        top: INNER_TOP,
        bottom: INNER_BOTTOM,
        oldest_ms: (now - window_ms(hours)) as i64,
        newest_ms: now as i64,
        y_lo: axis_range(unit, max_sgv(timeline)).0 as u64,
        y_hi: axis_range(unit, max_sgv(timeline)).1 as u64,
    }
}

/// Sample `e` drawn right: at its projected instant and value, with the
/// status its value has against the thresholds.
pub open spec fn point_ok(pt: PlotPoint, e: Entry, p: Projection, now: int, low: u64, high: u64) -> bool {
    &&& pt.x == p.x_of(instant_of(e, now))
    &&& pt.y == p.y_of(e.sgv as int)
    &&& pt.status == status_of(e.sgv as int, low as int, high as int)
}


/// The display unit of a profile; see `pref_unit`.
pub open spec fn store_unit(s: ProfileStore) -> PrefUnit {
    match s.units {
        Some(u) => unit_named(lower_of(u@)),
        None => PrefUnit::MgDl,
    }
}

/// The low threshold of a profile, or the default.
pub open spec fn store_low(s: ProfileStore) -> u64 {
    match s.target_low {
        Some(v) => v,
        None => DEFAULT_TARGET_LOW,
    }
}

/// The high threshold of a profile, or the default.
pub open spec fn store_high(s: ProfileStore) -> u64 {
    match s.target_high {
        Some(v) => v,
        None => DEFAULT_TARGET_HIGH,
    }
}

/// Instants of the samples of a timeline.
pub open spec fn sample_instants(tl: Seq<Entry>, now: int) -> Seq<i64> {
    Seq::new(tl.len(), |i: int| instant_of(tl[i], now) as i64)
}

/// Pixel positions of the plotted samples.
pub open spec fn point_pixels(points: Seq<PlotPoint>) -> Seq<Px> {
    Seq::new(points.len(), |i: int| (points[i].x, points[i].y))
}

/// Instants (whole seconds) of a timeline from its last sample to its first.
pub open spec fn reversed_seconds(tl: Seq<Entry>, now: int) -> Seq<i64> {
    Seq::new(tl.len(), |j: int| secs_of(instant_of(tl[tl.len() - 1 - j], now)) as i64)
}

/// Columns of the plotted samples from the last to the first.
pub open spec fn reversed_columns(points: Seq<PlotPoint>) -> Seq<i32> {
    Seq::new(points.len(), |j: int| points[points.len() - 1 - j].x)
}

/// Minimum seconds between time labels for a window of `hours` hours.
pub open spec fn label_gap(hours: int) -> int {
    60 * (if hours <= 3 {
        30int
    } else if hours <= 6 {
        60int
    } else if hours <= 12 {
        120int
    } else {
        180int
    })
}

/// Day numbers of the samples of a timeline in zone `tz`.
pub open spec fn sample_days(tl: Seq<Entry>, now: int, tz: Seq<char>) -> Seq<Option<i32>> {
    Seq::new(tl.len(), |i: int| local_day_of(instant_of(tl[i], now) as i64, tz))
}

/// Sample `k` of the timeline is drawn at column `x`, at instant `t`.
pub open spec fn sample_at(tl: Seq<Entry>, points: Seq<PlotPoint>, now: int, k: int, t: i64, x: i32) -> bool {
    &&& 0 <= k < tl.len()
    &&& k < points.len()
    &&& t as int == instant_of(tl[k], now)
    &&& x == points[k].x
}

/// What a chart drawn at `now` shows where it can be drawn.
pub open spec fn plan_ok(
    plan: ChartPlan,
    entries: Seq<Entry>,
    treatments: Seq<Treatment>,
    profile: Profile,
    settings: NightscoutInfo,
    hours: int,
    now: int,
) -> bool {
    let tl = reconciled(entries, hours, now, default_tolerance()).unwrap();
    let store = profile.store@[store_index(profile.store@, profile.default_profile@)].1;
    let inst = sample_instants(tl, now);
    let pix = point_pixels(plan.points@);
    let chosen = label_choice(
        reversed_seconds(tl, now),
        reversed_columns(plan.points@),
        label_gap(hours),
        MAX_TIME_LABELS as int,
        MIN_LABEL_DISTANCE as int,
    );
    let changes = day_changes(sample_days(tl, now, store.timezone@));
    let (start, step) = grid_start_step(plan.unit, plan.projection.y_hi as int);
    &&& plan.unit == store_unit(store)
    &&& plan.projection == chart_projection(now, hours, plan.unit, tl)
    &&& plan.points@.len() == tl.len()
    &&& forall|i: int|
        0 <= i < tl.len() ==> point_ok(
            #[trigger] plan.points@[i],
            tl[i],
            plan.projection,
            now,
            store_low(store),
            store_high(store),
        )
    &&& plan.stickers@.len() <= MAX_STICKERS_PER_GRAPH
    &&& placements_apart(plan.stickers@, 120)
    &&& forall|k: int, i: int|
        0 <= k < plan.stickers@.len() && 0 <= i < plan.points@.len() ==> dist2(
            (#[trigger] plan.stickers@[k]).x as int,
            plan.stickers@[k].y as int,
            (#[trigger] plan.points@[i]).x as int,
            plan.points@[i].y as int,
        ) >= 100 * 100
    &&& forall|i: int|
        0 <= i < plan.marks.insulin@.len() ==> insulin_marker_ok(
            #[trigger] plan.marks.insulin@[i],
            treatments,
            settings,
            inst,
            pix,
            plan.projection,
            now,
        )
    &&& forall|j: int|
        0 <= j < treatments.len() && shows_insulin(treatments[j], settings, now) ==> exists|i: int|
            0 <= i < plan.marks.insulin@.len() && (#[trigger] plan.marks.insulin@[i]).treatment == j
    &&& forall|i: int|
        0 <= i < plan.marks.carbs@.len() ==> carbs_marker_ok(#[trigger] plan.marks.carbs@[i], treatments, inst, pix, plan.projection, now)
    &&& forall|j: int|
        0 <= j < treatments.len() && shows_carbs(treatments[j], now) ==> exists|i: int|
            0 <= i < plan.marks.carbs@.len() && (#[trigger] plan.marks.carbs@[i]).treatment == j
    &&& plan.marks.positions@ == treatment_anchors(treatments, inst, pix, plan.projection, now) + meter_anchors(
        tl,
        pix,
        plan.projection,
    )
    &&& plan.marks.readings@ == treatment_readings(treatments, plan.projection, now) + meter_readings(
        tl,
        pix,
        plan.projection,
    )
    &&& forall|k: int, i: int|
        0 <= k < plan.stickers@.len() && 0 <= i < plan.marks.positions@.len() ==> dist2(
            (#[trigger] plan.stickers@[k]).x as int,
            plan.stickers@[k].y as int,
            (#[trigger] plan.marks.positions@[i]).0 as int,
            plan.marks.positions@[i].1 as int,
        ) >= 120 * 120
    &&& plan.grid@.len() <= 8
    &&& plan.grid@.len() == 8 || start + step * plan.grid@.len() > plan.projection.y_hi
    &&& forall|g: int|
        0 <= g < plan.grid@.len() ==> {
            &&& (#[trigger] plan.grid@[g]).value == start + step * g
            &&& plan.grid@[g].value <= plan.projection.y_hi
            &&& plan.grid@[g].y == plan.projection.y_of(plan.grid@[g].value as int)
        }
    &&& plan.day_markers@.len() == changes.len()
    &&& forall|d: int| 0 <= d < plan.day_markers@.len() ==> (#[trigger] plan.day_markers@[d]).sample == changes[d]
    &&& plan.time_labels@.len() == chosen.len()
    &&& forall|c: int| 0 <= c < plan.time_labels@.len() ==> (#[trigger] plan.time_labels@[c]).sample == tl.len() - 1 - chosen[c]
    &&& forall|d: int|
        0 <= d < plan.day_markers@.len() ==> sample_at(
            tl,
            plan.points@,
            now,
            (#[trigger] plan.day_markers@[d]).sample as int,
            plan.day_markers@[d].instant_ms,
            plan.day_markers@[d].x,
        )
    &&& forall|c: int|
        0 <= c < plan.time_labels@.len() ==> {
            &&& sample_at(
                tl,
                plan.points@,
                now,
                (#[trigger] plan.time_labels@[c]).sample as int,
                plan.time_labels@[c].instant_ms,
                plan.time_labels@[c].x,
            )
            &&& plan.time_labels@[c].half_hours_ago == half_hours_ago(minutes_between(now, plan.time_labels@[c].instant_ms as int))
        }
}

/// Lays out the chart of `entries` over the `hours` hours before `now_ms`.
/// `NoData` where no sample is given or none survives reconciliation,
/// `MissingProfile` where the profile store lacks the default profile.
pub fn plan_chart(
    entries: &[Entry],
    treatments: &[Treatment],
    profile: &Profile,
    user_settings: &NightscoutInfo,
    stickers: &[Sticker],
    hours: u16,
    now_ms: i64,
) -> (r: Result<ChartPlan, RenderError>)
    requires
        now_ms >= 0,
    ensures
        entries@.len() == 0 ==> r matches Err(RenderError::NoData),
        entries@.len() > 0 && store_index(profile.store@, profile.default_profile@) == -1 ==> r matches Err(
            RenderError::MissingProfile,
        ),
        entries@.len() > 0 && store_index(profile.store@, profile.default_profile@) >= 0 ==> (match r {
            Ok(plan) => reconciled(entries@, hours as int, now_ms as int, default_tolerance()) is Some && plan_ok(
                plan,
                entries@,
                treatments@,
                *profile,
                *user_settings,
                hours as int,
                now_ms as int,
            ),
            Err(e) => e == RenderError::NoData && reconciled(entries@, hours as int, now_ms as int, default_tolerance()) is None,
        }),
{
    if entries.len() == 0 {
        return Err(RenderError::NoData);
    }
    let store = match profile.default_store() {
        Some(s) => s,
        None => return Err(RenderError::MissingProfile),
    };
    let reconciler = Nightscout::new();
    let timeline = match reconciler.reconcile_at(entries, hours, now_ms) {
        Ok(v) => v,
        Err(_) => return Err(RenderError::NoData),
    };
    let ghost tl = timeline@;
    proof {
        let w = window_of(entries@, now_ms as int, cutoff_of(now_ms as int, hours as int));
        lemma_dedup_nonempty(w, default_tolerance(), now_ms as int);
    }
    assert(timeline@.len() > 0);
    let unit = pref_unit(&store.units);
    let (lo, hi) = y_axis_range(timeline.as_slice(), unit);
    let span: i64 = if hours == 0 {
        1
    } else {
        hours as i64 * 3_600_000
    };
    let proj = Projection {
        left: INNER_LEFT,
        right: INNER_RIGHT,
        top: INNER_TOP,
        bottom: INNER_BOTTOM,
        oldest_ms: now_ms - span,
        newest_ms: now_ms,
        y_lo: lo,
        y_hi: hi,
    };
    let low = match store.target_low {
        Some(v) => v,
        None => DEFAULT_TARGET_LOW,
    };
    let high = match store.target_high {
        Some(v) => v,
        None => DEFAULT_TARGET_HIGH,
    };
    let n = timeline.len();
    let mut inst: Vec<i64> = Vec::new();
    let mut pts: Vec<Px> = Vec::new();
    let mut points: Vec<PlotPoint> = Vec::new();
    let mut i: usize = 0;
    while i < n
        invariant
            n == timeline@.len(),
            proj.valid(),
            proj.top == INNER_TOP,
            proj.bottom == INNER_BOTTOM,
            i <= n,
            inst@.len() == i,
            pts@.len() == i,
            points@.len() == i,
            forall|k: int| 0 <= k < i ==> #[trigger] inst@[k] == instant_of(timeline@[k], now_ms as int),
            forall|k: int| 0 <= k < i ==> #[trigger] pts@[k] == (points@[k].x, points@[k].y),
            forall|k: int| 0 <= k < i ==> INNER_TOP <= (#[trigger] pts@[k]).1 <= INNER_BOTTOM,
            forall|k: int| 0 <= k < i ==> point_ok(#[trigger] points@[k], timeline@[k], proj, now_ms as int, low, high),
        decreases n - i,
    {
        let t = timeline[i].instant_millis(now_ms);
        let x = proj.project_x(t);
        let y = proj.project_y(timeline[i].sgv as u64);
        let status = GlucoseStatus::from_sgv(timeline[i].sgv as u64, low, high);
        inst.push(t);
        pts.push((x, y));
        points.push(PlotPoint { x, y, status });
        i += 1;
    }
    assert(inst@ =~= sample_instants(tl, now_ms as int));
    assert(forall|k: int| 0 <= k < n ==> #[trigger] inst@[k] as int == instant_of(tl[k], now_ms as int));
    assert(pts@ =~= point_pixels(points@));
    let ranges = identify_status_ranges(timeline.as_slice(), store.timezone.as_str(), low, high);
    let ghost rs = ranges@;
    let kept = filter_ranges_by_duration_at(ranges, timeline.as_slice(), now_ms, SIGNIFICANT_RANGE_MINUTES);
    proof {
        lemma_kept_ranges_from(rs, tl, now_ms as int, SIGNIFICANT_RANGE_MINUTES as int);
        assert forall|k: int| 0 <= k < kept@.len() implies (#[trigger] kept@[k]).1 <= kept@[k].2 < pts@.len() by {
            let j = choose|j: int| 0 <= j < rs.len() && rs[j] == kept@[k];
            assert(rs[j].1 <= rs[j].2);
        }
    }
    let marks = mark_treatments(treatments, timeline.as_slice(), &inst, &pts, &proj, user_settings, now_ms);
    let config = StickerConfig::default();
    let placed = place_stickers(
        stickers,
        kept.as_slice(),
        pts.as_slice(),
        marks.positions.as_slice(),
        INNER_LEFT,
        INNER_RIGHT,
        INNER_TOP,
        INNER_BOTTOM,
        &config,
    );
    proof {
        assert forall|k: int, m: int| 0 <= k < placed@.len() && 0 <= m < marks.positions@.len() implies dist2(
            (#[trigger] placed@[k]).x as int,
            placed@[k].y as int,
            (#[trigger] marks.positions@[m]).0 as int,
            marks.positions@[m].1 as int,
        ) >= 120 * 120 by {
            assert(clear_of_points(placed@[k].x as int, placed@[k].y as int, marks.positions@, 120));
        }
        assert forall|k: int, m: int| 0 <= k < placed@.len() && 0 <= m < points@.len() implies dist2(
            (#[trigger] placed@[k]).x as int,
            placed@[k].y as int,
            (#[trigger] points@[m]).x as int,
            points@[m].y as int,
        ) >= 100 * 100 by {
            assert(pts@[m] == (points@[m].x, points@[m].y));
        }
    }
    let grid_values = y_grid_values(unit, hi);
    let mut grid: Vec<GridLine> = Vec::new();
    let mut g: usize = 0;
    while g < grid_values.len()
        invariant
            proj.valid(),
            g <= grid_values@.len(),
            grid@.len() == g,
            forall|k: int| 0 <= k < g ==> (#[trigger] grid@[k]).y == proj.y_of(grid@[k].value as int),
            forall|k: int| 0 <= k < g ==> (#[trigger] grid@[k]).value == grid_values@[k],
        decreases grid_values@.len() - g,
    {
        grid.push(GridLine { value: grid_values[g], y: proj.project_y(grid_values[g]) });
        g += 1;
    }
    let mut ts_rev: Vec<i64> = Vec::new();
    let mut xs_rev: Vec<i32> = Vec::new();
    let mut j: usize = 0;
    while j < n
        invariant
            n == inst@.len(),
            n == pts@.len(),
            j <= n,
            ts_rev@.len() == j,
            xs_rev@.len() == j,
            n == tl.len(),
            n == points@.len(),
            pts@ == point_pixels(points@),
            forall|k: int| 0 <= k < n ==> #[trigger] inst@[k] as int == instant_of(tl[k], now_ms as int),
            forall|k: int| 0 <= k < j ==> #[trigger] ts_rev@[k] == reversed_seconds(tl, now_ms as int)[k],
            forall|k: int| 0 <= k < j ==> #[trigger] xs_rev@[k] == reversed_columns(points@)[k],
        decreases n - j,
    {
        ts_rev.push(secs_floor(inst[n - 1 - j]));
        xs_rev.push(pts[n - 1 - j].0);
        assert(pts@[n - 1 - j] == (points@[n - 1 - j].x, points@[n - 1 - j].y));
        j += 1;
    }
    assert(ts_rev@ =~= reversed_seconds(tl, now_ms as int));
    assert(xs_rev@ =~= reversed_columns(points@));
    let gap = label_interval_minutes(hours) as i64 * 60;
    let chosen = select_time_labels(ts_rev.as_slice(), xs_rev.as_slice(), gap, MAX_TIME_LABELS, MIN_LABEL_DISTANCE);
    let mut time_labels: Vec<TimeLabel> = Vec::new();
    let mut c: usize = 0;
    while c < chosen.len()
        invariant
            n == inst@.len(),
            n == pts@.len(),
            n == tl.len(),
            n == points@.len(),
            n > 0,
            inst@ == sample_instants(tl, now_ms as int),
            pts@ == point_pixels(points@),
            forall|k: int| 0 <= k < n ==> #[trigger] inst@[k] as int == instant_of(tl[k], now_ms as int),
            forall|k: int| 0 <= k < chosen@.len() ==> #[trigger] chosen@[k] < n,
            c <= chosen@.len(),
            time_labels@.len() == c,
            forall|k: int| 0 <= k < c ==> (#[trigger] time_labels@[k]).sample == n - 1 - chosen@[k],
            forall|k: int|
                0 <= k < time_labels@.len() ==> {
                    &&& sample_at(tl, points@, now_ms as int, (#[trigger] time_labels@[k]).sample as int, time_labels@[k].instant_ms, time_labels@[k].x)
                    &&& time_labels@[k].half_hours_ago == half_hours_ago(minutes_between(now_ms as int, time_labels@[k].instant_ms as int))
                },
        decreases chosen@.len() - c,
    {
        let idx = n - 1 - chosen[c];
        let label = TimeLabel {
            sample: idx,
            instant_ms: inst[idx],
            x: pts[idx].0,
            half_hours_ago: label_age(now_ms, inst[idx]),
        };
        assert(sample_at(tl, points@, now_ms as int, idx as int, label.instant_ms, label.x));
        let ghost before = time_labels@;
        time_labels.push(label);
        proof {
            assert forall|k: int| 0 <= k < time_labels@.len() implies {
                &&& sample_at(tl, points@, now_ms as int, (#[trigger] time_labels@[k]).sample as int, time_labels@[k].instant_ms, time_labels@[k].x)
                &&& time_labels@[k].half_hours_ago == half_hours_ago(minutes_between(now_ms as int, time_labels@[k].instant_ms as int))
            } by {
                if k < before.len() {
                    assert(time_labels@[k] == before[k]);
                }
            }
        }
        c += 1;
    }
    let mut days: Vec<Option<i32>> = Vec::new();
    let mut d: usize = 0;
    while d < n
        invariant
            n == inst@.len(),
            n == tl.len(),
            d <= n,
            days@.len() == d,
            forall|k: int| 0 <= k < n ==> #[trigger] inst@[k] as int == instant_of(tl[k], now_ms as int),
            forall|k: int| 0 <= k < d ==> #[trigger] days@[k] == sample_days(tl, now_ms as int, store.timezone@)[k],
        decreases n - d,
    {
        days.push(local_day_number(inst[d], store.timezone.as_str()));
        d += 1;
    }
    assert(days@ =~= sample_days(tl, now_ms as int, store.timezone@));
    let changes = day_change_indices(&days);
    proof {
        lemma_day_changes_bounded(days@);
    }
    let mut day_markers: Vec<DayMarker> = Vec::new();
    let mut e: usize = 0;
    while e < changes.len()
        invariant
            n == inst@.len(),
            n == pts@.len(),
            n == days@.len(),
            n == tl.len(),
            n == points@.len(),
            inst@ == sample_instants(tl, now_ms as int),
            pts@ == point_pixels(points@),
            forall|k: int| 0 <= k < n ==> #[trigger] inst@[k] as int == instant_of(tl[k], now_ms as int),
            forall|k: int|
                0 <= k < day_markers@.len() ==> sample_at(
                    tl,
                    points@,
                    now_ms as int,
                    (#[trigger] day_markers@[k]).sample as int,
                    day_markers@[k].instant_ms,
                    day_markers@[k].x,
                ),
            changes@.len() == day_changes(days@).len(),
            forall|k: int| 0 <= k < changes@.len() ==> #[trigger] changes@[k] as int == day_changes(days@)[k],
            forall|k: int| 0 <= k < day_changes(days@).len() ==> 0 < #[trigger] day_changes(days@)[k] < days@.len(),
            e <= changes@.len(),
            day_markers@.len() == e,
            forall|k: int| 0 <= k < e ==> (#[trigger] day_markers@[k]).sample == changes@[k],
        decreases changes@.len() - e,
    {
        let at = changes[e];
        assert(at as int == day_changes(days@)[e as int]);
        let marker = DayMarker { sample: at, instant_ms: inst[at], x: pts[at].0 };
        assert(sample_at(tl, points@, now_ms as int, at as int, marker.instant_ms, marker.x));
        let ghost before = day_markers@;
        day_markers.push(marker);
        proof {
            assert forall|k: int| 0 <= k < day_markers@.len() implies sample_at(
                tl,
                points@,
                now_ms as int,
                (#[trigger] day_markers@[k]).sample as int,
                day_markers@[k].instant_ms,
                day_markers@[k].x,
            ) by {
                if k < before.len() {
                    assert(day_markers@[k] == before[k]);
                }
            }
        }
        e += 1;
    }
    let point_radius: i32 = if n < 100 {
        8
    } else {
        6
    };
    let ghost ins = marks.insulin@;
    let ghost crb = marks.carbs@;
    let ghost dm = day_markers@;
    let ghost lbl = time_labels@;
    let ghost pp = points@;
    let plan = ChartPlan {
        unit,
        projection: proj,
        grid,
        time_labels,
        day_markers,
        points,
        point_radius,
        marks,
        stickers: placed,
    };
    proof {
        assert(plan.marks.insulin@ == ins);
        assert(plan.marks.carbs@ == crb);
        assert(plan.day_markers@ == dm);
        assert(plan.time_labels@ == lbl);
        assert(plan.points@ == pp);
        assert forall|j: int|
            0 <= j < treatments@.len() && shows_insulin(treatments@[j], *user_settings, now_ms as int) implies exists|i: int|
                0 <= i < plan.marks.insulin@.len() && (#[trigger] plan.marks.insulin@[i]).treatment == j by {
            let m = choose|m: int| 0 <= m < ins.len() && (#[trigger] ins[m]).treatment == j;
            assert(plan.marks.insulin@[m] == ins[m]);
        }
        assert forall|j: int|
            0 <= j < treatments@.len() && shows_carbs(treatments@[j], now_ms as int) implies exists|i: int|
                0 <= i < plan.marks.carbs@.len() && (#[trigger] plan.marks.carbs@[i]).treatment == j by {
            let m = choose|m: int| 0 <= m < crb.len() && (#[trigger] crb[m]).treatment == j;
            assert(plan.marks.carbs@[m] == crb[m]);
        }
    }
    Ok(plan)
}

} // verus!
