use beetroot::chart::{
    day_change_indices, label_age, plan_chart, pref_unit, RenderError, INNER_BOTTOM, INNER_LEFT, INNER_RIGHT, INNER_TOP,
};
use beetroot::labels::select_time_labels;
use beetroot::nightscout::{Entry, Profile, ProfileStore, Treatment};
use beetroot::projection::{label_interval_minutes, y_axis_range, y_grid_values, Projection};
use beetroot::stickers::{candidate_position, place_stickers, Draws, StickerConfig};
use beetroot::types::{NightscoutInfo, PrefUnit, Sticker, StickerCategory};

const NOW: i64 = 1_758_589_200_000;
const MIN: i64 = 60_000;

fn sample(at: i64, sgv: u32) -> Entry {
    Entry {
        id: None,
        sgv,
        direction: None,
        entry_type: None,
        date_string: None,
        date: Some(at as u64),
        mills: None,
        mbg: None,
    }
}

fn sticker(id: i32, category: StickerCategory) -> Sticker {
    Sticker { id, file_name: format!("s{}.png", id), display_name: format!("s{}", id), category }
}

fn profile(units: Option<&str>) -> Profile {
    Profile {
        default_profile: "Default".to_string(),
        store: vec![(
            "Default".to_string(),
            ProfileStore { timezone: "UTC".to_string(), units: units.map(|u| u.to_string()), target_low: None, target_high: None },
        )],
    }
}

fn settings() -> NightscoutInfo {
    NightscoutInfo {
        nightscout_url: None,
        nightscout_token: None,
        allowed_people: Vec::new(),
        is_private: false,
        microbolus_threshold: 50,
        display_microbolus: false,
    }
}

fn treatment(at: i64, insulin: Option<u64>, carbs: Option<u64>) -> Treatment {
    Treatment {
        id: None,
        event_type: None,
        created_at: None,
        glucose: None,
        glucose_type: None,
        carbs,
        insulin,
        units: None,
        date: Some(at as u64),
        mills: None,
        type_: None,
    }
}

fn dist2(a: (i32, i32), b: (i32, i32)) -> i64 {
    let dx = (a.0 - b.0) as i64;
    let dy = (a.1 - b.1) as i64;
    dx * dx + dy * dy
}

#[test]
fn projection_is_proportional_to_time() {
    let p = Projection { left: 180, right: 1600, top: 100, bottom: 920, oldest_ms: 0, newest_ms: 10_800_000, y_lo: 4000, y_hi: 20000 };
    assert_eq!(p.project_x(0), 180);
    assert_eq!(p.project_x(5_400_000), 890);
    assert_eq!(p.project_x(10_800_000), 1600);
    assert_eq!(p.project_x(20_000_000), 1600);
    assert_eq!(p.project_y(4000), 920);
    assert_eq!(p.project_y(12000), 510);
    assert_eq!(p.project_y(20000), 100);
    // a two-hour gap takes two thirds of the width
    let gap = p.project_x(9_000_000) - p.project_x(1_800_000);
    assert_eq!(gap, 947);
}

#[test]
fn axis_range_rounds_up_and_clamps() {
    let entries = vec![sample(NOW, 25500), sample(NOW - MIN, 9000)];
    assert_eq!(y_axis_range(&entries, PrefUnit::MgDl), (4000, 26000));
    assert_eq!(y_axis_range(&entries, PrefUnit::Mmol), (3600, 27000));
    let low = vec![sample(NOW, 9000)];
    assert_eq!(y_axis_range(&low, PrefUnit::MgDl), (4000, 20000));
    assert_eq!(y_axis_range(&low, PrefUnit::Mmol), (3600, 19800));
}

#[test]
fn grid_values_step_in_tens() {
    assert_eq!(y_grid_values(PrefUnit::MgDl, 20000), vec![4000, 7000, 10000, 13000, 16000, 19000]);
    assert_eq!(y_grid_values(PrefUnit::Mmol, 19800), vec![3600, 7200, 10800, 14400, 18000]);
}

#[test]
fn label_interval_grows_with_window() {
    assert_eq!(label_interval_minutes(3), 30);
    assert_eq!(label_interval_minutes(6), 60);
    assert_eq!(label_interval_minutes(12), 120);
    assert_eq!(label_interval_minutes(24), 180);
}

#[test]
fn time_labels_are_spaced_and_include_newest() {
    let ts: Vec<i64> = (0..7).map(|k| k * 600).collect();
    let xs: Vec<i32> = (0..7).map(|k| k * 100).collect();
    assert_eq!(select_time_labels(&ts, &xs, 1800, 6, 160), vec![0, 3, 6]);
    let close: Vec<i32> = vec![0, 10, 20, 30, 40, 50, 60];
    assert_eq!(select_time_labels(&ts, &close, 1800, 6, 160), vec![6]);
    let odd: Vec<i64> = vec![0, 600, 1200, 1900];
    let xs4: Vec<i32> = vec![0, 200, 400, 633];
    assert_eq!(select_time_labels(&odd, &xs4, 1800, 6, 160), vec![0, 3]);
}

#[test]
fn label_age_rounds_to_half_hours() {
    assert_eq!(label_age(NOW, NOW - 29 * MIN), 0);
    assert_eq!(label_age(NOW, NOW - 44 * MIN), 1);
    assert_eq!(label_age(NOW, NOW - 45 * MIN), 2);
    assert_eq!(label_age(NOW, NOW - 180 * MIN), 6);
}

#[test]
fn day_changes_mark_new_days_once() {
    let days = vec![Some(10), Some(10), Some(11), Some(10), Some(11), Some(12)];
    assert_eq!(day_change_indices(&days), vec![2, 3, 5]);
}

#[test]
fn unit_name_is_case_insensitive() {
    assert_eq!(pref_unit(&Some("MMOL/L".to_string())), PrefUnit::Mmol);
    assert_eq!(pref_unit(&Some("mmol".to_string())), PrefUnit::Mmol);
    assert_eq!(pref_unit(&Some("mg/dl".to_string())), PrefUnit::MgDl);
    assert_eq!(pref_unit(&None), PrefUnit::MgDl);
}

#[test]
fn candidate_positions_follow_their_rules() {
    let d = Draws { flip: false, u: 500, v: 0, quadrant: 1 };
    assert_eq!(candidate_position(Some((400, 400)), 0, 500, d), (400, 600));
    let up = Draws { flip: true, u: 0, v: 0, quadrant: 0 };
    assert_eq!(candidate_position(Some((400, 100)), 250, 500, up), (200, 50));
    assert_eq!(candidate_position(None, 10, 500, d), (750, 100));
    assert_eq!(candidate_position(None, 300, 500, d), (500, 200));
}

#[test]
fn five_catch_all_stickers_with_room_place_three_apart() {
    let stickers: Vec<Sticker> = (0..5).map(|k| sticker(k, StickerCategory::Any)).collect();
    let config = StickerConfig::default();
    let placed = place_stickers(&stickers, &[], &[], &[], INNER_LEFT, INNER_RIGHT, INNER_TOP, INNER_BOTTOM, &config);
    assert_eq!(placed.len(), 3);
    for i in 0..placed.len() {
        for j in (i + 1)..placed.len() {
            assert!(dist2((placed[i].x, placed[i].y), (placed[j].x, placed[j].y)) >= 240 * 240);
        }
    }
}

#[test]
fn stickers_keep_away_from_curve_and_each_other() {
    let stickers = vec![sticker(1, StickerCategory::Low), sticker(2, StickerCategory::High), sticker(3, StickerCategory::Any)];
    let points: Vec<(i32, i32)> = (0..20).map(|k| (200 + k * 70, 500)).collect();
    let ranges = vec![(beetroot::types::GlucoseStatus::Low, 0, 9), (beetroot::types::GlucoseStatus::High, 10, 19)];
    let treatments = vec![(900, 300)];
    let config = StickerConfig::default();
    for _ in 0..5 {
        let placed = place_stickers(&stickers, &ranges, &points, &treatments, INNER_LEFT, INNER_RIGHT, INNER_TOP, INNER_BOTTOM, &config);
        assert!(placed.len() <= 3);
        for p in &placed {
            for q in &points {
                assert!(dist2((p.x, p.y), *q) >= 100 * 100);
            }
            assert!(dist2((p.x, p.y), treatments[0]) >= 120 * 120);
        }
        for i in 0..placed.len() {
            for j in (i + 1)..placed.len() {
                assert!(dist2((placed[i].x, placed[i].y), (placed[j].x, placed[j].y)) >= 240 * 240);
            }
        }
    }
}

#[test]
fn no_stickers_no_ranges_selects_nothing() {
    let none = beetroot::stickers::select_stickers_to_place(&[], &[]);
    assert!(none.is_empty());
    let any = vec![sticker(1, StickerCategory::Any)];
    let picked = beetroot::stickers::select_stickers_to_place(&any, &[]);
    assert_eq!(picked, vec![(0, None), (0, None), (0, None)]);
}

#[test]
fn plan_places_points_markers_and_day_line() {
    let entries = vec![sample(NOW - 30 * MIN, 12000), sample(NOW - 120 * MIN, 6000)];
    let treatments = vec![
        treatment(NOW - 30 * MIN, Some(300), None),
        treatment(NOW - 60 * MIN, Some(20), None),
        treatment(NOW - 120 * MIN, None, Some(4500)),
    ];
    let plan = plan_chart(&entries, &treatments, &profile(Some("mg/dl")), &settings(), &[], 3, NOW).ok().unwrap();
    assert_eq!(plan.unit, PrefUnit::MgDl);
    assert_eq!(plan.points.len(), 2);
    assert_eq!(plan.projection.oldest_ms, NOW - 180 * MIN);
    assert_eq!(plan.points[0].x, 180 + (150 * 1420) / 180);
    assert_eq!(plan.points[1].status, beetroot::types::GlucoseStatus::Low);
    assert_eq!(plan.marks.insulin.len(), 1);
    assert_eq!(plan.marks.insulin[0].size, 18);
    assert_eq!(plan.marks.insulin[0].y, plan.points[0].y + 70);
    assert_eq!(plan.marks.carbs.len(), 1);
    assert_eq!(plan.marks.carbs[0].radius, 24);
    assert_eq!(plan.marks.carbs[0].grams, 45);
    assert_eq!(plan.day_markers.len(), 1);
    assert_eq!(plan.day_markers[0].instant_ms, NOW - 120 * MIN);
    assert!(plan.stickers.is_empty());
    assert!(!plan.time_labels.is_empty());
}

#[test]
fn plan_reports_missing_profile_and_no_data() {
    let entries = vec![sample(NOW - 30 * MIN, 12000)];
    let mut p = profile(None);
    p.default_profile = "Other".to_string();
    assert_eq!(plan_chart(&entries, &[], &p, &settings(), &[], 3, NOW).err(), Some(RenderError::MissingProfile));
    assert_eq!(plan_chart(&[], &[], &profile(None), &settings(), &[], 3, NOW).err(), Some(RenderError::NoData));
    let old = vec![sample(NOW - 600 * MIN, 12000)];
    assert_eq!(plan_chart(&old, &[], &profile(None), &settings(), &[], 3, NOW).err(), Some(RenderError::NoData));
}

#[test]
fn far_future_sample_in_eastern_zone_does_not_panic() {
    let entries = vec![sample(8_210_266_876_799_999, 12000), sample(NOW - 30 * MIN, 12000)];
    let mut p = profile(None);
    p.store[0].1.timezone = "Asia/Tokyo".to_string();
    let plan = plan_chart(&entries, &[], &p, &settings(), &[], 3, NOW).ok().unwrap();
    assert_eq!(plan.points.len(), 2);
}

#[test]
fn plan_lists_meter_and_finger_readings() {
    let mut e = sample(NOW - 30 * MIN, 12000);
    e.mbg = Some(13000);
    let mut check = treatment(NOW - 60 * MIN, None, None);
    check.glucose = Some(9000);
    check.glucose_type = Some("Finger".to_string());
    let plan = plan_chart(&[e], &[check], &profile(None), &settings(), &[], 3, NOW).ok().unwrap();
    assert_eq!(plan.marks.readings.len(), 2);
    assert_eq!(plan.marks.readings[0].value, 9000);
    assert_eq!(plan.marks.readings[1].value, 13000);
    assert_eq!(plan.marks.positions.len(), 2);
    assert_eq!(plan.marks.positions[1], (plan.points[0].x, plan.marks.readings[1].y));
}
