use beetroot::nightscout::{Entry, NightscoutError};
use beetroot::reconcile::{DedupTolerance, Nightscout};
use beetroot::segments::{filter_ranges_by_duration_at, identify_status_ranges};
use beetroot::types::GlucoseStatus;

const NOW: i64 = 1_758_600_000_000;
const MIN: u64 = 60_000;

fn sample(id: Option<&str>, at: u64, sgv: u32) -> Entry {
    Entry {
        id: id.map(|s| s.to_string()),
        sgv,
        direction: None,
        entry_type: None,
        date_string: None,
        date: Some(at),
        mills: None,
        mbg: None,
    }
}

fn base() -> u64 {
    NOW as u64 - 60 * MIN
}

#[test]
fn identical_identifier_keeps_first_seen() {
    let a = sample(Some("abc"), base(), 10000);
    let b = sample(Some("abc"), base() + 10 * MIN, 15000);
    let r = Nightscout::new().reconcile_at(&[a.clone(), b], 3, NOW).unwrap();
    assert_eq!(r, vec![a]);
}

#[test]
fn close_equal_readings_collapse_until_tolerance() {
    let a = sample(None, base(), 10000);
    let b = sample(None, base() + 20_000, 10000);
    let c = sample(None, base() + 40_000, 10000);
    let r = Nightscout::new().reconcile_at(&[a.clone(), b, c.clone()], 3, NOW).unwrap();
    assert_eq!(r, vec![a, c]);
}

#[test]
fn coarser_value_step_treats_small_differences_as_noise() {
    let a = sample(None, base(), 10000);
    let b = sample(None, base() + 20_000, 10004);
    let default = Nightscout::new().reconcile_at(&[a.clone(), b.clone()], 3, NOW).unwrap();
    assert_eq!(default.len(), 2);
    let coarse = Nightscout { tolerance: DedupTolerance { max_gap_ms: 30_000, value_step: 10 } };
    let r = coarse.reconcile_at(&[a.clone(), b], 3, NOW).unwrap();
    assert_eq!(r, vec![a]);
}

#[test]
fn meter_and_sensor_readings_never_collapse() {
    let a = sample(None, base(), 10000);
    let mut b = sample(None, base() + 5_000, 10000);
    b.mbg = Some(10000);
    let r = Nightscout::new().reconcile_at(&[a, b], 3, NOW).unwrap();
    assert_eq!(r.len(), 2);
}

#[test]
fn sample_before_window_is_excluded() {
    let old = sample(Some("old"), NOW as u64 - 240 * MIN, 10000);
    let fresh = sample(Some("new"), NOW as u64 - 30 * MIN, 11000);
    let r = Nightscout::new().reconcile_at(&[fresh.clone(), old], 3, NOW).unwrap();
    assert_eq!(r, vec![fresh]);
}

#[test]
fn nothing_in_window_is_no_entries() {
    let old = sample(Some("old"), NOW as u64 - 240 * MIN, 10000);
    let r = Nightscout::new().reconcile_at(&[old], 3, NOW);
    assert_eq!(r, Err(NightscoutError::NoEntries));
    let empty: Vec<Entry> = Vec::new();
    assert_eq!(Nightscout::new().reconcile_at(&empty, 3, NOW), Err(NightscoutError::NoEntries));
}

#[test]
fn reconciling_twice_changes_nothing() {
    let input = vec![
        sample(Some("a"), base() + 5 * MIN, 12000),
        sample(Some("b"), base() + 5 * MIN + 1_000, 12000),
        sample(Some("a"), base() + 4 * MIN, 13000),
        sample(None, base(), 9000),
        sample(None, NOW as u64 - 500 * MIN, 9000),
    ];
    let once = Nightscout::new().reconcile_at(&input, 3, NOW).unwrap();
    let twice = Nightscout::new().reconcile_at(&once, 3, NOW).unwrap();
    assert_eq!(once, twice);
    assert_eq!(once.len(), 2);
}

#[test]
fn output_is_ordered_subsequence_with_unique_ids() {
    let input = vec![
        sample(Some("x"), base() + 9 * MIN, 12000),
        sample(Some("y"), base() + 8 * MIN, 12500),
        sample(Some("x"), base() + 7 * MIN, 13000),
        sample(Some("z"), base() + 6 * MIN, 13500),
    ];
    let r = Nightscout::new().reconcile_at(&input, 3, NOW).unwrap();
    assert_eq!(r, vec![input[0].clone(), input[1].clone(), input[3].clone()]);
    for i in 0..r.len() {
        for j in (i + 1)..r.len() {
            assert_ne!(r[i].id, r[j].id);
        }
    }
}

#[test]
fn instant_prefers_timestamp_then_date_string() {
    let mut e = sample(None, 5_000, 10000);
    assert_eq!(e.instant_millis(NOW), 5_000);
    e.date = Some(u64::MAX);
    assert_eq!(e.instant_millis(NOW), NOW);
    e.date = Some(9_000_000_000_000_000_000);
    assert_eq!(e.instant_millis(NOW), NOW);
    e.date = Some(8_210_266_876_799_999);
    assert_eq!(e.instant_millis(NOW), 8_210_266_876_799_999);
    e.date = Some(8_210_266_876_800_000);
    assert_eq!(e.instant_millis(NOW), NOW);
    e.date = None;
    e.date_string = Some("2025-09-23T08:38:01.546Z".to_string());
    assert_eq!(e.instant_millis(NOW), 1_758_616_681_546);
    e.date_string = Some("not a date".to_string());
    assert_eq!(e.instant_millis(NOW), NOW);
}

#[test]
fn filter_with_clock_keeps_recent_sample() {
    let now = std::time::SystemTime::now()
        .duration_since(std::time::UNIX_EPOCH)
        .unwrap()
        .as_millis() as i64;
    let e = sample(Some("now"), now as u64 - MIN, 10000);
    let r = Nightscout::new().filter_and_clean_entries(&[e.clone()], 3, "UTC").unwrap();
    assert_eq!(r, vec![e]);
}

fn run(start: u64, minutes: &[u64], sgv: u32) -> Vec<Entry> {
    minutes.iter().map(|m| sample(None, start + m * 1_000, sgv)).collect()
}

#[test]
fn low_ranges_of_any_length_are_kept() {
    let t0 = base();
    let mut entries = Vec::new();
    let low_secs: Vec<u64> = (0..10).map(|k| k * 53).collect();
    entries.extend(run(t0, &low_secs, 5000));
    let in_secs: Vec<u64> = (0..9).map(|k| 600 + k * 300).collect();
    entries.extend(run(t0, &in_secs, 12000));
    entries.extend(run(t0, &[3300, 3420, 3600], 5000));
    let ranges = identify_status_ranges(&entries, "UTC", 7000, 18000);
    assert_eq!(
        ranges,
        vec![(GlucoseStatus::Low, 0, 9), (GlucoseStatus::InRange, 10, 18), (GlucoseStatus::Low, 19, 21)]
    );
    let kept = filter_ranges_by_duration_at(ranges.clone(), &entries, NOW, 30);
    assert_eq!(kept, ranges);
}

#[test]
fn short_in_range_and_high_runs_are_dropped() {
    let t0 = base();
    let mut entries = Vec::new();
    entries.extend(run(t0, &[0, 600], 12000));
    entries.extend(run(t0, &[900, 1200, 4000], 20000));
    entries.extend(run(t0, &[4100], 5000));
    let ranges = identify_status_ranges(&entries, "UTC", 7000, 18000);
    assert_eq!(ranges.len(), 3);
    let kept = filter_ranges_by_duration_at(ranges, &entries, NOW, 30);
    assert_eq!(kept, vec![(GlucoseStatus::High, 2, 4), (GlucoseStatus::Low, 5, 5)]);
}

#[test]
fn ranges_cover_every_sample_once() {
    let t0 = base();
    let values = [5000u32, 5000, 9000, 19000, 19000, 9000, 6000];
    let entries: Vec<Entry> = values.iter().enumerate().map(|(k, v)| sample(None, t0 + k as u64 * MIN, *v)).collect();
    let ranges = identify_status_ranges(&entries, "UTC", 7000, 18000);
    let mut next = 0;
    for (_, s, e) in &ranges {
        assert_eq!(*s, next);
        next = e + 1;
    }
    assert_eq!(next, entries.len());
    assert!(identify_status_ranges(&[], "UTC", 7000, 18000).is_empty());
}

#[test]
fn classification_uses_strict_thresholds() {
    assert_eq!(GlucoseStatus::from_sgv(6999, 7000, 18000), GlucoseStatus::Low);
    assert_eq!(GlucoseStatus::from_sgv(7000, 7000, 18000), GlucoseStatus::InRange);
    assert_eq!(GlucoseStatus::from_sgv(18000, 7000, 18000), GlucoseStatus::InRange);
    assert_eq!(GlucoseStatus::from_sgv(18001, 7000, 18000), GlucoseStatus::High);
}

#[test]
fn date_string_samples_hours_apart_are_distinct() {
    let mut a = sample(None, 0, 10000);
    a.date = None;
    a.date_string = Some("2025-09-23T03:00:00Z".to_string());
    let mut b = a.clone();
    b.date_string = Some("2025-09-23T01:00:00Z".to_string());
    let now = 1_758_600_000_000;
    let r = Nightscout::new().reconcile_at(&[a.clone(), b.clone()], 6, now).unwrap();
    assert_eq!(r, vec![a, b]);
}
