use beetroot::components::{create_pagination_buttons, extract_page_number};
use beetroot::nightscout::{Delta, Entry, NightscoutRequestOptions, Trend};
use beetroot::reconcile::Nightscout;
use beetroot::nightscout::NightscoutError;

fn make_entry(id: &str, sgv: u32, direction: Option<&str>, date_string: Option<&str>) -> Entry {
    Entry {
        id: Some(id.to_string()),
        sgv,
        direction: direction.map(|d| d.to_string()),
        entry_type: None,
        date_string: date_string.map(|d| d.to_string()),
        date: None,
        mills: None,
        mbg: None,
    }
}

#[test]
fn test_pagination_buttons_single_page() {
    let result = create_pagination_buttons("test_", 1, 1);
    assert!(result.is_none());
}

#[test]
fn test_pagination_buttons_first_page() {
    let result = create_pagination_buttons("test_", 1, 3);
    assert!(result.is_some());
}

#[test]
fn test_extract_page_number() {
    assert_eq!(extract_page_number("help_page_2", "help_page_"), Some(2));
    assert_eq!(extract_page_number("help_page_10", "help_page_"), Some(10));
    assert_eq!(extract_page_number("invalid", "help_page_"), None);
}

#[test]
fn test_get_date_id_valid() {
    let entry = make_entry("id", 10000, None, Some("2025-09-23T08:38:01.546Z"));
    let id = Nightscout::get_date_id(&entry).unwrap();
    assert_eq!(id, "546Z");
}

#[test]
fn test_get_date_id_missing_data() {
    let entry = make_entry("id", 10000, None, None);
    let result = Nightscout::get_date_id(&entry);
    assert!(matches!(result, Err(NightscoutError::MissingData)));
}

#[test]
fn test_clean_entries_filters_by_date_id() {
    let e1 = make_entry("id1", 10000, None, Some("2025-09-23T08:38:01.546Z"));
    let e2 = make_entry("id2", 11000, None, Some("2025-09-23T08:38:01.546Z"));
    let e3 = make_entry("id3", 12000, None, Some("2025-09-23T08:38:01.789Z"));
    let client = Nightscout::new();
    let filtered = client
        .clean_entries(&vec![e1.clone(), e2.clone(), e3.clone()])
        .unwrap();
    assert_eq!(filtered, vec![e1, e2]);
}

#[test]
fn test_clean_entries_empty_input() {
    let client = Nightscout::new();
    let result = client.clean_entries(&vec![]);
    assert!(matches!(result, Err(NightscoutError::NoEntries)));
}

#[test]
fn test_clean_entries_missing_date_string() {
    let e1 = make_entry("id1", 10000, None, None);
    let client = Nightscout::new();
    let result = client.clean_entries(&vec![e1]);
    assert!(matches!(result, Err(NightscoutError::MissingData)));
}

#[test]
fn test_entry_get_delta() {
    let e1 = make_entry("id1", 10000, None, None);
    let e2 = make_entry("id2", 9000, None, None);
    let delta = e1.get_delta(&e2);
    assert_eq!(delta.value, 1000);
}

#[test]
fn test_trend_conversion() {
    let entry_flat = make_entry("test1", 12000, Some("Flat"), None);
    assert_eq!(entry_flat.trend(), Trend::Flat);

    let entry_up = make_entry("test2", 12000, Some("DoubleUp"), None);
    assert_eq!(entry_up.trend(), Trend::DoubleUp);

    let entry_invalid = make_entry("test3", 12000, Some("InvalidDirection"), None);
    assert_eq!(entry_invalid.trend(), Trend::Else);

    let entry_none = make_entry("test4", 12000, None, None);
    assert_eq!(entry_none.trend(), Trend::Else);
}

#[test]
fn test_trend_from_str() {
    assert_eq!(Trend::from("DoubleUp"), Trend::DoubleUp);
    assert_eq!(Trend::from("SingleUp"), Trend::SingleUp);
    assert_eq!(Trend::from("FortyFiveUp"), Trend::FortyFiveUp);
    assert_eq!(Trend::from("Flat"), Trend::Flat);
    assert_eq!(Trend::from("FortyFiveDown"), Trend::FortyFiveDown);
    assert_eq!(Trend::from("SingleDown"), Trend::SingleDown);
    assert_eq!(Trend::from("DoubleDown"), Trend::DoubleDown);
    assert_eq!(Trend::from("Unknown"), Trend::Else);
}

#[test]
fn test_trend_as_arrow() {
    assert_eq!(Trend::DoubleUp.as_arrow(), "↑↑");
    assert_eq!(Trend::SingleUp.as_arrow(), "↑");
    assert_eq!(Trend::FortyFiveUp.as_arrow(), "↗");
    assert_eq!(Trend::Flat.as_arrow(), "→");
    assert_eq!(Trend::FortyFiveDown.as_arrow(), "↘");
    assert_eq!(Trend::SingleDown.as_arrow(), "↓");
    assert_eq!(Trend::DoubleDown.as_arrow(), "↓↓");
    assert_eq!(Trend::Else.as_arrow(), "↮");
}

#[test]
fn test_nightscout_request_options_default() {
    let default_options = NightscoutRequestOptions::default();
    assert_eq!(default_options.count, None);
    assert_eq!(default_options.hours_back, None);
}

#[test]
fn test_nightscout_request_options_count() {
    let options = NightscoutRequestOptions::default().count(5);
    assert_eq!(options.count, Some(5));
    assert_eq!(options.hours_back, None);
}

#[test]
fn test_nightscout_request_options_hours_back() {
    let options = NightscoutRequestOptions::default().hours_back(6);
    assert_eq!(options.hours_back, Some(6));
    assert_eq!(options.count, None);
}

#[test]
fn test_nightscout_request_options_fluent_interface() {
    let options = NightscoutRequestOptions::default().count(10).hours_back(12);
    assert_eq!(options.count, Some(10));
    assert_eq!(options.hours_back, Some(12));
}

#[test]
fn test_nightscout_request_options_chaining_order() {
    let options1 = NightscoutRequestOptions::default().count(5).hours_back(3);
    let options2 = NightscoutRequestOptions::default().hours_back(3).count(5);

    assert_eq!(options1.count, options2.count);
    assert_eq!(options1.hours_back, options2.hours_back);
}

#[test]
fn test_delta_as_signed_str() {
    let delta = Delta { value: 500 };
    assert_eq!(delta.as_signed_str(), "+5");

    let delta = Delta { value: -320 };
    assert_eq!(delta.as_signed_str(), "-3.2");

    let delta = Delta { value: 0 };
    assert_eq!(delta.as_signed_str(), "+0");
}

#[test]
fn delta_text_keeps_hundredths() {
    assert_eq!(Delta { value: 25 }.as_signed_str(), "+0.25");
    assert_eq!(Delta { value: -1205 }.as_signed_str(), "-12.05");
    assert_eq!(Delta { value: 1230 }.as_signed_str(), "+12.3");
}

#[test]
fn mmol_conversions_round_to_tenths() {
    let e = make_entry("id", 12000, None, None);
    assert_eq!(e.svg_as_mmol(), 67);
    assert_eq!(Delta { value: -900 }.as_mmol(), -5);
    assert_eq!(Delta { value: 1800 }.as_mmol(), 10);
}

#[test]
fn current_delta_uses_two_newest_of_a_suffix() {
    let e1 = make_entry("id1", 12000, None, Some("2025-09-23T08:38:01.546Z"));
    let e2 = make_entry("id2", 11000, None, Some("2025-09-23T08:33:01.789Z"));
    let e3 = make_entry("id3", 10500, None, Some("2025-09-23T08:28:01.546Z"));
    let client = Nightscout::new();
    let d = client.current_delta(&[e1.clone(), e2, e3]).unwrap();
    assert_eq!(d.value, 1500);
    assert_eq!(client.current_delta(&[e1]), Err(NightscoutError::NoEntries));
}
