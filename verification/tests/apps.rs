use digital_garden::about::AboutMe;
use digital_garden::apps::binary_clock::{bcd_leds, hms, pure_leds, readout};
use digital_garden::apps::calculator::Op;
use digital_garden::apps::canvas_view::{file_to_note_id, note_id_from_stem, CanvasEdge, Side};
use digital_garden::apps::collections::{filter_matches, toggle_selection};
use digital_garden::apps::palette_studio::position_fn_label;
use digital_garden::apps::projects::Projects;
use digital_garden::apps::timestamp_converter::{
    classify_input, datetime_from_parts, epoch_to_datetime, parse_human_datetime, read_datetime,
    timestamp_nanos, InputKind, Reading, TimestampConverter, WallClock,
};
use digital_garden::instant::UtcInstant;
use digital_garden::apps::workouts::month_short;
use digital_garden::palette::{key_index, PositionFn, Scheme};

#[test]
fn scheme_round_trips_through_atomic_index() {
    for s in Scheme::all() {
        assert_eq!(Scheme::from_index(s.to_index()), s);
    }
}

#[test]
fn scheme_numbers_and_labels() {
    assert_eq!(Scheme::from_index(200), Scheme::TimeOfDay);
    assert_eq!(Scheme::Custom.to_index(), 8);
    assert_eq!(Scheme::TimeOfDay.label(), "Time of Day");
    assert_eq!(Scheme::all().len(), 9);
}

fn edge() -> CanvasEdge {
    CanvasEdge {
        id: "e".into(),
        from_node: None,
        to_node: Some("b".into()),
        from_node_alt: Some("a".into()),
        to_node_alt: Some("ignored".into()),
        from_side: Some("left".into()),
        to_side: None,
        from_side_alt: Some("top".into()),
        to_side_alt: Some("diagonal".into()),
        label: None,
    }
}

#[test]
fn canvas_edges_resolve_fields() {
    let e = edge();
    assert_eq!(e.from(), Some("a"));
    assert_eq!(e.to(), Some("b"));
    assert_eq!(e.from_side_resolved(), Some(Side::Left));
    assert_eq!(e.to_side_resolved(), None);
    assert_eq!(Side::parse(Some("bottom")), Some(Side::Bottom));
    assert_eq!(Side::parse(None), None);
}

#[test]
fn file_nodes_open_their_stem() {
    assert_eq!(file_to_note_id("Ideas.md"), "Ideas");
    assert_eq!(file_to_note_id("dir/Ideas.md"), "Ideas");
    assert_eq!(note_id_from_stem("x", None), "x");
}

#[test]
fn collection_filter() {
    assert!(filter_matches("", "Anything", None));
    assert!(filter_matches("denarius", "Augustus — Denarius", None));
    assert!(filter_matches("lugd", "Coin", Some("Lugdunum mint")));
    assert!(!filter_matches("zzz", "Coin", Some("Lugdunum")));
}

#[test]
fn labels_and_state() {
    assert_eq!(month_short(1), "Jan");
    assert_eq!(month_short(12), "Dec");
    assert_eq!(month_short(13), "");
    assert_eq!(Op::Div.symbol(), "÷");
    assert_eq!(Op::Sub.symbol(), "−");
    assert_eq!(position_fn_label(PositionFn::SmoothStep), "SmoothStep");
    let p = Projects::default();
    assert!(p.stack_filter.is_none() && p.query.is_empty());
    assert!(TimestampConverter::default().input.is_empty());
    let _ = AboutMe::default();
}

#[test]
fn parses_seconds_epoch() {
    let (t, unit) = epoch_to_datetime(1_778_941_965).unwrap();
    assert_eq!(unit, "seconds");
    let dt = chrono::DateTime::from_timestamp(t.seconds, t.nanos).unwrap();
    assert_eq!(dt.to_rfc3339(), "2026-05-16T14:32:45+00:00");
}

#[test]
fn parses_nanoseconds_epoch() {
    let (t, unit) = epoch_to_datetime(1_715_788_800_000_000_000).unwrap();
    assert_eq!(unit, "nanoseconds");
    let dt = chrono::DateTime::from_timestamp(t.seconds, t.nanos).unwrap();
    assert_eq!(dt.to_rfc3339(), "2024-05-15T16:00:00+00:00");
}

#[test]
fn epoch_units_and_rounding() {
    let (t, unit) = epoch_to_datetime(1_715_788_800_123).unwrap();
    assert_eq!(unit, "milliseconds");
    assert_eq!(t, UtcInstant { seconds: 1_715_788_800, nanos: 123_000_000 });
    let (t, unit) = epoch_to_datetime(-1_500_000_000_000_001).unwrap();
    assert_eq!(unit, "microseconds");
    assert_eq!(t, UtcInstant { seconds: -1_500_000_001, nanos: 999_999_000 });
    let (t, _) = epoch_to_datetime(-5).unwrap();
    assert_eq!(t, UtcInstant { seconds: -5, nanos: 0 });
    assert!(epoch_to_datetime(999_999_999_999).is_ok());
    // 10^30 ns is 10^21 s, past `i64`; 10^25 ns is 10^16 s, past chrono's
    // last year.
    assert_eq!(
        epoch_to_datetime(1_000_000_000_000_000_000_000_000_000_000).unwrap_err(),
        "Timestamp is outside the supported nanoseconds range."
    );
    assert!(epoch_to_datetime(10_000_000_000_000_000_000_000_000).is_err());
    assert!(datetime_from_parts(i128::from(i64::MAX) + 1, 0, "seconds").is_err());
}

#[test]
fn inputs_are_classified() {
    assert!(matches!(classify_input("   "), InputKind::Empty));
    assert!(matches!(classify_input(" 42 "), InputKind::Epoch(42)));
    assert!(matches!(classify_input("-7"), InputKind::Epoch(-7)));
    match classify_input(" 2024-05-15T00:00:00Z ") {
        InputKind::Text(t) => assert_eq!(t, "2024-05-15T00:00:00Z"),
        _ => panic!("expected text"),
    }
}

#[test]
fn key_index_is_fnv1a_modulo_len() {
    // FNV-1a("a") = 0xe40c292c; of the empty key it is the offset basis.
    assert_eq!(key_index("a", 7), 0xe40c_292c % 7);
    assert_eq!(key_index("", 5), 0x811c_9dc5 % 5);
    assert_eq!(key_index("café", 5), 4);
    assert_eq!(key_index("rust", 7), 1);
    assert_eq!(key_index("anything", 1), 0);
    assert_eq!(key_index("rust", 7), key_index("rust", 7));
}

#[test]
fn clock_splits_the_day() {
    assert_eq!(hms(0), (0, 0, 0));
    assert_eq!(hms(13 * 3600 + 5 * 60 + 9), (13, 5, 9));
    assert_eq!(hms(86_400 + 61), (0, 1, 1));
    // One second before midnight, counted backwards.
    assert_eq!(hms(-1), (23, 59, 59));
}

#[test]
fn clock_bcd_columns_light_the_digit_bits() {
    // 13:05:09 → digits 1 3 0 5 0 9.
    let leds = bcd_leds(13, 5, 9);
    assert_eq!(leds.len(), 6);
    assert_eq!(leds[0], vec![true, false]);
    assert_eq!(leds[1], vec![true, true, false, false]);
    assert_eq!(leds[2], vec![false, false, false]);
    assert_eq!(leds[3], vec![true, false, true, false]);
    assert_eq!(leds[5], vec![true, false, false, true]);
}

#[test]
fn clock_pure_binary_rows() {
    let leds = pure_leds(23, 59, 0);
    assert_eq!(leds[0], vec![true, true, true, false, true, false]);
    assert_eq!(leds[1], vec![true, true, false, true, true, true]);
    assert_eq!(leds[2], vec![false; 6]);
}

#[test]
fn clock_readout_pads_fields() {
    assert_eq!(readout(7, 5, 0), "07:05:00");
    assert_eq!(readout(23, 59, 59), "23:59:59");
}

/// Places wall-clock times as if the local zone were UTC.
fn as_utc(w: WallClock) -> Result<UtcInstant, String> {
    Ok(UtcInstant { seconds: w.seconds, nanos: w.nanos })
}

#[test]
fn parses_rfc3339_datetime() {
    let dt = parse_human_datetime("2024-05-15T00:00:00Z", &as_utc).unwrap();
    assert_eq!(dt.seconds, 1_715_731_200);
}

#[test]
fn typed_datetimes_read_in_order() {
    // An offset is applied: 02:00 at +02:00 is midnight UTC.
    assert_eq!(read_datetime("2024-05-15 02:00:00 +0200"), Reading::Moment(1_715_731_200, 0));
    assert_eq!(read_datetime("2024-05-15T00:00:00.5Z"), Reading::Moment(1_715_731_200, 500_000_000));
    // Without an offset the time is on the local wall clock.
    assert_eq!(read_datetime("2024-05-15 00:00"), Reading::Wall(1_715_731_200, 0));
    assert_eq!(read_datetime("2024-05-15"), Reading::Wall(1_715_731_200, 0));
    assert_eq!(read_datetime("yesterday"), Reading::Unreadable);
}

#[test]
fn typed_datetimes_use_the_local_zone_only_without_offset() {
    let two_hours_ahead = |w: WallClock| -> Result<UtcInstant, String> {
        Ok(UtcInstant { seconds: w.seconds - 7200, nanos: w.nanos })
    };
    assert_eq!(parse_human_datetime("2024-05-15 02:00:00", &two_hours_ahead).unwrap().seconds, 1_715_731_200);
    assert_eq!(parse_human_datetime("2024-05-15T00:00:00Z", &two_hours_ahead).unwrap().seconds, 1_715_731_200);
    let gap = |_: WallClock| -> Result<UtcInstant, String> { Err("gap".to_string()) };
    assert_eq!(parse_human_datetime("2024-05-15", &gap), Err("gap".to_string()));
    assert_eq!(
        parse_human_datetime("soon", &as_utc),
        Err("Enter an epoch number or a date like 2024-05-15T00:00:00Z.".to_string())
    );
}

#[test]
fn timestamp_nanos_counts_from_the_epoch() {
    assert_eq!(timestamp_nanos(UtcInstant { seconds: 2, nanos: 5 }), 2_000_000_005);
    assert_eq!(timestamp_nanos(UtcInstant { seconds: -1, nanos: 999_999_999 }), -1);
}

#[test]
fn bare_file_names_lose_their_last_extension() {
    assert_eq!(file_to_note_id("a.b.c"), "a.b");
    assert_eq!(file_to_note_id(".md"), ".md");
    assert_eq!(file_to_note_id("Ideas"), "Ideas");
    assert_eq!(file_to_note_id("..."), "..");
}

#[test]
fn file_nodes_in_folders_open_the_stem() {
    assert_eq!(file_to_note_id("notes/2024/a.b.md"), "a.b");
    assert_eq!(file_to_note_id("/abs/Ideas"), "Ideas");
}

#[test]
fn epoch_numbers_take_a_sign_and_digits_only() {
    assert!(matches!(classify_input("+12"), InputKind::Epoch(12)));
    assert!(matches!(classify_input("-"), InputKind::Text(_)));
    assert!(matches!(classify_input("1e3"), InputKind::Text(_)));
    assert!(matches!(classify_input("170141183460469231731687303715884105727"), InputKind::Epoch(i128::MAX)));
    assert!(matches!(classify_input("170141183460469231731687303715884105728"), InputKind::Text(_)));
    assert!(matches!(classify_input("-170141183460469231731687303715884105728"), InputKind::Epoch(i128::MIN)));
    assert!(matches!(classify_input("-170141183460469231731687303715884105729"), InputKind::Text(_)));
    assert!(matches!(classify_input("99999999999999999999999999999999999999999"), InputKind::Text(_)));
    assert!(matches!(classify_input("+"), InputKind::Text(_)));
    assert!(matches!(classify_input("-0"), InputKind::Epoch(0)));
    assert!(matches!(classify_input("0007"), InputKind::Epoch(7)));
}

#[test]
fn clicking_the_selected_card_again_deselects_it() {
    assert_eq!(toggle_selection(None, "a".to_string()), Some("a".to_string()));
    assert_eq!(toggle_selection(Some("a".to_string()), "a".to_string()), None);
    assert_eq!(toggle_selection(Some("a".to_string()), "b".to_string()), Some("b".to_string()));
}
