use ethotimer::{export_filename, proposed_filename, render, Clock, Coordinator, Row};

#[test]
fn empty_rows_render_the_header_alone() {
    assert_eq!(render(&vec![]), "duration_from_start_seconds,activity_id,is_active");
}

#[test]
fn three_rows_render_three_lines() {
    let rows = vec![
        Row { millis_from_start: 0, activity: 1, is_active: 1 },
        Row { millis_from_start: 1500, activity: 1, is_active: 0 },
        Row { millis_from_start: 1500, activity: 12, is_active: 1 },
    ];
    let text = render(&rows);
    let lines: Vec<&str> = text.split('\n').collect();
    assert_eq!(
        lines,
        vec!["duration_from_start_seconds,activity_id,is_active", "0,1,1", "1.5,1,0", "1.5,12,1"]
    );
    assert!(!text.ends_with('\n'));
}

#[test]
fn seconds_match_float_display() {
    for ms in [0u64, 1, 9, 10, 99, 100, 101, 110, 999, 1000, 1001, 1010, 1100, 5000, 12_345, 86_400_000, 3_600_123_456] {
        let text = render(&vec![Row { millis_from_start: ms, activity: 0, is_active: 0 }]);
        let expected = format!(
            "duration_from_start_seconds,activity_id,is_active\n{},0,0",
            ms as f64 / 1000.0
        );
        assert_eq!(text, expected, "ms = {}", ms);
    }
}

#[test]
fn seconds_exact_values() {
    let text = render(&vec![
        Row { millis_from_start: 250, activity: 255, is_active: 1 },
        Row { millis_from_start: 60_007, activity: 3, is_active: 0 },
    ]);
    assert_eq!(text, "duration_from_start_seconds,activity_id,is_active\n0.25,255,1\n60.007,3,0");
}

#[test]
fn filename_wraps_the_stamp() {
    assert_eq!(export_filename("20240131_235959_123456789"), "ethotimer_20240131_235959_123456789.csv");
}

#[test]
fn proposed_filename_has_the_stamp_layout() {
    let name = proposed_filename();
    assert!(name.starts_with("ethotimer_"));
    assert!(name.ends_with(".csv"));
    let stamp = &name["ethotimer_".len()..name.len() - ".csv".len()];
    let parts: Vec<&str> = stamp.split('_').collect();
    assert_eq!(parts.len(), 3);
    assert_eq!(parts[0].len(), 8);
    assert_eq!(parts[1].len(), 6);
    assert_eq!(parts[2].len(), 9);
    assert!(stamp.chars().all(|c| c == '_' || c.is_ascii_digit()));
}

#[test]
fn clock_driven_coordinator() {
    let clock = Clock::new();
    let mut c = Coordinator::new(3);
    c.activate(1, &clock);
    assert!(c.is_active(1));
    c.activate(2, &clock);
    assert!(!c.is_active(1));
    assert!(c.is_active(2));
    c.stop_all(&clock);
    assert!(!c.is_active(2));
    let rows = c.history_rows();
    assert_eq!(rows.len(), 5);
    assert_eq!(rows[0].millis_from_start, 0);
    assert_eq!(rows[4].activity, 0);
    let e = c.total_elapsed(1, &clock);
    assert_eq!(c.total_elapsed(1, &clock), e);
    let m = c.master_elapsed(&clock);
    assert_eq!(c.master_elapsed(&clock), m);
}

#[test]
fn ledger_of_three_events_exports_three_lines() {
    let mut l = ethotimer::HistoryLedger::new();
    l.record_transition(2, true, 1_000);
    l.record_transition(2, false, 3_500);
    l.record_transition(0, false, 3_500);
    assert_eq!(
        render(&l.to_rows()),
        "duration_from_start_seconds,activity_id,is_active\n0,2,1\n2.5,2,0\n2.5,0,0"
    );
    assert_eq!(render(&ethotimer::HistoryLedger::new().to_rows()), "duration_from_start_seconds,activity_id,is_active");
}
