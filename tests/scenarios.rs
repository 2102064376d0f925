use ethotimer::{Action, Coordinator, HistoryEvent, HistoryLedger, Msg, Row};

fn row(millis_from_start: u64, activity: u8, is_active: u8) -> Row {
    Row { millis_from_start, activity, is_active }
}

#[test]
fn scenario_switch_then_stop() {
    let mut c = Coordinator::new(3);
    c.activate_at(1, 0);
    c.activate_at(2, 5000);
    c.stop_all_at(8000);
    assert_eq!(
        c.history_rows(),
        vec![row(0, 1, 1), row(5000, 1, 0), row(5000, 2, 1), row(8000, 2, 0), row(8000, 0, 0)]
    );
    assert_eq!(
        c.export_csv(),
        "duration_from_start_seconds,activity_id,is_active\n0,1,1\n5,1,0\n5,2,1\n8,2,0\n8,0,0"
    );
    assert_eq!(c.total_elapsed_at(1, 8000), 5000);
    assert_eq!(c.total_elapsed_at(2, 8000), 3000);
    assert_eq!(c.master_elapsed_at(8000), 8000);
    assert!(!c.master_active());
}

#[test]
fn scenario_reset_discards_everything() {
    let mut c = Coordinator::new(3);
    c.activate_at(1, 0);
    c.reset();
    assert!(c.history_rows().is_empty());
    assert_eq!(c.total_elapsed_at(1, 3000), 0);
    assert!(!c.is_active(1));
    assert!(!c.master_active());
    assert_eq!(c.master_elapsed_at(3000), 0);
}

#[test]
fn scenario_double_stop_records_one_idle_marker() {
    let mut c = Coordinator::new(3);
    c.activate_at(3, 1000);
    c.stop_all_at(2000);
    c.stop_all_at(4000);
    assert_eq!(c.history_rows(), vec![row(0, 3, 1), row(1000, 3, 0), row(1000, 0, 0)]);
}

#[test]
fn stop_with_empty_history_records_nothing() {
    let mut c = Coordinator::new(3);
    c.stop_all_at(10);
    c.stop_all_at(20);
    assert!(c.history_rows().is_empty());
    assert_eq!(c.export_csv(), "duration_from_start_seconds,activity_id,is_active");
}

#[test]
fn activations_are_mutually_exclusive() {
    let mut c = Coordinator::new(3);
    let steps: [(u8, u64); 6] = [(1, 0), (3, 10), (3, 20), (2, 20), (1, 35), (2, 50)];
    for (id, t) in steps {
        c.activate_at(id, t);
        let running: Vec<u8> = (1..=3).filter(|&s| c.is_active(s)).collect();
        assert_eq!(running, vec![id]);
        assert!(c.master_active());
    }
}

#[test]
fn reactivating_the_running_slot_records_nothing() {
    let mut c = Coordinator::new(2);
    c.activate_at(2, 100);
    c.activate_at(2, 400);
    assert_eq!(c.history_rows(), vec![row(0, 2, 1)]);
    assert_eq!(c.total_elapsed_at(2, 1100), 1000);
}

#[test]
fn ledger_times_never_decrease() {
    let mut c = Coordinator::new(3);
    c.activate_at(1, 7);
    c.activate_at(2, 7);
    c.activate_at(3, 1500);
    c.stop_all_at(1500);
    c.activate_at(1, 2600);
    let rows = c.history_rows();
    assert_eq!(rows[0].millis_from_start, 0);
    for w in rows.windows(2) {
        assert!(w[0].millis_from_start <= w[1].millis_from_start);
    }
    assert_eq!(c.latest_time(), 2600);
}

#[test]
fn update_routes_messages() {
    let mut c = Coordinator::new(3);
    assert!(matches!(c.update_at(Msg::Activate(2), 0), Action::Render));
    assert!(c.is_active(2));
    assert!(matches!(c.update_at(Msg::ViewData, 1250), Action::ShowData));
    assert!(!c.is_active(2));
    assert!(matches!(c.update_at(Msg::ViewTimers, 1300), Action::ShowTimers));
    match c.update_at(Msg::DownloadCsv, 1300) {
        Action::Download(text) => assert_eq!(
            text,
            "duration_from_start_seconds,activity_id,is_active\n0,2,1\n1.25,2,0\n1.25,0,0"
        ),
        _ => panic!("expected a download"),
    }
    assert!(matches!(c.update_at(Msg::ClearData, 1400), Action::Render));
    assert!(c.history_rows().is_empty());
    assert!(matches!(c.update_at(Msg::Activate(1), 1500), Action::Render));
    assert!(matches!(c.update_at(Msg::StopAll, 1600), Action::Render));
    assert_eq!(c.history_rows(), vec![row(0, 1, 1), row(100, 1, 0), row(100, 0, 0)]);
}

#[test]
fn ledger_records_in_order_and_measures_from_first() {
    let mut l = HistoryLedger::new();
    assert!(l.to_rows().is_empty());
    assert_eq!(l.last(), None);
    l.record_transition(1, true, 500);
    l.record_transition(1, false, 500);
    l.record_transition(2, true, 2750);
    assert_eq!(l.len(), 3);
    assert_eq!(l.last(), Some(HistoryEvent { activity: 2, when: 2750, is_start: true }));
    assert_eq!(l.to_rows(), vec![row(0, 1, 1), row(0, 1, 0), row(2250, 2, 1)]);
    assert_eq!(l.to_rows(), l.to_rows());
    l.clear();
    assert_eq!(l.len(), 0);
}
