use branchdiff::watch::{is_relevant, DiskEvent, Input, Pace, POLL_INTERVAL_MS, REFRESH_DEBOUNCE_MS};

#[test]
fn access_and_bookkeeping_events_are_ignored() {
    assert!(is_relevant(DiskEvent::Any));
    assert!(is_relevant(DiskEvent::Create));
    assert!(is_relevant(DiskEvent::Modify));
    assert!(is_relevant(DiskEvent::Remove));
    assert!(!is_relevant(DiskEvent::Access));
    assert!(!is_relevant(DiskEvent::Other));
}

#[test]
fn a_burst_gives_one_refresh_after_the_quiet_period() {
    assert_eq!(REFRESH_DEBOUNCE_MS, 300);
    assert_eq!(POLL_INTERVAL_MS, 100);
    let mut pace = Pace::new();
    assert!(!pace.take_refresh(0, false));
    pace.disk_event(DiskEvent::Modify, 1000);
    pace.disk_event(DiskEvent::Create, 1200);
    pace.disk_event(DiskEvent::Access, 1400);
    assert!(!pace.take_refresh(1300, false));
    assert!(!pace.take_refresh(1499, false));
    assert!(pace.take_refresh(1500, false));
    assert!(!pace.take_refresh(5000, false));
}

#[test]
fn a_refresh_waits_for_the_editor_to_close() {
    let mut pace = Pace::new();
    pace.disk_event(DiskEvent::Remove, 0);
    assert!(!pace.take_refresh(10_000, true));
    assert!(pace.take_refresh(10_001, false));
}

#[test]
fn the_screen_is_redrawn_when_something_happened() {
    let mut pace = Pace::new();
    assert!(pace.take_redraw());
    assert!(!pace.take_redraw());
    pace.input(Input::Other);
    assert!(!pace.take_redraw());
    pace.input(Input::Key);
    assert!(pace.take_redraw());
    pace.input(Input::Mouse);
    assert!(pace.take_redraw());
    pace.input(Input::Resize);
    assert!(pace.take_redraw());
    pace.disk_event(DiskEvent::Any, 0);
    assert!(!pace.take_redraw());
    assert!(pace.take_refresh(300, false));
    assert!(pace.take_redraw());
}
