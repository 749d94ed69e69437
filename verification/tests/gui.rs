use rs_linkfusion::gui::{AutoAction, GuiEvent, GuiState, AUTO_INTERVAL_SECS};
use rs_linkfusion::speedtest::{NetworkEnvironment, SpeedTestRecord};

fn record(label: &str) -> SpeedTestRecord {
    SpeedTestRecord {
        recorded_at: "2026-07-23 12:00:00".to_string(),
        source: "M-Lab".to_string(),
        label: label.to_string(),
        download_mbps: "123.4".to_string(),
        upload_mbps: "56.7".to_string(),
    }
}

fn finished(label: &str) -> GuiEvent {
    GuiEvent::MeasurementFinished(Ok(record(label)))
}

fn failed(error: &str) -> GuiEvent {
    GuiEvent::MeasurementFinished(Err(error.to_string()))
}

fn labels(state: &GuiState) -> Vec<String> {
    state.history.iter().map(|r| r.label.clone()).collect()
}

#[test]
fn window_opens_at_rest() {
    let state = GuiState::new(vec![record("old")], None);
    assert!(!state.measuring);
    assert!(!state.auto_enabled);
    assert!(state.last_error.is_none());
    assert!(state.environment.is_none());
    assert_eq!(labels(&state), ["old"]);
}

#[test]
fn button_starts_one_measurement_at_a_time() {
    let mut state = GuiState::new(vec![], None);
    state.last_error = Some("old error".to_string());
    assert!(state.start_measurement());
    assert!(state.measuring);
    assert!(state.last_error.is_none());
    state.last_error = Some("kept".to_string());
    assert!(!state.start_measurement());
    assert_eq!(state.last_error.as_deref(), Some("kept"));
}

#[test]
fn events_bring_records_and_errors() {
    let mut state = GuiState::new(vec![record("old")], None);
    state.drain_events(vec![GuiEvent::MeasurementStarted]);
    assert!(state.measuring);
    state.drain_events(vec![]);
    assert!(state.measuring);
    state.drain_events(vec![
        finished("a"),
        failed("first"),
        GuiEvent::MeasurementStarted,
        failed("second"),
        finished("b"),
    ]);
    assert!(!state.measuring);
    assert_eq!(labels(&state), ["old", "a", "b"]);
    assert_eq!(state.last_error.as_deref(), Some("second"));
    state.drain_events(vec![GuiEvent::MeasurementStarted, finished("c")]);
    assert_eq!(state.last_error.as_deref(), Some("second"));
    assert_eq!(labels(&state), ["old", "a", "b", "c"]);
}

#[test]
fn draining_in_two_parts_is_draining_at_once() {
    let events = || {
        vec![
            GuiEvent::MeasurementStarted,
            finished("a"),
            failed("x"),
            GuiEvent::MeasurementStarted,
            finished("b"),
        ]
    };
    let mut whole = GuiState::new(vec![], None);
    whole.drain_events(events());
    for cut in 0..=5 {
        let mut parts = GuiState::new(vec![], None);
        let mut first = events();
        let second = first.split_off(cut);
        parts.drain_events(first);
        parts.drain_events(second);
        assert_eq!(labels(&parts), labels(&whole));
        assert_eq!(parts.measuring, whole.measuring);
        assert_eq!(parts.last_error, whole.last_error);
    }
}

#[test]
fn automatic_mode_starts_and_stops_its_series() {
    let mut state = GuiState::new(vec![], None);
    assert_eq!(state.set_auto(false), AutoAction::Nothing);
    assert_eq!(state.set_auto(true), AutoAction::Start);
    assert!(state.auto_enabled);
    assert_eq!(state.set_auto(true), AutoAction::Start);
    assert_eq!(state.set_auto(false), AutoAction::Stop);
    assert!(!state.auto_enabled);
    assert_eq!(state.set_auto(false), AutoAction::Nothing);
    assert_eq!(AUTO_INTERVAL_SECS, 60 * 60);
}

#[test]
fn screen_shows_the_five_latest_newest_first() {
    let history = ["1", "2", "3", "4", "5", "6", "7"].map(record).into_iter().collect();
    let screen = GuiState::new(history, None).screen();
    assert_eq!(screen.history_heading, "測定履歴(7件、直近5件を表示):");
    assert_eq!(screen.recent.len(), 5);
    assert_eq!(
        screen.recent[0],
        "[2026-07-23 12:00:00] M-Lab / 7: down 123.4 Mbps, up 56.7 Mbps"
    );
    assert!(screen.recent[4].contains("/ 3:"));
    let short = GuiState::new(vec![record("only")], None).screen();
    assert_eq!(short.recent.len(), 1);
    let empty = GuiState::new(vec![], None).screen();
    assert!(empty.recent.is_empty());
    assert_eq!(empty.history_heading, "測定履歴(0件、直近5件を表示):");
}

#[test]
fn screen_follows_the_state() {
    let mut state = GuiState::new(
        vec![],
        Some(NetworkEnvironment {
            interface_count: 12,
            ethernet_count: 3,
            wifi_count: 0,
            other_count: 9,
            interface_names: vec!["eth0".to_string(), "wlan0".to_string()],
        }),
    );
    let screen = state.screen();
    assert_eq!(
        screen.environment,
        [
            "検出されたネットワークインターフェース: 合計12個(有線3・無線0・その他9)",
            "  - eth0",
            "  - wlan0",
        ]
    );
    assert!(screen.button_enabled);
    assert!(!screen.busy);
    assert!(!screen.auto_enabled);
    assert!(screen.error.is_none());
    state.set_auto(true);
    state.drain_events(vec![failed("回線断"), GuiEvent::MeasurementStarted]);
    let screen = state.screen();
    assert!(!screen.button_enabled);
    assert!(screen.busy);
    assert!(screen.auto_enabled);
    assert_eq!(screen.error.as_deref(), Some("測定エラー: 回線断"));
    assert!(GuiState::new(vec![], None).screen().environment.is_empty());
}

#[test]
fn without_a_press_nothing_is_started() {
    let mut state = GuiState::new(vec![], None);
    for _ in 0..3 {
        state.update(vec![GuiEvent::MeasurementStarted, finished("a"), failed("x")]);
        assert_eq!(state.set_auto(false), AutoAction::Nothing);
        assert!(!state.auto_enabled);
    }
}

#[test]
fn second_press_waits_for_the_end_of_the_first_measurement() {
    let mut state = GuiState::new(vec![], None);
    assert!(state.start_measurement());
    state.update(vec![GuiEvent::MeasurementStarted]);
    state.set_auto(true);
    assert!(!state.start_measurement());
    state.update(vec![finished("a")]);
    assert!(state.start_measurement());
}

#[test]
fn update_takes_the_events_in_before_it_shows() {
    let mut state = GuiState::new(vec![record("old")], None);
    let screen = state.update(vec![finished("new"), failed("late")]);
    assert_eq!(screen.history_heading, "測定履歴(2件、直近5件を表示):");
    assert!(screen.recent[0].contains("/ new:"));
    assert_eq!(screen.error.as_deref(), Some("測定エラー: late"));
    assert!(screen.button_enabled);
    let screen = state.update(vec![GuiEvent::MeasurementStarted]);
    assert!(screen.busy);
    assert!(!screen.button_enabled);
}
