use rusty_bvg::api::{FetchError, RawEntry};
use rusty_bvg::config::Config;
use rusty_bvg::departure::{get_mock_departures, Departure};
use rusty_bvg::rotation::{format_time, RotationState};
use rusty_bvg::timestamp::Timestamp;

fn state_with(departures: Vec<Departure>, current_index: usize) -> RotationState {
    RotationState { departures, current_index, last_fetch: 0, last_rotate: 0, needs_render: false }
}

fn some(count: u32) -> Vec<Departure> {
    (0..count).map(|i| Departure::new("S3", "Erkner", i + 1)).collect()
}

#[test]
fn new_state_is_empty_and_waits_to_be_drawn() {
    let state = RotationState::new(1234);
    assert!(state.departures.is_empty());
    assert_eq!(state.current_index, 0);
    assert_eq!(state.last_fetch, 1234);
    assert_eq!(state.last_rotate, 1234);
    assert!(state.needs_render);
}

#[test]
fn refresh_is_due_once_the_period_has_passed() {
    let state = RotationState::new(1000);
    assert!(!state.refresh_due(1000, 20_000));
    assert!(!state.refresh_due(20_999, 20_000));
    assert!(state.refresh_due(21_000, 20_000));
    assert!(state.refresh_due(u64::MAX, 20_000));
    assert!(state.refresh_due(1000, 0));
    assert!(!state.refresh_due(999, 0));
    assert!(!state.refresh_due(0, 20_000));
}

#[test]
fn successful_refresh_replaces_the_list_with_the_soonest() {
    let mut state = state_with(some(2), 1);
    state.refresh_succeeded(some(5), 3, 77);
    assert_eq!(state.departures, some(3));
    assert_eq!(state.current_index, 1);
    assert_eq!(state.last_fetch, 77);
    assert_eq!(state.last_rotate, 0);
    assert!(state.needs_render);
    state.refresh_succeeded(some(2), 3, 78);
    assert_eq!(state.departures, some(2));
    state.refresh_succeeded(some(2), 0, 79);
    assert!(state.departures.is_empty());
    state.refresh_succeeded(Vec::new(), 3, 80);
    assert!(state.departures.is_empty());
    assert!(state.needs_render);
}

#[test]
fn shrinking_refresh_keeps_the_index_and_render_reads_it_modulo_the_length() {
    let mut state = state_with(some(3), 2);
    state.refresh_succeeded(some(1), 3, 500);
    assert_eq!(state.departures.len(), 1);
    assert_eq!(state.current_index, 2);
    assert_eq!(state.effective_index(), Some(0));
    assert_eq!(state.departures[0], Departure::new("S3", "Erkner", 1));
    assert_eq!(state.render(), Some(0));
    assert!(!state.needs_render);
}

#[test]
fn failed_refresh_changes_nothing_but_the_time_of_the_attempt() {
    let mut state = state_with(get_mock_departures(), 2);
    state.last_rotate = 40;
    let before = state.clone();
    state.refresh_failed(900);
    assert_eq!(state.departures, before.departures);
    assert_eq!(state.current_index, before.current_index);
    assert_eq!(state.needs_render, before.needs_render);
    assert_eq!(state.last_rotate, before.last_rotate);
    assert_eq!(state.last_fetch, 900);

    let mut pending = before.clone();
    pending.needs_render = true;
    pending.refresh_failed(901);
    assert!(pending.needs_render);
    assert_eq!(pending.departures, before.departures);
    assert_eq!(pending.current_index, 2);
}

#[test]
fn refresh_runs_the_pipeline_and_keeps_the_soonest() {
    let entries: Vec<RawEntry> = [
        ("S7", "S Potsdam Hbf", "2024-01-01T00:09:00Z"),
        ("S5", "Strausberg Nord", "2024-01-01T00:03:00Z"),
        ("100", "Zoo", "2024-01-01T00:01:00Z"),
        ("U1", "Uhlandstr.", "2024-01-01T00:07:00Z"),
        ("M10", "Hauptbahnhof (Berlin)", "2024-01-01T00:03:30Z"),
        ("S3", "Erkner Bhf", "2024-01-01T00:14:00Z"),
    ]
    .iter()
    .map(|(line, direction, when)| RawEntry {
        line_code: line.to_string(),
        direction: Some(direction.to_string()),
        when: Some(when.to_string()),
        delay: Some(0),
    })
    .collect();
    let config = Config::default();
    let seen_at = Timestamp { secs: 1_704_067_200, nanos: 0 };
    let mut state = state_with(some(1), 5);
    state.refresh(Ok(entries), &config, &seen_at, 20_000);
    assert_eq!(
        state.departures,
        vec![
            Departure::new("S5", "Strausberg Nord", 3),
            Departure::new("M10", "Hauptbahnhof", 3),
            Departure::new("U1", "Uhlandstr.", 7),
        ]
    );
    assert_eq!(state.current_index, 5);
    assert_eq!(state.last_fetch, 20_000);
    assert!(state.needs_render);
    assert_eq!(state.render(), Some(2));
}

#[test]
fn refresh_that_failed_keeps_the_stale_list() {
    let config = Config::default();
    let seen_at = Timestamp { secs: 1_704_067_200, nanos: 0 };
    let mut state = state_with(get_mock_departures(), 1);
    state.refresh(Err(FetchError::Http("timed out".to_string())), &config, &seen_at, 40_000);
    assert_eq!(state.departures, get_mock_departures());
    assert_eq!(state.current_index, 1);
    assert!(!state.needs_render);
    assert_eq!(state.last_fetch, 40_000);
    state.refresh(Ok(Vec::new()), &config, &seen_at, 60_000);
    assert!(state.departures.is_empty());
    assert!(state.needs_render);
    assert_eq!(state.render(), None);
    assert!(state.needs_render);
}

#[test]
fn next_departure_cycles() {
    let mut state = state_with(some(3), 0);
    state.next_departure();
    assert_eq!(state.current_index(), 1);
    state.next_departure();
    assert_eq!(state.current_index(), 2);
    state.next_departure();
    assert_eq!(state.current_index(), 0);
    let mut single = state_with(some(1), 0);
    single.next_departure();
    assert_eq!(single.current_index(), 0);
}

#[test]
fn next_departure_reduces_an_index_beyond_the_list() {
    let mut state = state_with(some(3), 7);
    state.next_departure();
    assert_eq!(state.current_index, 2);
    let mut state = state_with(some(3), usize::MAX);
    state.next_departure();
    assert_eq!(state.current_index, ((usize::MAX % 3) + 1) % 3);
}

#[test]
fn rotate_fires_when_due_and_there_is_more_than_one() {
    let mut state = state_with(some(3), 0);
    assert!(!state.rotate(9_999, 10_000));
    assert_eq!(state, state_with(some(3), 0));
    assert!(state.rotate(10_000, 10_000));
    assert_eq!(state.current_index, 1);
    assert_eq!(state.last_rotate, 10_000);
    assert!(state.needs_render);
    assert!(!state.rotate(19_999, 10_000));
    assert!(state.rotate(25_000, 10_000));
    assert_eq!(state.current_index, 2);
    assert!(state.rotate(35_000, 10_000));
    assert_eq!(state.current_index, 0);
    assert_eq!(state.last_rotate, 35_000);
    assert!(!state.rotate(1, 10_000));
}

#[test]
fn rotate_leaves_short_lists_alone() {
    let mut single = state_with(some(1), 0);
    assert!(!single.rotate(50_000, 10_000));
    assert_eq!(single, state_with(some(1), 0));
    let mut empty = state_with(Vec::new(), 4);
    assert!(!empty.rotate(50_000, 10_000));
    assert_eq!(empty, state_with(Vec::new(), 4));
}

#[test]
fn render_fires_once_for_each_change() {
    let mut state = state_with(some(3), 4);
    assert_eq!(state.render(), None);
    state.needs_render = true;
    assert_eq!(state.render(), Some(1));
    assert!(!state.needs_render);
    assert_eq!(state.render(), None);
    assert_eq!(state.current_index, 4);
}

#[test]
fn render_waits_for_something_to_show() {
    let mut state = RotationState::new(0);
    assert_eq!(state.effective_index(), None);
    assert_eq!(state.render(), None);
    assert!(state.needs_render);
    state.refresh_succeeded(get_mock_departures(), 3, 10);
    assert_eq!(state.render(), Some(0));
    assert_eq!(state.departures[0], Departure::new("U3", "Krumme Lanke", 5));
}

#[test]
fn time_of_day_is_read_from_the_seconds() {
    assert_eq!(format_time(0), (0, 0, 0));
    assert_eq!(format_time(59), (0, 0, 59));
    assert_eq!(format_time(3_661), (1, 1, 1));
    assert_eq!(format_time(86_399), (23, 59, 59));
    assert_eq!(format_time(86_400), (0, 0, 0));
    assert_eq!(format_time(1_704_067_200 + 13 * 3600 + 37 * 60 + 42), (13, 37, 42));
    assert_eq!(format_time(u64::MAX), (7, 0, 15));
}
