use codex_status::fleet_status::{
    command_outcome, output_fits, parse_command_output, FLEET_STATUS_MAX_BYTES, FleetRefresh, FleetStatusState, Instant, FLEET_STATUS_REFRESH_INTERVAL_NANOS,
};
use codex_status::ids::ThreadId;

#[test]
fn stale_thread_result_does_not_clear_newer_pending_request() {
    let old_thread_id = ThreadId::from_u128(1);
    let current_thread_id = ThreadId::from_u128(2);
    let mut state = FleetStatusState {
        active_thread_id: Some(current_thread_id),
        segment: None,
        pending: true,
        last_requested_at: Some(Instant { nanos: 42 }),
    };

    assert!(!state.apply_update(old_thread_id, Some("fleet 9".to_string())));
    assert_eq!(
        state,
        FleetStatusState {
            active_thread_id: Some(current_thread_id),
            segment: None,
            pending: true,
            last_requested_at: state.last_requested_at,
        }
    );
}

#[test]
fn answer_for_active_thread_is_taken() {
    let thread = ThreadId::from_u128(7);
    let mut state = FleetStatusState {
        active_thread_id: Some(thread),
        segment: None,
        pending: true,
        last_requested_at: Some(Instant { nanos: 1 }),
    };
    assert!(state.set_status_line_fleet(thread, Some("fleet 2".to_string())));
    assert_eq!(state.segment, Some("fleet 2".to_string()));
    assert!(!state.pending);
    assert_eq!(state.last_requested_at, Some(Instant { nanos: 1 }));
}

#[test]
fn refresh_queries_once_per_interval() {
    let thread = ThreadId::from_u128(9);
    let mut state = FleetStatusState {
        active_thread_id: None,
        segment: None,
        pending: false,
        last_requested_at: None,
    };
    assert!(state.enable_fleet_status_for_current_thread(Some(thread)));
    assert!(!state.enable_fleet_status_for_current_thread(Some(thread)));

    let first = state.refresh_fleet_status_if_due(Instant { nanos: 100 });
    assert_eq!(
        first,
        Some(FleetRefresh {
            query_thread: Some(thread),
            frame_due: Some(Instant { nanos: 100 + FLEET_STATUS_REFRESH_INTERVAL_NANOS }),
        })
    );
    assert!(state.pending);

    // While the query is in flight no other starts.
    let second = state.refresh_fleet_status_if_due(Instant { nanos: 100 + 2 * FLEET_STATUS_REFRESH_INTERVAL_NANOS });
    assert_eq!(second.map(|r| r.query_thread), Some(None));

    assert!(state.apply_update(thread, Some("fleet 1".to_string())));
    let early = state.refresh_fleet_status_if_due(Instant { nanos: 99 + FLEET_STATUS_REFRESH_INTERVAL_NANOS });
    assert_eq!(early.map(|r| r.query_thread), Some(None));
    let due = state.refresh_fleet_status_if_due(Instant { nanos: 100 + FLEET_STATUS_REFRESH_INTERVAL_NANOS });
    assert_eq!(due.map(|r| r.query_thread), Some(Some(thread)));
}

#[test]
fn refresh_without_active_thread_does_nothing() {
    let mut state = FleetStatusState {
        active_thread_id: None,
        segment: None,
        pending: false,
        last_requested_at: None,
    };
    assert_eq!(state.refresh_fleet_status_if_due(Instant { nanos: 5 }), None);
    assert_eq!(state.last_requested_at, None);
}

#[test]
fn disable_clears_everything() {
    let mut state = FleetStatusState {
        active_thread_id: Some(ThreadId::from_u128(3)),
        segment: Some("fleet 1".to_string()),
        pending: true,
        last_requested_at: Some(Instant { nanos: 8 }),
    };
    state.disable_fleet_status();
    assert_eq!(
        state,
        FleetStatusState { active_thread_id: None, segment: None, pending: false, last_requested_at: None }
    );
    assert!(!state.enable_fleet_status_for_current_thread(None));
}

#[test]
fn command_output_keeps_canonical_segment_without_line_ending() {
    assert_eq!(
        parse_command_output("fleet 3 ⚠1 ✉2 ⇄1\n".as_bytes().to_vec()),
        Some("fleet 3 ⚠1 ✉2 ⇄1".to_string())
    );
    assert_eq!(parse_command_output(b"fleet 3\r\n".to_vec()), Some("fleet 3".to_string()));
    assert_eq!(parse_command_output(b"fleet 3".to_vec()), Some("fleet 3".to_string()));
}

#[test]
fn malformed_command_output_is_refused() {
    for output in [
        "fleet 3\nbad",
        "not-fleet 3",
        "fleet 3 ✉2 ⚠1",
        "fleet 3 ⚠0",
        "fleet 3 ✉0",
        "fleet 3 ⇄0",
        "",
        "\n",
        "fleet 3\n\n",
        "fleet 3\n\r",
        "fleet\u{7f} 3",
    ] {
        assert_eq!(parse_command_output(output.as_bytes().to_vec()), None, "{output}");
    }
    assert_eq!(parse_command_output(vec![0x66, 0xff, 0x33]), None);
}

#[test]
fn command_outcome_needs_fitting_output_and_success() {
    assert!(output_fits(FLEET_STATUS_MAX_BYTES as usize));
    assert!(!output_fits(FLEET_STATUS_MAX_BYTES as usize + 1));
    assert_eq!(command_outcome(b"fleet 3\n".to_vec(), true), Some("fleet 3".to_string()));
    assert_eq!(command_outcome(b"fleet 3".to_vec(), false), None);
    let oversized = "x".repeat(FLEET_STATUS_MAX_BYTES as usize + 1);
    assert_eq!(command_outcome(oversized.into_bytes(), true), None);
    let mut big = "fleet 3 ⚠1".to_string();
    while big.len() <= FLEET_STATUS_MAX_BYTES as usize {
        big.push(' ');
    }
    assert_eq!(command_outcome(big.into_bytes(), true), None);
}

#[test]
fn refresh_without_active_thread_needs_no_clock_range() {
    let mut state = FleetStatusState {
        active_thread_id: None,
        segment: None,
        pending: false,
        last_requested_at: Some(Instant { nanos: u64::MAX }),
    };
    assert_eq!(state.refresh_fleet_status_if_due(Instant { nanos: u64::MAX }), None);
}
