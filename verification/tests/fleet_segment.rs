use codex_status::fleet_segment::{is_canonical_fleet_status, parse_fleet_status, FleetStatusCounts};

#[test]
fn canonical_segments_are_read_back() {
    assert_eq!(
        parse_fleet_status("fleet 3 ⚠1 ✉2 ⇄1"),
        Some(FleetStatusCounts { live: 3, approvals: Some(1), unread: Some(2), active_runs: Some(1) })
    );
    assert_eq!(
        parse_fleet_status("fleet 0"),
        Some(FleetStatusCounts { live: 0, approvals: None, unread: None, active_runs: None })
    );
    assert_eq!(
        parse_fleet_status("fleet 7 ⇄4"),
        Some(FleetStatusCounts { live: 7, approvals: None, unread: None, active_runs: Some(4) })
    );
    assert_eq!(
        parse_fleet_status("fleet 18446744073709551615 ✉9"),
        Some(FleetStatusCounts {
            live: u64::MAX,
            approvals: None,
            unread: Some(9),
            active_runs: None
        })
    );
}

#[test]
fn non_canonical_spacing_and_overflow_are_refused() {
    for segment in [
        "",
        " fleet 3",
        "fleet 3 ",
        "fleet  3",
        "fleet\t3",
        "fleet 3 ⚠1  ✉2",
        "fleet 18446744073709551616",
        "fleet +3",
        "fleet 3 ⚠",
        "fleet 3 ⚠x",
        "Fleet 3",
        "fleet 3 ⇄1 ✉2",
        "fleet 3 ⚠01",
    ] {
        assert_eq!(parse_fleet_status(segment), None, "{segment}");
        assert!(!is_canonical_fleet_status(segment), "{segment}");
    }
    assert!(is_canonical_fleet_status("fleet 12 ⚠3"));
}
