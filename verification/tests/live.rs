use autoaim::live::{
    pick_screen, app_log_line, dataset_frame_name, should_log_live_snapshot, DatasetQuota, OverlayRefresh,
    LIVE_DATASET_MAX_FRAMES,
};

#[test]
fn live_snapshots_log_first_periodic_and_slow() {
    assert!(should_log_live_snapshot(0, 10));
    assert!(should_log_live_snapshot(5, 10));
    assert!(!should_log_live_snapshot(6, 10));
    assert!(should_log_live_snapshot(120, 10));
    assert!(!should_log_live_snapshot(121, 99));
    assert!(should_log_live_snapshot(121, 100));
}

#[test]
fn overlay_refresh_generations_retire_old_loops() {
    let mut refresh = OverlayRefresh::new();
    assert_eq!(refresh.active_screen_id(), None);
    let first = refresh.activate("screen-1".to_string());
    assert_eq!(first, 1);
    assert!(refresh.is_current("screen-1", first));
    assert!(!refresh.is_current("screen-2", first));
    assert!(refresh.is_active_screen("screen-1"));
    let second = refresh.activate("screen-2".to_string());
    assert_eq!(second, 2);
    assert!(!refresh.is_current("screen-1", first));
    assert!(!refresh.is_current("screen-2", first));
    assert!(refresh.is_current("screen-2", second));
    assert_eq!(refresh.deactivate(), 2);
    assert!(!refresh.is_current("screen-2", second));
    assert!(!refresh.is_active_screen("screen-2"));
    assert_eq!(refresh.active_screen_id(), None);
    assert!(!refresh.is_current("screen-2", 3));
}

#[test]
fn dataset_quota_stops_at_its_allowance() {
    assert_eq!(LIVE_DATASET_MAX_FRAMES, 120);
    let mut quota = DatasetQuota::new(2);
    assert!(quota.has_room());
    assert!(!quota.frame_written());
    assert!(quota.has_room());
    assert!(quota.frame_written());
    assert!(!quota.has_room());
    assert_eq!(quota.frames_written(), 2);
    assert_eq!(quota.max_frames(), 2);
    assert!(!DatasetQuota::new(0).has_room());
}

#[test]
fn dataset_frames_are_named_by_padded_sequence() {
    assert_eq!(dataset_frame_name(0), "frame-000000.rgba");
    assert_eq!(dataset_frame_name(42), "frame-000042.rgba");
    assert_eq!(dataset_frame_name(123456), "frame-123456.rgba");
    assert_eq!(dataset_frame_name(1234567), "frame-1234567.rgba");
}

#[test]
fn log_lines_omit_blank_payloads() {
    assert_eq!(
        app_log_line(1700000000123, "backend", "overlay refresh activated", Some("{\"generation\":3}")),
        "[1700000000123] [backend] overlay refresh activated | {\"generation\":3}\n"
    );
    assert_eq!(app_log_line(5, "ui", "click", Some("  ")), "[5] [ui] click\n");
    assert_eq!(app_log_line(0, "ui", "click", None), "[0] [ui] click\n");
}

#[test]
fn live_screen_is_chosen_by_id_then_primary_then_first() {
    let ids = vec!["a".to_string(), "b".to_string(), "c".to_string()];
    let primary = vec![false, true, true];
    assert_eq!(pick_screen(&ids, &primary, "c"), Some(2));
    assert_eq!(pick_screen(&ids, &primary, "z"), Some(1));
    assert_eq!(pick_screen(&ids, &[false, false, false].to_vec(), "z"), Some(0));
    assert_eq!(pick_screen(&vec![], &vec![], "a"), None);
    let twice = vec!["x".to_string(), "x".to_string()];
    assert_eq!(pick_screen(&twice, &vec![false, true], "x"), Some(0));
}
