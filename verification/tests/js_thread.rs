use bevy_react_core::js_thread::{
    bundle_changed, log_level, pump_turn, HotReload, LogLevel, LoopTurn, Pumped, ReloadAction,
};

#[test]
fn console_levels_map_to_log_levels() {
    assert_eq!(log_level("error"), LogLevel::Error);
    assert_eq!(log_level("warn"), LogLevel::Warn);
    assert_eq!(log_level("debug"), LogLevel::Debug);
    assert_eq!(log_level("info"), LogLevel::Info);
    assert_eq!(log_level("log"), LogLevel::Info);
    assert_eq!(log_level("ERROR"), LogLevel::Info);
}

#[test]
fn the_pump_hands_back_on_reload_or_shutdown() {
    assert_eq!(pump_turn(LoopTurn::Notified, true), Some(Pumped::Reload));
    assert_eq!(pump_turn(LoopTurn::Notified, false), None, "a stale permit keeps pumping");
    assert_eq!(pump_turn(LoopTurn::Failed, false), Some(Pumped::Reload));
    assert_eq!(pump_turn(LoopTurn::Idle, true), Some(Pumped::Reload));
    assert_eq!(pump_turn(LoopTurn::Idle, false), Some(Pumped::Shutdown));
}

#[test]
fn a_throwing_bundle_restores_the_last_working_one() {
    let mut h = HotReload::new("v1".to_string());
    match h.on_read(Some("v2".to_string())) {
        ReloadAction::Execute(code) => assert_eq!(code, "v2"),
        other => panic!("expected Execute, got {other:?}"),
    }
    assert!(matches!(h.on_executed(true), ReloadAction::Applied));
    match h.on_read(Some("v3-broken".to_string())) {
        ReloadAction::Execute(code) => assert_eq!(code, "v3-broken"),
        other => panic!("expected Execute, got {other:?}"),
    }
    match h.on_executed(false) {
        ReloadAction::Restore(code) => assert_eq!(code, "v2"),
        other => panic!("expected Restore, got {other:?}"),
    }
    // Restoring the fallback itself succeeds and keeps it.
    assert!(matches!(h.on_executed(true), ReloadAction::Applied));
    match h.on_executed(false) {
        ReloadAction::Restore(code) => assert_eq!(code, "v2"),
        other => panic!("expected Restore, got {other:?}"),
    }
}

#[test]
fn an_unreadable_bundle_keeps_the_app() {
    let mut h = HotReload::new("v1".to_string());
    assert!(matches!(h.on_read(None), ReloadAction::Keep));
    match h.on_executed(false) {
        ReloadAction::Restore(code) => assert_eq!(code, "v1"),
        other => panic!("expected Restore, got {other:?}"),
    }
}

#[test]
fn the_watcher_fires_on_a_new_mtime_only() {
    assert!(bundle_changed(Some(5), None));
    assert!(bundle_changed(Some(6), Some(5)));
    assert!(!bundle_changed(Some(5), Some(5)));
    assert!(!bundle_changed(None, Some(5)));
    assert!(!bundle_changed(None, None));
}
