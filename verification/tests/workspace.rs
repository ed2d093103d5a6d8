use reworkspace::chrome::WinKind;
use reworkspace::events::is_control;
use reworkspace::state::{bad_message, state_path, state_verdict, version_verdict, WinState, Windows, VERSION};
use reworkspace::workspace::{ts, wi};

#[test]
fn window_slots() {
    assert_eq!(wi(WinKind::FileViewer), 0);
    assert_eq!(wi(WinKind::Mandelbrot), 5);
    assert_eq!(wi(WinKind::Alert), 7);
}

#[test]
fn the_console_clock() {
    assert_eq!(ts(0, 0), "00:00:00");
    assert_eq!(ts(3661, 0), "01:01:01");
    assert_eq!(ts(86399, 0), "23:59:59");
    assert_eq!(ts(86400 + 45296, 3600), "13:34:56");
    assert_eq!(ts(0, -1), "00:00:59");
    assert_eq!(ts(0, -3601), "23:00:59");
}

#[test]
fn control_characters() {
    assert!(is_control('\n'));
    assert!(is_control('\u{7f}'));
    assert!(is_control('\u{85}'));
    assert!(!is_control('a'));
    assert!(!is_control('\u{a0}'));
}

#[test]
fn default_windows() {
    let w = Windows::default();
    assert_eq!((w.file_viewer.x, w.file_viewer.y, w.file_viewer.w, w.file_viewer.h, w.file_viewer.open), (120, 40, 640, 480, true));
    assert_eq!(w.console.h, 240);
    assert!(!w.inspector.open);
    assert_eq!((w.shell.w, w.shell.h), (591, 374));
    assert_eq!(w.librarian.path, "");
    let s = WinState::default();
    assert_eq!((s.x, s.y, s.w, s.h, s.open), (0, 0, 0, 0, false));
}

#[test]
fn valid_state_loads() {
    assert!(state_verdict(r#"{"version":1,"scale":2}"#).is_ok());
    assert_eq!(VERSION, 1);
}

#[test]
fn state_corrupt_state_is_renamed() {
    let why = state_verdict("{ not json").unwrap_err();
    assert!(why.starts_with("invalid JSON ("), "{why}");
    let msg = bad_message("/cfg/state.json", &why);
    assert!(msg.contains("state.json.bad"));
    assert!(msg.starts_with("/cfg/state.json: invalid JSON ("));
}

#[test]
fn state_unknown_version_is_renamed() {
    assert_eq!(state_verdict(r#"{"version":99}"#).unwrap_err(), "unknown state version Some(99)");
    assert_eq!(state_verdict(r#"{"scale":2}"#).unwrap_err(), "unknown state version None");
    assert_eq!(state_verdict(r#"{"version":"1"}"#).unwrap_err(), "unknown state version None");
    assert_eq!(version_verdict(Some(1)), Ok(()));
    assert_eq!(version_verdict(Some(12)), Err("unknown state version Some(12)".to_string()));
    assert_eq!(
        bad_message("/x/state.json", "unknown state version None"),
        "/x/state.json: unknown state version None; renamed to state.json.bad and using defaults"
    );
}

#[test]
fn the_state_file_lives_in_the_config_folder() {
    assert_eq!(state_path("/home/me/.config/ReWorkspace"), "/home/me/.config/ReWorkspace/state.json");
    assert_eq!(state_path("/tmp/"), "/tmp/state.json");
}
