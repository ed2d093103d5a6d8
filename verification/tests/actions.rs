use reworkspace::dock::{release_action, DockRelease};
use reworkspace::actions::{act, ActEffect, UiFlags};
use reworkspace::chrome::{Act, WinKind};
use reworkspace::files::Entry;
use reworkspace::workspace::Pending;

fn flags() -> UiFlags {
    UiFlags { show_hidden: false, backdrop: false, dock_visible: false, miniwindows_visible: false, recycler_visible: false }
}

fn entry(name: &str) -> Entry {
    Entry { name: name.into(), path: format!("/d/{name}"), is_dir: false, is_symlink: false, is_app: false, size: 1, modified: 0, hidden: false }
}

fn run(a: Act, deep: &Vec<Entry>, clip: &mut Vec<String>, f: &mut UiFlags) -> ActEffect {
    act(a, Some(WinKind::Console), f, deep, &vec!["/d/a".to_string(), "/d/b".to_string()], "/d", clip, false)
}

#[test]
fn destroy_and_empty_recycler_always_ask_first() {
    let (mut f, mut clip) = (flags(), vec![]);
    match run(Act::Destroy, &vec![entry("a.txt")], &mut clip, &mut f) {
        ActEffect::Alert { message, detail, buttons, pending: Pending::Destroy(ps) } => {
            assert_eq!(message, "Destroy “a.txt”?");
            assert_eq!(detail, "Destroy permanently deletes the file. Continue?");
            assert_eq!(buttons, vec!["Cancel", "Destroy"]);
            assert_eq!(ps, vec!["/d/a.txt"]);
        }
        _ => panic!("no alert"),
    }
    match run(Act::Destroy, &vec![entry("a"), entry("b"), entry("c")], &mut clip, &mut f) {
        ActEffect::Alert { message, .. } => assert_eq!(message, "Destroy 3 items?"),
        _ => panic!("no alert"),
    }
    assert!(matches!(run(Act::Destroy, &vec![], &mut clip, &mut f), ActEffect::Nothing));
    match run(Act::EmptyRecycler, &vec![], &mut clip, &mut f) {
        ActEffect::Alert { message, buttons, pending: Pending::EmptyTrash, .. } => {
            assert_eq!(message, "Are you sure you want to empty the Recycler?");
            assert_eq!(buttons, vec!["Cancel", "Empty"]);
        }
        _ => panic!("no alert"),
    }
}

#[test]
fn copy_paste_and_the_view_switches() {
    let (mut f, mut clip) = (flags(), vec![]);
    assert!(matches!(run(Act::Paste, &vec![], &mut clip, &mut f), ActEffect::Nothing));
    assert!(matches!(run(Act::Copy, &vec![], &mut clip, &mut f), ActEffect::Log(l) if l == "copied 2 path(s)"));
    assert_eq!(clip, vec!["/d/a", "/d/b"]);
    assert!(matches!(run(Act::Paste, &vec![], &mut clip, &mut f), ActEffect::Paste { what, dir, .. } if what == "pasted 2 item(s) into /d" && dir == "/d"));
    assert!(matches!(run(Act::ShowHidden, &vec![], &mut clip, &mut f), ActEffect::Saved { refresh: true, dock_icons: false }));
    assert!(f.show_hidden);
    assert!(matches!(run(Act::ShowDock, &vec![], &mut clip, &mut f), ActEffect::Saved { refresh: false, dock_icons: true }));
    assert!(f.dock_visible && !f.backdrop);
    assert!(matches!(run(Act::Scale15, &vec![], &mut clip, &mut f), ActEffect::Zoom(150)));
    assert!(matches!(run(Act::CloseWin, &vec![], &mut clip, &mut f), ActEffect::CloseWin(WinKind::Console)));
    assert!(matches!(run(Act::Hide, &vec![], &mut clip, &mut f), ActEffect::Nothing));
    assert!(matches!(run(Act::ConsoleWin, &vec![], &mut clip, &mut f), ActEffect::ShowWin(WinKind::Console)));
    assert!(matches!(run(Act::Duplicate, &vec![], &mut clip, &mut f), ActEffect::Duplicate { what, .. } if what == "duplicated 2 item(s)"));
}

#[test]
fn a_release_past_the_end_of_the_dock_does_nothing() {
    assert_eq!(release_action(5, 0, 0, 3), DockRelease::Stale);
    assert_eq!(release_action(0, 0, 0, 0), DockRelease::Stale);
}

#[test]
fn the_earliest_date_is_formatted_too() {
    assert!(!reworkspace::inspector::fmt_date(Some(i64::MIN)).is_empty());
}
