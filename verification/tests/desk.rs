use reworkspace::chrome::WinKind;
use reworkspace::desk::{alert_buttons, dragged, resize_rect, Desk};
use reworkspace::geom::{pt, rect};
use reworkspace::state::Windows;
use reworkspace::workspace::{wi, Pending};

const SW: i32 = 1440;
const SH: i32 = 900;

fn desk() -> Desk {
    Desk::from_windows(&Windows::default())
}

#[test]
fn explicit_activations_are_queued_without_focus_feedback() {
    let mut d = desk();
    d.show(WinKind::FileViewer, SW, SH);
    d.show(WinKind::Console, SW, SH);
    d.take_activations();
    // the File Viewer menu item shows the File Viewer
    d.show(WinKind::FileViewer, SW, SH);
    assert_eq!(d.take_activations(), [WinKind::FileViewer]);
    // a focus notification from the OS
    d.make_key(WinKind::Console);
    assert!(d.take_activations().is_empty());
    // the Workspace tile of the Dock shows the File Viewer too
    d.show(WinKind::FileViewer, SW, SH);
    assert_eq!(d.take_activations(), [WinKind::FileViewer]);
    d.arrange_front();
    assert_eq!(d.take_activations(), [WinKind::Console, WinKind::FileViewer]);
    d.miniaturize(WinKind::FileViewer);
    d.restore(WinKind::FileViewer);
    assert_eq!(d.take_activations(), [WinKind::FileViewer]);
}

#[test]
fn native_close_closes_windows_and_cancels_alerts_without_confirming() {
    let mut d = desk();
    d.show(WinKind::FileViewer, SW, SH);
    d.close(WinKind::FileViewer);
    assert!(!d.win(WinKind::FileViewer).visible);
    let a = d.show_alert(
        "Delete?".to_string(),
        String::new(),
        vec!["Cancel".to_string(), "Delete".to_string()],
        Pending::Destroy(vec!["must not run".to_string()]),
        SW,
        SH,
    );
    // closing the alert's surface presses its first button
    assert!(d.alert_button(a, 0).is_none());
    assert!(!d.win(WinKind::Alert).visible);
}

#[test]
fn the_alert_is_centred_key_and_gives_the_key_back() {
    let mut d = desk();
    d.show(WinKind::Console, SW, SH);
    let a = d.show_alert("Empty?".to_string(), "x".to_string(), vec!["Cancel".to_string(), "Empty".to_string()], Pending::EmptyTrash, SW, SH);
    assert_eq!(d.key, Some(WinKind::Alert));
    let r = d.win(WinKind::Alert).r;
    assert_eq!((r.x, r.y, r.w, r.h), ((SW - 380) / 2, (SH - 176) / 2, 380, 176));
    assert!(d.win(WinKind::Alert).visible);
    assert_eq!(a.prev_key, Some(WinKind::Console));
    let done = d.alert_button(a, 1);
    assert!(matches!(done, Some(Pending::EmptyTrash)));
    assert_eq!(d.key, Some(WinKind::Console));
    assert!(!d.win(WinKind::Alert).visible);
}

#[test]
fn a_lone_button_only_dismisses() {
    let mut d = desk();
    let a = d.show_alert("Oops".to_string(), String::new(), vec!["OK".to_string()], Pending::EmptyTrash, SW, SH);
    assert_eq!(a.prev_key, None);
    assert!(d.alert_button(a, 0).is_none());
    assert_eq!(d.key, None);
}

#[test]
fn the_key_goes_back_only_to_a_window_still_shown() {
    let mut d = desk();
    d.show(WinKind::Console, SW, SH);
    let a = d.show_alert("Trash?".to_string(), String::new(), vec!["No".to_string(), "Yes".to_string()], Pending::Nothing, SW, SH);
    d.close(WinKind::Console);
    assert!(matches!(d.alert_button(a, 1), Some(Pending::Nothing)));
    assert_eq!(d.key, None);
}

#[test]
fn windows_start_hidden_where_they_were_saved() {
    let w = Windows::default();
    let d = Desk::from_windows(&w);
    let fv = d.win(WinKind::FileViewer);
    assert_eq!((fv.r.x, fv.r.y, fv.r.w, fv.r.h), (w.file_viewer.x, w.file_viewer.y, w.file_viewer.w, w.file_viewer.h));
    assert_eq!((fv.min_w, fv.min_h), (480, 320));
    let insp = d.win(WinKind::Inspector);
    assert_eq!((insp.r.w, insp.r.h), (272, 400));
    assert!(!insp.resizable && !insp.mini_btn);
    let alert = d.win(WinKind::Alert);
    assert!(!alert.close_btn && !alert.mini_btn && !alert.resizable);
    assert_eq!(d.win(WinKind::Shell).min_w, 20 * 7 + 21 + 2 * 4);
    assert!(d.wins.iter().all(|w| !w.visible && w.mini.is_none()));
    assert_eq!(d.key, None);
}

#[test]
fn miniaturized_windows_pack_their_slots_when_restored() {
    let mut d = desk();
    for k in [WinKind::FileViewer, WinKind::Console, WinKind::Recycler] {
        d.show(k, SW, SH);
    }
    d.miniaturize(WinKind::FileViewer);
    d.miniaturize(WinKind::Console);
    d.miniaturize(WinKind::Recycler);
    assert_eq!(
        [WinKind::FileViewer, WinKind::Console, WinKind::Recycler].map(|k| d.win(k).mini),
        [Some(0), Some(1), Some(2)]
    );
    d.restore(WinKind::FileViewer);
    assert_eq!(d.win(WinKind::Console).mini, Some(0));
    assert_eq!(d.win(WinKind::Recycler).mini, Some(1));
    assert_eq!(d.key, Some(WinKind::FileViewer));
}

#[test]
fn the_topmost_window_under_the_pointer_is_hit() {
    let mut d = desk();
    d.show(WinKind::FileViewer, SW, SH);
    d.show(WinKind::Console, SW, SH);
    let fv = d.win(WinKind::FileViewer).r;
    let c = d.win(WinKind::Console).r;
    let inside_both = pt(c.x.max(fv.x) + 5, c.y.max(fv.y) + 30);
    if fv.contains(inside_both) && c.contains(inside_both) {
        assert_eq!(d.win_hit(inside_both).map(|h| h.0), Some(WinKind::Console));
        d.raise(WinKind::FileViewer);
        assert_eq!(d.win_hit(inside_both).map(|h| h.0), Some(WinKind::FileViewer));
    }
    assert_eq!(d.win_hit(pt(-500, -500)), None);
}

#[test]
fn resizing_moves_the_dragged_edge_and_keeps_the_least_size() {
    let orig = rect(100, 50, 300, 200);
    // the left region moves the left edge
    assert_eq!(resize_rect(orig, 20, 10, -1, 120, 60), rect(120, 50, 280, 210));
    // the right region the right edge
    assert_eq!(resize_rect(orig, 20, 10, 1, 120, 60), rect(100, 50, 320, 210));
    // the middle only the bottom
    assert_eq!(resize_rect(orig, 20, -500, 0, 120, 60), rect(100, 50, 300, 60));
    // never under the least size, the right edge staying put on the left
    assert_eq!(resize_rect(orig, 250, 0, -1, 120, 60), rect(280, 50, 120, 200));
}

#[test]
fn the_alert_buttons_line_up_at_the_bottom_right() {
    let c = rect(10, 20, 380, 154);
    let b = alert_buttons(c, 2);
    assert_eq!(b.len(), 2);
    assert_eq!(b[1], rect(390 - 10 - 88 + 8, 174 - 10 - 24, 80, 23));
    assert_eq!(b[0], rect(390 - 10 - 176 + 8, 174 - 10 - 24, 80, 23));
    assert!(alert_buttons(c, 0).is_empty());
}

#[test]
fn a_press_becomes_a_drag_past_four_pixels() {
    assert!(!dragged(pt(10, 10), pt(14, 6)));
    assert!(dragged(pt(10, 10), pt(15, 10)));
    assert!(dragged(pt(10, 10), pt(10, 4)));
}

#[test]
fn a_dragged_window_keeps_its_title_bar_on_the_screen() {
    let mut d = desk();
    d.show(WinKind::Console, SW, SH);
    d.drag_win(WinKind::Console, pt(300, 200), pt(10, 5), SW, SH);
    let r = d.win(WinKind::Console).r;
    assert_eq!((r.x, r.y), (290, 195));
    d.drag_win(WinKind::Console, pt(5000, -100), pt(10, 5), SW, SH);
    let r = d.win(WinKind::Console).r;
    assert_eq!((r.x, r.y), (SW - 20, 20 - 22));
}

#[test]
fn resizing_from_the_left_keeps_the_right_edge_and_the_minimum_size() {
    let mut d = desk();
    d.show(WinKind::Console, SW, SH);
    let orig = d.win(WinKind::Console).r;
    let (min_w, min_h) = (d.win(WinKind::Console).min_w, d.win(WinKind::Console).min_h);
    d.resize_win(WinKind::Console, pt(100, 100), pt(130, 110), orig, -1);
    let r = d.win(WinKind::Console).r;
    assert_eq!((r.x + r.w, r.w, r.h), (orig.x + orig.w, orig.w - 30, orig.h + 10));
    d.resize_win(WinKind::Console, pt(100, 100), pt(100 + orig.w, 100 - orig.h), orig, -1);
    let r = d.win(WinKind::Console).r;
    assert_eq!((r.x + r.w, r.w, r.h), (orig.x + orig.w, min_w, min_h));
}

#[test]
fn console_wheel_and_arrow_start_at_the_displayed_bottom() {
    let mut d = desk();
    let mut view = reworkspace::console::ConsoleView { scroll: 0, stick: true };
    let n = 100;
    d.show(WinKind::Console, SW, SH);
    let c = d.win(WinKind::Console).content();
    let bottom = view.scroller(c, n).pos;
    assert!(bottom > 18);
    assert_eq!(view.scroll, 0);
    // the wheel over the Console's content scrolls from what is shown, the bottom
    assert_eq!(d.win_hit(pt(c.x + 20, c.y + 20)), Some((WinKind::Console, reworkspace::chrome::WinPart::Content)));
    view.scroll_by(-18, c, n);
    assert_eq!(view.scroller(c, n).pos, bottom - 18);
    // so does the up arrow, one line of 18 pixels
    view.stick = true;
    view.scroll_by(-18, c, n);
    assert_eq!(view.scroller(c, n).pos, bottom - 18);
    // back down to the bottom, it sticks again
    view.scroll_by(1000, c, n);
    assert!(view.stick);
    assert_eq!(view.scroller(c, n).pos, bottom);
}

#[test]
fn every_kind_of_window_has_a_slot_of_its_own() {
    let all = [
        WinKind::FileViewer,
        WinKind::Inspector,
        WinKind::Console,
        WinKind::Info,
        WinKind::Recycler,
        WinKind::Mandelbrot,
        WinKind::Shell,
        WinKind::Alert,
        WinKind::Improv,
        WinKind::Concurrence,
        WinKind::Librarian,
        WinKind::Preferences,
        WinKind::Help,
    ];
    for (i, k) in all.iter().enumerate() {
        assert_eq!(wi(*k), i);
    }
    let mut d = desk();
    for k in [WinKind::Concurrence, WinKind::Improv, WinKind::Help] {
        d.show(k, SW, SH);
        assert!(d.win(k).visible);
        assert_eq!(d.key, Some(k));
        d.close(k);
        assert!(!d.win(k).visible);
    }
}
