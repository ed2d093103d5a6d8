use reworkspace::chrome::{
    find_key, item_state, menu_items, route_key, KeyRoute, miniwindow_rect, resolve_path, Act, ItemContext, MenuId, MenuInst, MenuKind, MenuPart, ScrollHit, Scroller, Win,
    WinKind, WinPart,
};
use reworkspace::events::{Key, Mods};
use reworkspace::geom::{pt, rect, Rect};

fn win() -> Win {
    Win::new(WinKind::FileViewer, rect(100, 100, 200, 150), "File Viewer", "folder")
}

#[test]
fn a_window_is_title_content_and_resize_bar() {
    let w = win();
    assert_eq!(w.title_bar(), rect(100, 100, 200, 22));
    assert_eq!(w.content(), rect(100, 122, 200, 120));
    assert_eq!(w.resize_bar(), Some(rect(100, 242, 200, 8)));
    assert_eq!(w.mini_rect(), Some(rect(103, 103, 14, 14)));
    assert_eq!(w.close_rect(), Some(rect(283, 103, 14, 14)));
    assert!(!w.shown());
    let mut bare = win();
    bare.chrome = false;
    bare.resizable = false;
    assert_eq!(bare.content(), rect(100, 100, 200, 150));
    assert_eq!(bare.mini_rect(), None);
}

#[test]
fn window_hits() {
    let w = win();
    assert_eq!(w.hit(pt(105, 105)), Some(WinPart::MiniBtn));
    assert_eq!(w.hit(pt(285, 105)), Some(WinPart::CloseBtn));
    assert_eq!(w.hit(pt(150, 105)), Some(WinPart::Title));
    assert_eq!(w.hit(pt(110, 245)), Some(WinPart::Resize(-1)));
    assert_eq!(w.hit(pt(200, 245)), Some(WinPart::Resize(0)));
    assert_eq!(w.hit(pt(280, 245)), Some(WinPart::Resize(1)));
    assert_eq!(w.hit(pt(150, 150)), Some(WinPart::Content));
    assert_eq!(w.hit(pt(50, 50)), None);
}

#[test]
fn clamping_keeps_the_title_bar_on_the_screen() {
    let mut w = win();
    w.r = rect(-500, -100, 200, 150);
    w.clamp(1120, 832);
    assert_eq!((w.r.x, w.r.y), (-180, -2));
    w.r = rect(5000, 5000, 200, 150);
    w.clamp(1120, 832);
    assert_eq!((w.r.x, w.r.y), (1100, 812));
    assert_eq!(miniwindow_rect(0, 800), rect(64, 736, 64, 64));
    assert_eq!(miniwindow_rect(2, 800), rect(192, 736, 64, 64));
}

#[test]
fn a_scroller_has_arrows_a_knob_and_pages() {
    let s = Scroller::framed(rect(0, 0, 21, 200), true, 400, 100, 150);
    assert_eq!(s.max_pos(), 300);
    assert!(!s.fits());
    assert_eq!(s.arrow_a(), rect(3, 166, 15, 15));
    assert_eq!(s.arrow_b(), rect(3, 183, 15, 15));
    assert_eq!(s.knob(), Some(rect(3, 64, 15, 39)));
    assert_eq!(s.hit(pt(10, 70)), Some(ScrollHit::Knob));
    assert_eq!(s.hit(pt(10, 10)), Some(ScrollHit::PageBack));
    assert_eq!(s.hit(pt(10, 150)), Some(ScrollHit::PageFwd));
    assert_eq!(s.hit(pt(10, 170)), Some(ScrollHit::ArrowA));
    assert_eq!(s.hit(pt(10, 190)), Some(ScrollHit::ArrowB));
    assert_eq!(s.hit(pt(30, 10)), None);
    assert_eq!(s.drag_pos(150, 61), 300);
    assert_eq!(s.drag_pos(150, -1000), 0);
    let all = Scroller::framed(rect(0, 0, 21, 200), true, 50, 100, 0);
    assert!(all.fits());
    assert_eq!(all.knob(), None);
    assert_eq!(all.hit(pt(10, 190)), None);
}

#[test]
fn menus_resolve_by_their_labels() {
    assert_eq!(resolve_path(&[]), Some(MenuId::Main));
    assert_eq!(resolve_path(&["View".to_string(), "Scale".to_string()]), Some(MenuId::Scale));
    assert_eq!(resolve_path(&["View".to_string(), "Browser".to_string()]), None);
    assert_eq!(resolve_path(&["Nope".to_string()]), None);
    assert_eq!(find_key(MenuId::Main, 'q').map(|i| i.act), Some(Act::Quit));
    assert_eq!(find_key(MenuId::Main, 'o').map(|i| i.label), Some("Open"));
    assert_eq!(find_key(MenuId::Main, 'O').map(|i| i.act), Some(Act::Disabled));
    assert_eq!(find_key(MenuId::Main, 'z').map(|i| i.label), None);
    assert_eq!(menu_items(MenuId::Main).len(), 10);
    assert_eq!(menu_items(MenuId::View)[3].sub, Some(MenuId::Scale));
}

#[test]
fn menu_geometry_and_hits() {
    let m = MenuInst {
        id: 1,
        title: "Scale".to_string(),
        items: menu_items(MenuId::Scale),
        path: vec!["View".to_string(), "Scale".to_string()],
        pos: pt(10, 10),
        w: 100,
        kind: MenuKind::Torn,
        open_item: None,
    };
    assert_eq!(m.height(), 82);
    assert_eq!(m.rect(), rect(10, 10, 100, 82));
    assert_eq!(m.title_rect(), rect(10, 10, 100, 22));
    assert_eq!(m.close_rect(), Some(rect(93, 13, 14, 14)));
    assert_eq!(m.item_rect(1), rect(10, 52, 100, 20));
    assert_eq!(m.hit(pt(95, 15)), Some(MenuPart::Close));
    assert_eq!(m.hit(pt(20, 15)), Some(MenuPart::Title));
    assert_eq!(m.hit(pt(20, 55)), Some(MenuPart::Item(1)));
    assert_eq!(m.hit(pt(20, 200)), None);
    let r: Rect = m.rect();
    assert!(r.contains(pt(10, 10)));
}

#[test]
fn hide_is_disabled_on_platforms_without_an_implementation() {
    let hide = menu_items(MenuId::Main).into_iter().find(|it| it.act == Act::Hide).unwrap();
    for mac in [false, true] {
        let cx = ItemContext {
            clipboard_empty: true,
            mac,
            scale: Some(Act::Scale15),
            show_hidden: false,
            backdrop: true,
            dock_visible: false,
            miniwindows_visible: false,
            recycler_visible: false,
        };
        assert_eq!(item_state(hide.act, &cx).0, !mac);
        assert_eq!(item_state(Act::EmptyRecycler, &cx).0, !mac);
        assert_eq!(item_state(Act::Paste, &cx), (true, false));
        assert_eq!(item_state(Act::Scale15, &cx), (false, true));
        assert_eq!(item_state(Act::Scale2, &cx), (false, false));
        assert_eq!(item_state(Act::Backdrop, &cx), (false, true));
        assert_eq!(item_state(Act::ViewBrowser, &cx), (false, true));
        assert_eq!(item_state(Act::Open, &cx), (false, false));
    }
    // Command-h reaches Hide through the main menu
    assert_eq!(find_key(MenuId::Main, 'h').map(|it| it.act), Some(Act::Hide));
}

#[test]
fn keys_go_to_the_alert_the_shell_the_menus_or_the_file_viewer() {
    let cx = ItemContext {
        clipboard_empty: true,
        mac: false,
        scale: None,
        show_hidden: false,
        backdrop: false,
        dock_visible: false,
        miniwindows_visible: false,
        recycler_visible: false,
    };
    let none = Mods::default();
    let cmd = Mods { cmd: true, ..none };
    let fv = Some(WinKind::FileViewer);
    assert_eq!(route_key(Some(2), fv, false, true, &cx, Key::Enter, none), KeyRoute::AlertButton(1));
    assert_eq!(route_key(Some(2), fv, false, true, &cx, Key::Escape, none), KeyRoute::AlertButton(0));
    assert_eq!(route_key(Some(2), fv, false, true, &cx, Key::Char('q'), cmd), KeyRoute::Nothing);
    assert_eq!(route_key(None, Some(WinKind::Shell), true, true, &cx, Key::Char('q'), cmd), KeyRoute::Shell);
    assert_eq!(route_key(None, Some(WinKind::Shell), true, true, &ItemContext { mac: true, ..cx }, Key::Char('q'), cmd), KeyRoute::Menu(Act::Quit));
    assert_eq!(route_key(None, fv, false, true, &cx, Key::Char('q'), cmd), KeyRoute::Menu(Act::Quit));
    // Paste with nothing to paste is disabled, and so is Hide here
    assert_eq!(route_key(None, fv, false, true, &cx, Key::Char('v'), cmd), KeyRoute::Nothing);
    assert_eq!(route_key(None, fv, false, true, &cx, Key::Char('h'), cmd), KeyRoute::Nothing);
    assert_eq!(route_key(None, fv, false, true, &cx, Key::Down, none), KeyRoute::FileViewer);
    assert_eq!(route_key(None, fv, false, false, &cx, Key::Down, none), KeyRoute::Nothing);
}
