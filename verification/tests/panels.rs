use reworkspace::chrome::{item_state, Act, ItemContext, WinKind};
use reworkspace::actions::{act, UiFlags};
use reworkspace::dock::{apptile_rect, can_add, dock_strip, rec_scroller, release_action, reorder, tile_hit, tile_rect, DockRelease, RecWin, TileId};
use reworkspace::files::Entry;
use reworkspace::geom::{pt, rect};
use reworkspace::help::{height, help_title, lines_in, page, page_for};
use reworkspace::inspector::{fmt_date, fmt_size, text_lines, Inspector, Load};
use reworkspace::mandel::knights_tour;
use reworkspace::prefs::{module, pref_box, pref_btn_hit, pref_cell, pref_field, pref_group, pref_pane, pref_slider, pref_switch, switch_act, PBtn};

fn file(name: &str, is_dir: bool, size: u64) -> Entry {
    Entry { name: name.into(), path: format!("/d/{name}"), is_dir, is_symlink: false, is_app: false, size, modified: 7, hidden: false }
}

#[test]
fn help_opens_on_the_key_window_and_fits_every_page() {
    assert_eq!(page_for(Some(WinKind::Shell)), WinKind::Shell);
    assert_eq!(help_title(page_for(Some(WinKind::Shell))), "Shell Help");
    assert_eq!(page_for(Some(WinKind::Help)), WinKind::FileViewer);
    assert_eq!(help_title(page_for(None)), "Workspace Help");
    assert_eq!(page(WinKind::Librarian).0, "Digital Librarian");
    for k in [
        WinKind::FileViewer, WinKind::Inspector, WinKind::Console, WinKind::Recycler, WinKind::Shell, WinKind::Librarian,
        WinKind::Mandelbrot, WinKind::Improv, WinKind::Concurrence, WinKind::Preferences,
    ] {
        let (_, body) = page(k);
        assert!(height(body) <= 832, "the {k:?} page is taller than the Screen");
        assert_eq!(lines_in(body), body.lines().count());
    }
}

#[test]
fn help_height_counts_lines() {
    assert_eq!(lines_in(""), 0);
    assert_eq!(lines_in("a"), 1);
    assert_eq!(lines_in("a\n"), 1);
    assert_eq!(lines_in("a\nb"), 2);
    assert_eq!(lines_in("\n\n"), 2);
    assert_eq!(lines_in("a\r\nb\r\n"), 2);
    assert_eq!(height("a\nb"), 80);
}

#[test]
fn the_icon_row_picks_the_module() {
    let c = rect(100, 100, 392, 297);
    assert_eq!(pref_box(c), rect(108, 106, 376, 90));
    assert_eq!(pref_cell(c, 1), rect(179, 108, 69, 65));
    for i in (0..3).rev() {
        let r = pref_cell(c, i);
        assert_eq!(pref_btn_hit(c, 0, pt(r.x + 30, r.y + 30)), Some(PBtn::Module(i)));
    }
    let b = pref_cell(c, 3);
    assert!(pref_btn_hit(c, 0, pt(b.x + 30, b.y + 30)).is_none(), "past the last module there is no cell");
}

#[test]
fn switches_follow_the_menu() {
    let c = rect(100, 100, 392, 297);
    assert_eq!(pref_pane(c), rect(100, 205, 392, 192));
    assert_eq!(pref_group(c, 4), rect(116, 245, 360, 106));
    assert_eq!(pref_switch(c, 4, 0), rect(130, 257, 332, 15));
    assert_eq!(pref_slider(c), rect(132, 269, 228, 18));
    assert_eq!(pref_field(c), rect(376, 268, 62, 20));
    assert_eq!(pref_btn_hit(c, 1, pt(132, 259)), Some(PBtn::Switch(0)));
    assert_eq!(pref_btn_hit(c, 0, pt(132, 259)), None);
    assert_eq!(switch_act(1, 0), Some(Act::ShowDock));
    assert_eq!(switch_act(1, 3), Some(Act::Backdrop));
    assert_eq!(switch_act(2, 0), Some(Act::ShowHidden));
    assert_eq!(switch_act(0, 0), None);
    assert_eq!(module(0).name, "Display");
    assert_eq!(module(1).switches.len(), 4);
    assert_eq!(module(2).switches[0].0, "Show Hidden Files");
}

#[test]
fn dock_tiles_hug_the_right_edge() {
    assert_eq!(dock_strip(1120, 832), rect(1053, 0, 67, 768));
    assert_eq!(tile_rect(1120, 832, TileId::Workspace), rect(1053, 0, 64, 64));
    assert_eq!(tile_rect(1120, 832, TileId::App(0)), rect(1053, 64, 64, 64));
    assert_eq!(tile_rect(1120, 832, TileId::Recycler), rect(1053, 768, 64, 64));
    assert_eq!(apptile_rect(832), rect(0, 768, 64, 64));
    assert_eq!(tile_hit(1120, 832, true, 3, pt(1060, 70)), Some(Some(TileId::App(0))));
    assert_eq!(tile_hit(1120, 832, true, 3, pt(1060, 300)), Some(None));
    assert_eq!(tile_hit(1120, 832, true, 3, pt(1060, 780)), Some(Some(TileId::Recycler)));
    assert_eq!(tile_hit(1120, 832, false, 3, pt(1060, 70)), None);
    assert_eq!(tile_hit(1120, 832, false, 3, pt(10, 780)), Some(Some(TileId::Workspace)));
}

#[test]
fn dock_drags_launch_remove_and_reorder() {
    assert_eq!(release_action(0, 0, 2, 5), DockRelease::Launch);
    assert_eq!(release_action(1, 60, 0, 5), DockRelease::Remove);
    assert_eq!(release_action(0, 10, 130, 5), DockRelease::Move(2));
    assert_eq!(release_action(2, 0, -200, 5), DockRelease::Move(0));
    assert_eq!(release_action(0, 0, 5, 5), DockRelease::Move(0));
    assert_eq!(release_action(1, 0, 10000, 3), DockRelease::Move(2));
    let mut d: Vec<String> = ["a", "b", "c", "d"].iter().map(|s| s.to_string()).collect();
    reorder(&mut d, 0, 2);
    assert_eq!(d, ["b", "c", "a", "d"]);
    assert!(!can_add(&d, "a"));
    assert!(can_add(&d, "e"));
    let full: Vec<String> = (0..12).map(|i| format!("/A{i}")).collect();
    assert!(!can_add(&full, "/B"));
}

#[test]
fn the_recycler_window_scrolls_over_its_rows() {
    let s = rec_scroller(rect(0, 0, 300, 200), 10, 50);
    assert_eq!(s.r, rect(0, 0, 21, 200));
    assert_eq!((s.total, s.visible, s.pos), (368, 200, 50));
    assert_eq!(rec_scroller(rect(0, 0, 300, 200), 10, 500).pos, 168);
    assert_eq!(rec_scroller(rect(0, 0, 300, 200), 0, 500).pos, 0);
    let r = RecWin::default();
    assert!(r.items.is_none() && r.scroll == 0);
}

#[test]
fn dates_and_sizes() {
    assert_eq!(fmt_date(None), "—");
    assert_eq!(fmt_date(Some(0)), "1970-01-01 00:00");
    assert_eq!(fmt_date(Some(951782400)), "2000-02-29 00:00");
    assert_eq!(fmt_date(Some(-1)), "1969-12-31 23:59");
    assert_eq!(fmt_date(Some(1700000000)), "2023-11-14 22:13");
    assert_eq!(fmt_date(Some(-2203977600)), "1900-02-28 00:00");
    assert_eq!(fmt_date(Some(-2203891200)), "1900-03-01 00:00", "1900 has no 29 February");
    assert_eq!(fmt_size(0), "0 bytes");
    assert_eq!(fmt_size(999), "999 bytes");
    assert_eq!(fmt_size(1000), "1,000 bytes");
    assert_eq!(fmt_size(1234567), "1,234,567 bytes");
}

#[test]
fn the_inspector_loads_what_its_mode_shows() {
    let mut i = Inspector::default();
    assert_eq!(i.refresh(true), Load::Nothing);
    assert!(i.update(Some(file("a.txt", false, 10))));
    assert!(!i.update(Some(file("a.txt", false, 10))));
    assert_eq!(i.refresh(true), Load::Meta);
    assert_eq!(i.refresh(false), Load::Nothing);
    assert!(i.set_mode(1));
    assert!(!i.set_mode(2));
    assert_eq!(i.mode, 1);
    assert_eq!(i.refresh(true), Load::Text);
    i.update(Some(file("big.txt", false, 300_000)));
    assert_eq!(i.refresh(true), Load::Nothing);
    assert_eq!(i.msg.as_deref(), Some("No contents viewer for this type"));
    i.update(Some(file("p.png", false, 300_000)));
    assert_eq!(i.refresh(true), Load::Image);
    i.update(Some(file("dir", true, 0)));
    assert_eq!(i.refresh(true), Load::Nothing);
    assert_eq!(i.msg.as_deref(), Some("No contents viewer for folders"));
}

#[test]
fn the_inspector_keeps_only_results_for_its_entry() {
    let mut i = Inspector::default();
    i.update(Some(file("a.txt", false, 10)));
    i.set_text("/d/other.txt", Ok("x".into()));
    assert!(i.text.is_none());
    i.set_text("/d/a.txt", Ok("a\tb\r\nc\n".into()));
    assert_eq!(i.text, Some(vec!["a    b".to_string(), "c".to_string()]));
    i.set_dir_size("/d/a.txt", Ok(42));
    assert_eq!(i.dir_size, Some(42));
    i.set_dir_size("/d/a.txt", Err("denied".into()));
    assert_eq!(i.msg.as_deref(), Some("denied"));
    assert!(i.is_current("/d/a.txt"));
    let many: String = (0..250).map(|n| format!("line {n}\n")).collect();
    assert_eq!(text_lines(&many).len(), 200);
}

#[test]
fn the_knights_tour_is_a_threshold_matrix() {
    let m = knights_tour();
    let mut seen = [false; 64];
    for v in m {
        assert!(v < 64);
        assert!(!seen[v as usize]);
        seen[v as usize] = true;
    }
    let at = |v: u8| m.iter().position(|x| *x == v).unwrap() as i32;
    let fallback = (0..64).all(|i| m[i] as usize == ((i % 8) * 8 + i / 8) % 64);
    if !fallback {
        for v in 0..63u8 {
            let (a, b) = (at(v), at(v + 1));
            let (dx, dy) = ((b % 8 - a % 8).abs(), (b / 8 - a / 8).abs());
            assert!((dx, dy) == (1, 2) || (dx, dy) == (2, 1), "{v}");
        }
    }
}

#[test]
fn switches_follow_the_menu_and_the_slider_sets_the_scale() {
    // the switch half: a press on the first switch of the Workspace module runs View ▸ Show Dock
    let c = rect(100, 100, 392, 297);
    let mut f = UiFlags { show_hidden: false, backdrop: false, dock_visible: false, miniwindows_visible: false, recycler_visible: false };
    let cx = |f: &UiFlags| ItemContext {
        clipboard_empty: true,
        mac: false,
        scale: Some(Act::Scale1),
        show_hidden: f.show_hidden,
        backdrop: f.backdrop,
        dock_visible: f.dock_visible,
        miniwindows_visible: f.miniwindows_visible,
        recycler_visible: f.recycler_visible,
    };
    assert!(!item_state(Act::ShowDock, &cx(&f)).1);
    let r = pref_switch(c, 4, 0);
    let hit = pref_btn_hit(c, 1, pt(r.x + 2, r.y + 2));
    assert_eq!(hit, Some(PBtn::Switch(0)));
    let a = switch_act(1, 0).expect("the switch has a command");
    let (mut clip, deep) = (Vec::new(), Vec::new());
    act(a, None, &mut f, &deep, &Vec::new(), "/", &mut clip, false);
    assert!(f.dock_visible, "the switch ran View ▸ Show Dock");
    assert!(item_state(Act::ShowDock, &cx(&f)).1, "and the menu item is checked");
}

#[test]
fn the_search_finds_a_tour_from_the_first_corner() {
    let m = knights_tour();
    let fallback = (0..64).all(|i| m[i] as usize == ((i % 8) * 8 + i / 8) % 64);
    assert!(!fallback, "Warnsdorff's rule completes a tour");
    assert_eq!(m[0], 0, "the walk from square 0 completes, so the tour starts there");
    // the first move tried from (0, 0) that stays on the board is (+1, +2): square 17, or else (+2, +1)
    assert!(m[17] == 1 || m[10] == 1);
}
