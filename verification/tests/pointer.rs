use reworkspace::chrome::{ItemContext, WinKind};
use reworkspace::desk::{alert_buttons, Desk};
use reworkspace::dock::TileId;
use reworkspace::events::Button;
use reworkspace::geom::pt;
use reworkspace::menus::Menus;
use reworkspace::pointer::{btn_hit, close_route, mouse_down, mouse_move, release, tile_btn, CloseDo, Down, Moved, Release, Target};
use reworkspace::state::TornMenu;
use reworkspace::workspace::SurfaceId;
use reworkspace::state::{Windows, XY};
use reworkspace::workspace::{Btn, Capture, Pending};

const SW: i32 = 1440;
const SH: i32 = 900;

fn desk() -> Desk {
    let mut d = Desk::from_windows(&Windows::default());
    d.show(WinKind::FileViewer, SW, SH);
    d
}

fn menus() -> Menus {
    Menus::build(&XY { x: 10, y: 30 }, &Vec::new(), 110, &Vec::new())
}

fn cx(mac: bool) -> ItemContext {
    ItemContext { clipboard_empty: true, mac, scale: None, show_hidden: false, backdrop: false, dock_visible: false, miniwindows_visible: false, recycler_visible: false }
}

fn press(d: &mut Desk, m: &mut Menus, last: &mut Option<(WinKind, u64)>, b: Button, x: i32, y: i32, now: u64) -> Down {
    mouse_down(d, m, last, false, false, None, &cx(false), SW, SH, false, 0, b, pt(x, y), now)
}

#[test]
fn presses_land_in_stacking_order() {
    let d = desk();
    let m = menus();
    let main = m.menus[0].id;
    // a menu item above everything, then the application tile, then a window's content
    assert_eq!(btn_hit(&d, &m, None, SW, SH, false, 0, pt(20, 60)), Target::Btn(Btn::MenuItem(main, 0)));
    assert_eq!(btn_hit(&d, &m, None, SW, SH, false, 0, pt(20, 40)), Target::Nothing);
    assert_eq!(btn_hit(&d, &m, None, SW, SH, false, 0, pt(10, SH - 10)), Target::Btn(Btn::Tile(TileId::Workspace)));
    assert_eq!(btn_hit(&d, &m, None, SW, SH, false, 0, pt(300, 200)), Target::Content(WinKind::FileViewer));
    assert_eq!(btn_hit(&d, &m, None, SW, SH, false, 0, pt(1000, 700)), Target::Nothing);
    assert_eq!(tile_btn(&d, SW, SH, false, 0, pt(SW - 30, SH - 30)), Some(Btn::Tile(TileId::Recycler)));
}

#[test]
fn with_an_alert_up_only_its_buttons_answer() {
    let mut d = desk();
    let m = menus();
    d.show_alert("Destroy?".into(), "".into(), vec!["Cancel".into(), "Destroy".into()], Pending::Nothing, SW, SH);
    let c = d.win(WinKind::Alert).content();
    let bs = alert_buttons(c, 2);
    let inside = pt(bs[1].x + 5, bs[1].y + 5);
    assert_eq!(btn_hit(&d, &m, Some(2), SW, SH, false, 0, inside), Target::Btn(Btn::AlertBtn(1)));
    assert_eq!(btn_hit(&d, &m, Some(2), SW, SH, false, 0, pt(20, 60)), Target::Nothing);
    let mut last = None;
    let mut mm = menus();
    let r = mouse_down(&mut d, &mut mm, &mut last, false, false, Some(2), &cx(false), SW, SH, false, 0, Button::Left, inside, 0);
    assert!(matches!(r, Down::Capture(Capture::Press(Btn::AlertBtn(1)))));
}

#[test]
fn menu_presses_open_submenus_drag_titles_and_skip_disabled_items() {
    let mut d = desk();
    let mut m = menus();
    let main = m.menus[0].id;
    let mut last = None;
    assert!(matches!(press(&mut d, &mut m, &mut last, Button::Left, 20, 60, 0), Down::OpenSubmenu(id, 0) if id == main));
    // Hide is disabled away from macOS
    assert!(matches!(press(&mut d, &mut m, &mut last, Button::Left, 20, 220, 0), Down::Done));
    let r = mouse_down(&mut d, &mut m, &mut last, false, false, None, &cx(true), SW, SH, false, 0, Button::Left, pt(20, 220), 0);
    assert!(matches!(r, Down::Capture(Capture::Press(Btn::MenuItem(id, 8))) if id == main));
    let r = press(&mut d, &mut m, &mut last, Button::Left, 25, 35, 0);
    assert!(matches!(r, Down::Capture(Capture::MenuDrag { m: id, grab, moved: false }) if id == main && grab == pt(15, 5)));
    // the right button does nothing on a menu
    assert!(matches!(press(&mut d, &mut m, &mut last, Button::Right, 20, 60, 0), Down::Done));
}

#[test]
fn window_presses_make_the_window_key_and_capture_the_pointer() {
    let mut d = desk();
    let mut m = menus();
    let mut last = None;
    let r = press(&mut d, &mut m, &mut last, Button::Left, 300, 50, 0);
    assert!(matches!(r, Down::Capture(Capture::WinMove { k: WinKind::FileViewer, grab }) if grab == pt(180, 10)));
    assert_eq!(d.key, Some(WinKind::FileViewer));
    assert!(matches!(press(&mut d, &mut m, &mut last, Button::Left, 300, 200, 0), Down::Content(WinKind::FileViewer)));
    assert!(matches!(press(&mut d, &mut m, &mut last, Button::Right, 1000, 700, 0), Down::Popup));
    assert!(matches!(press(&mut d, &mut m, &mut last, Button::Right, 300, 200, 0), Down::Done));
    assert!(matches!(press(&mut d, &mut m, &mut last, Button::Left, 10, SH - 10, 0), Down::Capture(Capture::Press(Btn::Tile(TileId::Workspace)))));
    // nothing is taken while the pointer is captured
    let r = mouse_down(&mut d, &mut m, &mut last, true, false, None, &cx(false), SW, SH, false, 0, Button::Left, pt(300, 50), 0);
    assert!(matches!(r, Down::Done));
}

#[test]
fn a_second_press_on_a_miniwindow_soon_after_restores_its_window() {
    let mut d = desk();
    let mut m = menus();
    d.miniaturize(WinKind::FileViewer);
    let slot = d.win(WinKind::FileViewer).mini.unwrap() as i32;
    let (x, y) = (64 * (slot + 1) + 10, SH - 30);
    let mut last = None;
    assert!(matches!(press(&mut d, &mut m, &mut last, Button::Left, x, y, 1000), Down::Done));
    assert_eq!(last, Some((WinKind::FileViewer, 1000)));
    // too late: this press starts a new double-click
    press(&mut d, &mut m, &mut last, Button::Left, x, y, 1500);
    assert_eq!(last, Some((WinKind::FileViewer, 1500)));
    assert!(d.win(WinKind::FileViewer).mini.is_some());
    press(&mut d, &mut m, &mut last, Button::Left, x, y, 1700);
    assert_eq!(last, None);
    assert!(d.win(WinKind::FileViewer).mini.is_none());
    assert_eq!(d.key, Some(WinKind::FileViewer));
}

#[test]
fn moves_drag_windows_and_turn_presses_into_drags_past_four_pixels() {
    let mut d = desk();
    let mut m = menus();
    let mut torn = Vec::new();
    let (c, moved) = mouse_move(&mut d, &mut m, &mut torn, Capture::WinMove { k: WinKind::FileViewer, grab: pt(180, 10) }, pt(400, 100), SW, SH);
    assert!(matches!(c, Some(Capture::WinMove { .. })) && matches!(moved, Moved::Nothing));
    let r = d.win(WinKind::FileViewer).r;
    assert_eq!((r.x, r.y), (220, 90));
    let (c, moved) = mouse_move(&mut d, &mut m, &mut torn, Capture::CellPress { col: 1, idx: 2, start: pt(50, 50) }, pt(54, 46), SW, SH);
    assert!(matches!(c, Some(Capture::CellPress { col: 1, idx: 2, .. })) && matches!(moved, Moved::Nothing));
    let (c, moved) = mouse_move(&mut d, &mut m, &mut torn, Capture::CellPress { col: 1, idx: 2, start: pt(50, 50) }, pt(55, 50), SW, SH);
    assert!(c.is_none() && matches!(moved, Moved::DragFiles { col: 1 }));
    let (c, _) = mouse_move(&mut d, &mut m, &mut torn, Capture::TilePress { idx: 3, start: pt(10, 10), dx: 0, dy: 0 }, pt(7, 30), SW, SH);
    assert!(matches!(c, Some(Capture::TilePress { idx: 3, dx: -3, dy: 20, .. })));
    // a menu title held but not yet moved 4 pixels stays where it is
    let main = m.menus[0].id;
    let (c, _) = mouse_move(&mut d, &mut m, &mut torn, Capture::MenuDrag { m: main, grab: pt(15, 5), moved: false }, pt(27, 36), SW, SH);
    assert!(matches!(c, Some(Capture::MenuDrag { moved: false, .. })));
    assert_eq!(m.menus[0].pos, pt(10, 30));
    let (c, _) = mouse_move(&mut d, &mut m, &mut torn, Capture::MenuDrag { m: main, grab: pt(15, 5), moved: false }, pt(45, 60), SW, SH);
    assert!(matches!(c, Some(Capture::MenuDrag { moved: true, .. })));
    assert_eq!(m.menus[0].pos, pt(30, 55));
}

#[test]
fn letting_go_activates_only_over_the_pressed_control() {
    let b = Btn::WinClose(WinKind::Console);
    assert!(matches!(release(Capture::Press(b), Some(b)), Release::Activate(x) if x == b));
    assert!(matches!(release(Capture::Press(b), None), Release::Nothing));
    assert!(matches!(release(Capture::WinMove { k: WinKind::Console, grab: pt(0, 0) }, None), Release::SyncWin(WinKind::Console)));
    assert!(matches!(release(Capture::MenuDrag { m: 4, grab: pt(0, 0), moved: false }, None), Release::Nothing));
    assert!(matches!(release(Capture::MenuDrag { m: 4, grab: pt(0, 0), moved: true }, None), Release::MenuMoved(4)));
    assert!(matches!(release(Capture::ShelfPress { idx: 2, start: pt(0, 0) }, Some(Btn::Shelf(2))), Release::Activate(Btn::Shelf(2))));
    assert!(matches!(release(Capture::TilePress { idx: 1, start: pt(0, 0), dx: 3, dy: -70 }, None), Release::TileRelease { idx: 1, dx: 3, dy: -70 }));
    let r = release(Capture::FileDrag { paths: vec!["/a".into()], icon: "file-generic", from_shelf: None }, None);
    assert!(matches!(r, Release::Drop { paths, from_shelf: None } if paths == vec!["/a".to_string()]));
}

#[test]
fn the_os_close_goes_through_the_workspace_s_own_operations() {
    let torn = vec![TornMenu { path: vec!["Tools".to_string()], x: 9, y: 10 }];
    let m = Menus::build(&XY { x: 1, y: 2 }, &torn, 100, &vec![82]);
    assert_eq!(close_route(&m, SurfaceId::Win(WinKind::Alert)), CloseDo::AlertButton0);
    assert_eq!(close_route(&m, SurfaceId::Win(WinKind::FileViewer)), CloseDo::CloseWin(WinKind::FileViewer));
    assert_eq!(close_route(&m, SurfaceId::Miniwin(WinKind::Console)), CloseDo::CloseWin(WinKind::Console));
    assert_eq!(close_route(&m, SurfaceId::Menu(1)), CloseDo::Quit);
    assert_eq!(close_route(&m, SurfaceId::Menu(2)), CloseDo::CloseTorn(2));
    assert_eq!(close_route(&m, SurfaceId::Menu(99)), CloseDo::Nothing);
    assert_eq!(close_route(&m, SurfaceId::AppTile), CloseDo::Quit);
    assert_eq!(close_route(&m, SurfaceId::Backdrop), CloseDo::HideBackdrop);
    assert_eq!(close_route(&m, SurfaceId::Dock), CloseDo::HideDock);
    assert_eq!(close_route(&m, SurfaceId::Recycler), CloseDo::HideRecycler);
    assert_eq!(close_route(&m, SurfaceId::DragIcon), CloseDo::Nothing);
}
