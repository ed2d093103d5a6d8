use reworkspace::chrome::WinKind;
use reworkspace::desk::Desk;
use reworkspace::geom::{pt, rect};
use reworkspace::menus::Menus;
use reworkspace::screen::{stack_order, surfaces, ScreenState};
use reworkspace::state::{Windows, XY};
use reworkspace::workspace::{Level, SurfaceId};

fn quiet() -> ScreenState {
    ScreenState { demo: false, backdrop: false, dock_visible: false, dock_len: 0, recycler_visible: false, miniwindows_visible: false, alert: false, drag_at: None }
}

#[test]
fn windows_are_stacked_by_their_order_on_the_screen() {
    let mut d = Desk::from_windows(&Windows::default());
    d.show(WinKind::Console, 1440, 900);
    d.show(WinKind::FileViewer, 1440, 900);
    d.show(WinKind::Recycler, 1440, 900);
    d.raise(WinKind::Console);
    // File Viewer, Recycler, then Console on top
    assert_eq!(stack_order(&d.wins), vec![0, 4, 2]);
    d.miniaturize(WinKind::Recycler);
    assert_eq!(stack_order(&d.wins), vec![0, 2]);
}

#[test]
fn every_surface_from_the_bottom_up() {
    let mut d = Desk::from_windows(&Windows::default());
    d.show(WinKind::Console, 1440, 900);
    d.show(WinKind::FileViewer, 1440, 900);
    d.show(WinKind::Recycler, 1440, 900);
    d.miniaturize(WinKind::Recycler);
    let m = Menus::build(&XY { x: 10, y: 30 }, &Vec::new(), 110, &Vec::new());
    let st = ScreenState { backdrop: true, dock_visible: true, dock_len: 20, recycler_visible: true, miniwindows_visible: true, drag_at: Some(pt(100, 100)), ..quiet() };
    let v = surfaces(&d, &m, &st, 1440, 900);
    let ids: Vec<SurfaceId> = v.iter().map(|s| s.id).collect();
    assert_eq!(
        ids,
        vec![
            SurfaceId::Backdrop,
            SurfaceId::Win(WinKind::Console),
            SurfaceId::Win(WinKind::FileViewer),
            SurfaceId::Dock,
            SurfaceId::Recycler,
            SurfaceId::AppTile,
            SurfaceId::Miniwin(WinKind::Recycler),
            SurfaceId::Menu(1),
            SurfaceId::DragIcon,
        ]
    );
    assert_eq!(v[0].r, rect(0, 0, 1440, 900));
    assert_eq!(v[0].level, Level::Bottom);
    let fv = d.win(WinKind::FileViewer).r;
    assert_eq!(v[2].r, rect(fv.x - 1, fv.y - 1, fv.w + 2, fv.h + 2));
    assert_eq!(v[2].title, "File Viewer");
    // at most twelve applications show, under the Workspace tile
    assert_eq!(v[3].r, rect(1440 - 67, 0, 64, 64 * 13));
    assert_eq!(v[5].r, rect(0, 900 - 64, 64, 64));
    assert_eq!(v[6].r, rect(64, 900 - 64, 64, 64));
    assert_eq!(v[7].r, rect(10, 30, 111, 22 + 10 * 20));
    assert_eq!(v[7].title, "Workspace");
    assert_eq!(v[8].r, rect(76, 76, 48, 48));
    assert!(v[1..3].iter().all(|s| s.level == Level::Normal));
}

#[test]
fn a_demo_has_no_surfaces_and_the_alert_floats_on_top() {
    let mut d = Desk::from_windows(&Windows::default());
    let m = Menus::build(&XY { x: 0, y: 0 }, &Vec::new(), 100, &Vec::new());
    assert!(surfaces(&d, &m, &ScreenState { demo: true, ..quiet() }, 800, 600).is_empty());
    let a = d.show_alert("x".into(), String::new(), vec!["OK".into()], reworkspace::workspace::Pending::Nothing, 800, 600);
    let v = surfaces(&d, &m, &ScreenState { alert: true, ..quiet() }, 800, 600);
    let last = v.last().unwrap();
    assert_eq!(last.id, SurfaceId::Win(WinKind::Alert));
    assert_eq!(last.level, Level::Top);
    assert!(!v.iter().any(|s| s.level == Level::Normal));
    d.alert_button(a, 0);
}
