use reworkspace::chrome::{Act, MenuKind};
use reworkspace::geom::pt;
use reworkspace::menus::Menus;
use reworkspace::state::{TornMenu, XY};

fn start() -> Menus {
    Menus::build(&XY { x: 10, y: 30 }, &Vec::new(), 110, &Vec::new())
}

fn item_of(m: &Menus, id: u64, label: &str) -> usize {
    let i = m.index_of(id).unwrap();
    m.menus[i].items.iter().position(|it| it.label == label).unwrap()
}

fn submenu(m: &mut Menus, parent: u64, label: &str) -> u64 {
    let item = item_of(m, parent, label);
    m.open_submenu(parent, item, 120);
    m.menus.iter().find(|x| matches!(x.kind, MenuKind::Sub { parent: p, .. } if p == parent)).unwrap().id
}

#[test]
fn workspace_title_reorder_then_close_view_does_not_panic() {
    let mut m = start();
    let main = m.menus[0].id;
    submenu(&mut m, main, "View");
    // pressing the main menu's title brings it to the front
    let i = m.index_of(main).unwrap();
    m.raise(i);
    assert_eq!(m.menus.last().unwrap().id, main);
    // clicking the open View item again closes it
    let view = item_of(&m, main, "View");
    m.open_submenu(main, view, 120);
    assert_eq!(m.menus.len(), 1);
    assert_eq!(m.menus[0].id, main);
    assert_eq!(m.menus[0].open_item, None);
}

#[test]
fn closing_reordered_menu_removes_all_descendants() {
    let mut m = start();
    let main = m.menus[0].id;
    let view = submenu(&mut m, main, "View");
    let scale = submenu(&mut m, view, "Scale");
    // Grandchild, child, root: every recursive removal shifts its ancestors.
    m.menus.reverse();
    assert_eq!(m.root_of(scale), Some(MenuKind::Main));
    m.close_children_of(main);
    assert_eq!(m.menus.len(), 1);
    assert_eq!(m.menus[0].id, main);
}

#[test]
fn raising_torn_view_keeps_scale_parent_and_dispatches_scale() {
    let mut m = start();
    let mut torn: Vec<TornMenu> = Vec::new();
    let main = m.menus[0].id;
    let view = submenu(&mut m, main, "View");
    let i = m.index_of(view).unwrap();
    assert!(m.tear_off(i, &mut torn));
    let scale = submenu(&mut m, view, "Scale");
    let item = item_of(&m, main, "View");
    m.open_submenu(main, item, 120);
    assert_eq!(m.menus.last().unwrap().id, view);
    assert_eq!(m.root_of(scale), Some(MenuKind::Torn));
    let k = m.index_of(scale).unwrap();
    let item = m.menus[k].items.iter().position(|it| it.act == Act::Scale15).unwrap();
    assert_eq!(m.choose_item(scale, item), Some(Act::Scale15));
    assert!(m.index_of(scale).is_none());
    assert!(m.index_of(view).is_some());
}

#[test]
fn popup_and_main_with_same_path_keep_distinct_ancestry() {
    let mut m = start();
    m.popup_menu(pt(400, 400), 110);
    let popup = m.menus.last().unwrap().id;
    let view = submenu(&mut m, popup, "View");
    m.menus.reverse();
    assert_eq!(m.root_of(view), Some(MenuKind::Popup));
}

#[test]
fn closing_menu_surfaces_quits_only_from_the_main_menu() {
    let mut m = start();
    let mut torn: Vec<TornMenu> = Vec::new();
    let main = m.menus[0].id;
    let view = submenu(&mut m, main, "View");
    let i = m.index_of(view).unwrap();
    m.tear_off(i, &mut torn);
    assert_eq!(torn.len(), 1);
    assert_eq!(torn[0].path, vec!["View".to_string()]);
    submenu(&mut m, view, "Scale");
    assert!(!m.close_surface(view, &mut torn));
    assert_eq!(m.menus.len(), 1);
    assert!(torn.is_empty());
    assert!(m.close_surface(main, &mut torn));
    assert_eq!(m.menus.len(), 1);
}

#[test]
fn submenus_open_right_of_their_parent_and_follow_it() {
    let mut m = start();
    let main = m.menus[0].id;
    let view = submenu(&mut m, main, "View");
    let scale = submenu(&mut m, view, "Scale");
    let v = &m.menus[m.index_of(view).unwrap()];
    assert_eq!((v.pos.x, v.pos.y), (10 + 110 + 2, 30));
    assert_eq!(v.title, "View");
    assert_eq!(v.path, vec!["View".to_string()]);
    let s = &m.menus[m.index_of(scale).unwrap()];
    assert_eq!((s.pos.x, s.pos.y), (10 + 110 + 2 + 120 + 2, 30));
    assert_eq!(s.path, vec!["View".to_string(), "Scale".to_string()]);
    // dragging the main menu carries its submenus along
    m.move_to(m.index_of(main).unwrap(), pt(200, 50));
    let s = &m.menus[m.index_of(scale).unwrap()];
    assert_eq!((s.pos.x, s.pos.y), (200 + 110 + 2 + 120 + 2, 50));
    assert!(m.has_open_menus());
    m.close_submenus();
    assert!(!m.has_open_menus());
    assert_eq!(m.menus.len(), 1);
}

#[test]
fn dragging_a_submenu_tears_it_off_and_remembers_where() {
    let mut m = start();
    let mut torn: Vec<TornMenu> = Vec::new();
    let main = m.menus[0].id;
    let view = submenu(&mut m, main, "View");
    let i = m.index_of(view).unwrap();
    assert!(m.drag_to(i, pt(500, 300), &mut torn));
    let v = &m.menus[m.index_of(view).unwrap()];
    assert_eq!(v.kind, MenuKind::Torn);
    assert_eq!((v.pos.x, v.pos.y), (500, 300));
    assert_eq!(m.menus[m.index_of(main).unwrap()].open_item, None);
    // closing every submenu keeps the torn-off one
    m.close_submenus();
    assert!(m.index_of(view).is_some());
    let mut pos = XY { x: 0, y: 0 };
    let i = m.index_of(view).unwrap();
    assert!(m.menu_moved(i, &mut torn, &mut pos));
    assert_eq!((torn[0].x, torn[0].y), (500, 300));
    let i = m.index_of(main).unwrap();
    assert!(m.menu_moved(i, &mut torn, &mut pos));
    assert_eq!((pos.x, pos.y), (10, 30));
}

#[test]
fn torn_menus_come_back_at_start_when_their_path_still_leads_somewhere() {
    let torn = vec![
        TornMenu { path: vec!["View".to_string(), "Scale".to_string()], x: 5, y: 6 },
        TornMenu { path: vec!["Nowhere".to_string()], x: 7, y: 8 },
        TornMenu { path: vec!["Tools".to_string()], x: 9, y: 10 },
    ];
    let m = Menus::build(&XY { x: 1, y: 2 }, &torn, 100, &vec![80, 81, 82]);
    assert_eq!(m.menus.len(), 3);
    assert_eq!(m.menus[0].kind, MenuKind::Main);
    assert_eq!(m.menus[0].title, "Workspace");
    assert_eq!(m.menus[1].title, "Scale");
    assert_eq!((m.menus[1].pos.x, m.menus[1].pos.y, m.menus[1].w), (5, 6, 80));
    assert!(m.menus[1].items.iter().any(|it| it.act == Act::Scale15));
    assert_eq!(m.menus[2].title, "Tools");
    assert_eq!(m.menus[2].w, 82);
    assert_eq!(m.menus.iter().map(|x| x.id).collect::<Vec<_>>(), vec![1, 2, 3]);
    assert_eq!(m.seq, 3);
}

#[test]
fn a_submenu_already_torn_off_is_brought_forward_not_opened_twice() {
    let mut m = start();
    let mut torn: Vec<TornMenu> = Vec::new();
    let main = m.menus[0].id;
    let view = submenu(&mut m, main, "View");
    let i = m.index_of(view).unwrap();
    m.tear_off(i, &mut torn);
    let tools = submenu(&mut m, main, "Tools");
    assert!(m.index_of(tools).is_some());
    let item = item_of(&m, main, "View");
    m.open_submenu(main, item, 120);
    assert_eq!(m.menus.last().unwrap().id, view);
    assert_eq!(m.menus.iter().filter(|x| x.path == vec!["View".to_string()]).count(), 1);
    // opening View closed the parent's other submenu
    assert!(m.index_of(tools).is_none());
    let hit = m.menu_hit(pt(12, 32));
    assert_eq!(hit.map(|h| h.0), m.index_of(main));
}

#[test]
fn a_menu_moves_only_once_dragged_past_four_pixels() {
    let mut m = start();
    let mut torn: Vec<TornMenu> = Vec::new();
    let main = m.menus[0].id;
    let view = submenu(&mut m, main, "View");
    // the View title is held 5 px in; a small move does nothing yet
    let v = m.menus[m.index_of(view).unwrap()].pos;
    let grab = pt(5, 5);
    assert_eq!(m.menu_drag(view, grab, pt(v.x + 5 + 2, v.y + 5 + 1), false, &mut torn), Some(false));
    assert_eq!(m.menus[m.index_of(view).unwrap()].kind, MenuKind::Sub { parent: main, item: item_of(&m, main, "View") });
    // past the threshold the submenu is torn off and follows
    assert_eq!(m.menu_drag(view, grab, pt(v.x + 5 + 10, v.y + 5), false, &mut torn), Some(true));
    let moved = &m.menus[m.index_of(view).unwrap()];
    assert_eq!(moved.kind, MenuKind::Torn);
    assert_eq!((moved.pos.x, moved.pos.y), (v.x + 10, v.y));
    assert_eq!(torn.len(), 1);
    assert_eq!(m.menu_drag(999, grab, pt(0, 0), true, &mut torn), None);
}
