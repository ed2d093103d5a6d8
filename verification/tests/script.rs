use reworkspace::events::{Button, Key, Mods};
use reworkspace::geom::pt;
use reworkspace::script::{
    cell_target, drag_ok, drag_points, numbers_in, parse_script_line, script_events, sel_drag, ScriptCmd, ScriptEv,
};

fn cmd(line: &str) -> ScriptCmd {
    parse_script_line(line).expect("a command")
}

#[test]
fn blank_lines_and_comments_say_nothing() {
    assert!(parse_script_line("").is_none());
    assert!(parse_script_line("   \t ").is_none());
    assert!(parse_script_line("# a comment").is_none());
    assert!(parse_script_line("   # indented comment").is_none());
}

#[test]
fn commands_read_their_numbers() {
    assert!(matches!(cmd("size 800 600"), ScriptCmd::Size(800, 600)));
    assert!(matches!(cmd("  move 10 -20  "), ScriptCmd::Move(10, -20)));
    assert!(matches!(cmd("click +5 7"), ScriptCmd::Click(5, 7)));
    assert!(matches!(cmd("rclick 1 2"), ScriptCmd::RClick(1, 2)));
    assert!(matches!(cmd("dblclick 3 4"), ScriptCmd::DblClick(3, 4)));
    assert!(matches!(cmd("drag 1 2 3 4"), ScriptCmd::Drag(1, 2, 3, 4)));
    assert!(matches!(cmd("dragsel 9 8"), ScriptCmd::DragSel(9, 8)));
    assert!(matches!(cmd("wheel 0 -3"), ScriptCmd::Wheel(0, -3)));
    assert!(matches!(cmd("wait 250"), ScriptCmd::Wait(250)));
    assert!(matches!(cmd("log 5"), ScriptCmd::Log(5)));
    assert!(matches!(cmd("down"), ScriptCmd::Down));
    assert!(matches!(cmd("up"), ScriptCmd::Up));
    assert!(matches!(cmd("drop"), ScriptCmd::Drop));
    assert!(matches!(cmd("move -2147483648 2147483647"), ScriptCmd::Move(i32::MIN, i32::MAX)));
}

#[test]
fn bad_or_missing_numbers_are_malformed() {
    match cmd("click 10") {
        ScriptCmd::Malformed(n) => assert_eq!(n, "click"),
        _ => panic!("expected Malformed"),
    }
    assert!(matches!(cmd("move a 1"), ScriptCmd::Malformed(_)));
    assert!(matches!(cmd("move 2147483648 1"), ScriptCmd::Malformed(_)));
    assert!(matches!(cmd("move - 1"), ScriptCmd::Malformed(_)));
    assert!(matches!(cmd("drag 1 2 3"), ScriptCmd::Malformed(_)));
    assert!(matches!(cmd("shot"), ScriptCmd::Malformed(_)));
    assert!(matches!(cmd("key"), ScriptCmd::Malformed(_)));
}

#[test]
fn texts_keys_and_modifiers() {
    match cmd("type hello   big world") {
        ScriptCmd::Type(t) => assert_eq!(t, "hello big world"),
        _ => panic!("expected Type"),
    }
    match cmd("eval selrect") {
        ScriptCmd::Eval(t) => assert_eq!(t, "selrect"),
        _ => panic!("expected Eval"),
    }
    match cmd("shot a.png extra") {
        ScriptCmd::Shot(t) => assert_eq!(t, "a.png"),
        _ => panic!("expected Shot"),
    }
    match cmd("dragcell B2") {
        ScriptCmd::DragCell(t) => assert_eq!(t, "B2"),
        _ => panic!("expected DragCell"),
    }
    match cmd("zoom 1.5") {
        ScriptCmd::Zoom(t) => assert_eq!(t, "1.5"),
        _ => panic!("expected Zoom"),
    }
    assert!(matches!(cmd("key esc"), ScriptCmd::Key(Key::Escape)));
    assert!(matches!(cmd("key pgdn"), ScriptCmd::Key(Key::PageDown)));
    assert!(matches!(cmd("key backspace"), ScriptCmd::Key(Key::Backspace)));
    assert!(matches!(cmd("key xyz"), ScriptCmd::Key(Key::Char('x'))));
    match cmd("mods shift cmd") {
        ScriptCmd::SetMods(m) => assert_eq!(m, Mods { shift: true, alt: false, ctrl: false, cmd: true }),
        _ => panic!("expected SetMods"),
    }
    match cmd("mods") {
        ScriptCmd::SetMods(m) => assert_eq!(m, Mods::default()),
        _ => panic!("expected SetMods"),
    }
    match cmd("frobnicate 1") {
        ScriptCmd::Unknown(n) => assert_eq!(n, "frobnicate"),
        _ => panic!("expected Unknown"),
    }
}

#[test]
fn a_drag_passes_eight_interpolated_points() {
    let ps = drag_points(pt(0, 0), pt(80, -16));
    assert_eq!(ps.len(), 8);
    assert_eq!(ps[0], pt(10, -2));
    assert_eq!(ps[3], pt(40, -8));
    assert_eq!(ps[7], pt(80, -16));
    // Rust's division rounds toward zero
    let qs = drag_points(pt(0, 0), pt(-3, 3));
    assert_eq!(qs[0], pt(0, 0));
    assert_eq!(qs[2], pt(-1, 1));
    assert_eq!(qs[7], pt(-3, 3));
    assert!(drag_ok(pt(0, 0), pt(1000, 1000)));
    assert!(!drag_ok(pt(i32::MIN, 0), pt(i32::MAX, 0)));
}

#[test]
fn clicks_press_and_let_go_where_they_point() {
    let m = Mods::default();
    let (evs, c, m2) = script_events(&cmd("click 5 6"), pt(0, 0), m);
    let p = pt(5, 6);
    assert_eq!(
        evs,
        vec![ScriptEv::MouseMove(p), ScriptEv::MouseDown(p, Button::Left, m), ScriptEv::MouseUp(p, Button::Left, m)]
    );
    assert_eq!(c, p);
    assert_eq!(m2, m);
    let (evs, _, _) = script_events(&cmd("rclick 5 6"), pt(0, 0), m);
    assert_eq!(evs[1], ScriptEv::MouseDown(p, Button::Right, m));
    let (evs, c, _) = script_events(&cmd("dblclick 5 6"), pt(0, 0), m);
    let d = ScriptEv::MouseDown(p, Button::Left, m);
    let u = ScriptEv::MouseUp(p, Button::Left, m);
    assert_eq!(evs, vec![d, u, d, u]);
    assert_eq!(c, p);
    // down and up stay where the pointer is
    let (evs, c, _) = script_events(&ScriptCmd::Down, pt(7, 7), m);
    assert_eq!(evs, vec![ScriptEv::MouseDown(pt(7, 7), Button::Left, m)]);
    assert_eq!(c, pt(7, 7));
}

#[test]
fn drags_keys_typing_and_modifiers_make_events() {
    let shift = Mods { shift: true, ..Mods::default() };
    let (evs, c, _) = script_events(&cmd("drag 0 0 16 8"), pt(3, 3), shift);
    assert_eq!(evs.len(), 10);
    assert_eq!(evs[0], ScriptEv::MouseMove(pt(0, 0)));
    assert_eq!(evs[1], ScriptEv::MouseDown(pt(0, 0), Button::Left, shift));
    assert_eq!(evs[2], ScriptEv::MouseMove(pt(2, 1)));
    assert_eq!(evs[9], ScriptEv::MouseMove(pt(16, 8)));
    assert_eq!(c, pt(16, 8));
    let (evs, _, _) = script_events(&cmd("type ab"), pt(0, 0), shift);
    assert_eq!(evs, vec![ScriptEv::Key(Key::Char('a'), shift), ScriptEv::Key(Key::Char('b'), shift)]);
    let (evs, _, _) = script_events(&cmd("key enter"), pt(0, 0), shift);
    assert_eq!(evs, vec![ScriptEv::Key(Key::Enter, shift)]);
    let (evs, c, m) = script_events(&cmd("mods alt"), pt(4, 4), shift);
    assert!(evs.is_empty());
    assert_eq!(c, pt(4, 4));
    assert_eq!(m, Mods { alt: true, ..Mods::default() });
    let (evs, _, _) = script_events(&cmd("wheel 0 -2"), pt(4, 4), shift);
    assert_eq!(evs, vec![ScriptEv::Wheel(pt(4, 4), 0, -2)]);
    let (evs, c, _) = script_events(&cmd("shot x.png"), pt(4, 4), shift);
    assert!(evs.is_empty());
    assert_eq!(c, pt(4, 4));
}

#[test]
fn selection_drags_start_inside_the_rectangle() {
    let m = Mods::default();
    assert_eq!(numbers_in("10 20 x 30 -4"), vec![10, 20, 30, -4]);
    assert_eq!(cell_target(&vec![100, 50, 74, 16]), vec![140, 58]);
    assert!(cell_target(&vec![1, 2]).is_empty());
    let (evs, b) = sel_drag(&vec![10, 20, 74, 16], &vec![210, 28], m).expect("a drag");
    assert_eq!(b, pt(210, 28));
    assert_eq!(evs[0], ScriptEv::MouseMove(pt(50, 28)));
    assert_eq!(evs[9], ScriptEv::MouseMove(pt(210, 28)));
    assert!(sel_drag(&vec![10, 20], &vec![210, 28], m).is_none());
}
