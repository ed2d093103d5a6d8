use reworkspace::events::{Key, Mods};
use reworkspace::files::Entry;
use reworkspace::fileviewer::{
    cell_at, cell_rect, click_select, col_parts, col_x, drop_refused, ensure_visible, fv_layout, path_item_rect, relisted_selection,
    select_all, selected_indices, shelf_can_add, shelf_item_rect, Column,
};
use reworkspace::geom::{pt, rect};
use reworkspace::improv::{axis, drop_slot, inner, iv_click, new_item_name, reveal_axis, span, tuples, Cat, IvClick, Lay};
use reworkspace::librarian::{hit_for, keep_going, needle_of, rank, visit, Hit, Visit};
use reworkspace::shell::{dims, key_bytes, scroll_delta, shell_title, wheel_lines};

fn entry(path: &str) -> Entry {
    Entry { name: path.rsplit('/').next().unwrap().into(), path: path.into(), is_dir: false, is_symlink: false, is_app: false, size: 0, modified: 0, hidden: false }
}

fn column(n: usize) -> Column {
    Column {
        id: 1,
        dir: Some("/d".into()),
        entries: (0..n).map(|i| entry(&format!("/d/f{i}"))).collect(),
        sel: vec![false; n],
        anchor: None,
        seq: 0,
        scroll: 0,
        unreadable: false,
    }
}

#[test]
fn the_file_viewer_lays_out_shelf_well_and_columns() {
    let l = fv_layout(rect(0, 0, 640, 450), 3, 1000);
    assert_eq!(l.shelf, rect(0, 0, 640, 88));
    assert_eq!(l.well, rect(8, 88, 624, 100));
    assert_eq!(l.icons, rect(10, 90, 621, 79));
    assert_eq!(l.browser, rect(8, 193, 624, 253));
    assert_eq!(l.cols, rect(10, 195, 621, 250));
    assert_eq!(l.hscroll.r, rect(10, 170, 621, 17));
    assert_eq!((l.hscroll.total, l.hscroll.pos), (423, 0));
    let wide = fv_layout(rect(0, 0, 640, 450), 6, 1000);
    assert_eq!(wide.hscroll.pos, 225);
    assert_eq!(col_x(&wide, 1), -74);
    assert_eq!(shelf_item_rect(&l, 2), rect(200, 4, 96, 72));
    assert_eq!(path_item_rect(&l, 0), rect(56, 94, 48, 48));
    let p = col_parts(&l, 1, 20, 100);
    assert_eq!(p.strip.r, rect(151, 195, 17, 250));
    assert_eq!((p.strip.total, p.strip.pos), (300, 50));
    assert_eq!(p.list, rect(170, 195, 121, 250));
    assert_eq!(cell_rect(p.list, 50, 3), rect(170, 190, 121, 15));
    assert_eq!(cell_at(&p, pt(200, 200), 20), Some(3));
    assert_eq!(cell_at(&p, pt(200, 200), 3), None);
}

#[test]
fn clicks_select_extend_and_toggle() {
    let mut c = column(4);
    click_select(&mut c, 1, false, false);
    assert_eq!((c.sel.clone(), c.anchor), (vec![false, true, false, false], Some(1)));
    click_select(&mut c, 3, true, false);
    assert_eq!((c.sel.clone(), c.anchor), (vec![false, true, true, true], Some(1)));
    click_select(&mut c, 2, false, true);
    assert_eq!((c.sel.clone(), c.anchor), (vec![false, true, false, true], Some(2)));
    click_select(&mut c, 1, false, false);
    assert_eq!((c.sel.clone(), c.anchor), (vec![false, true, false, true], Some(2)), "a click inside a selection keeps it");
    click_select(&mut c, 0, false, false);
    assert_eq!((c.sel.clone(), c.anchor), (vec![true, false, false, false], Some(0)));
    assert_eq!(selected_indices(&c), vec![0]);
    select_all(&mut c);
    assert_eq!(selected_indices(&c), vec![0, 1, 2, 3]);
}

#[test]
fn a_relisted_folder_keeps_its_selection_by_path() {
    let old = vec![entry("/d/a"), entry("/d/b"), entry("/d/c")];
    let new = vec![entry("/d/c"), entry("/d/d"), entry("/d/a")];
    assert_eq!(relisted_selection(&old, &[true, false, true], &new), vec![true, false, true]);
    assert_eq!(relisted_selection(&old, &[false], &new), vec![false, false, false]);
}

#[test]
fn columns_scroll_just_enough() {
    assert_eq!(ensure_visible(0, 20, 150), 165);
    assert_eq!(ensure_visible(200, 3, 150), 45);
    assert_eq!(ensure_visible(0, 2, 150), 0);
}

#[test]
fn drops_onto_themselves_are_refused() {
    let p = vec!["/a/b".to_string()];
    assert!(drop_refused(&p, "/a/b"));
    assert!(drop_refused(&p, "/a/b/c"));
    assert!(drop_refused(&p, "/a"));
    assert!(!drop_refused(&p, "/x"));
    assert!(!drop_refused(&p, "/a/bc"));
    assert!(drop_refused(&["C:\\a".to_string()], "C:\\a\\b"));
    let shelf: Vec<String> = vec!["/Users".into()];
    assert!(!shelf_can_add(&shelf, "/Users"));
    assert!(shelf_can_add(&shelf, "/tmp"));
}

fn cats() -> Vec<Cat> {
    let cat = |name: &str, items: &[&str], col: bool| Cat { name: name.into(), items: items.iter().map(|s| s.to_string()).collect(), col };
    vec![
        cat("Products", &["Widgets", "Gadgets"], false),
        cat("Items", &["Units", "Price", "Revenue", "Costs", "Profit"], false),
        cat("Quarters", &["Q1", "Q2", "Q3", "Q4", "Average"], true),
    ]
}

#[test]
fn pivoting_a_category_keeps_the_cube() {
    let cs = cats();
    assert_eq!(axis(&cs, false), vec![0, 1]);
    assert_eq!(axis(&cs, true), vec![2]);
    assert_eq!(inner(&cs, false), Some(1));
    assert_eq!(inner(&cs, true), Some(2));
    let rt = tuples(&cs, &[0, 1]);
    assert_eq!(rt.len(), 10);
    assert_eq!(rt[0], vec![0, 0]);
    assert_eq!(rt[6], vec![1, 1]);
    assert_eq!(tuples(&cs, &[]), vec![Vec::<u8>::new()]);
    assert_eq!(span(&cs, &[0, 1], 0), 5);
    assert_eq!(span(&cs, &[0, 1], 1), 1);
    let mut moved = cs.clone();
    moved[0].col = true;
    assert_eq!(axis(&moved, true), vec![0, 2]);
    assert_eq!(tuples(&moved, &[0, 2]).len(), 10);
}

#[test]
fn a_new_item_gets_the_first_free_name() {
    assert_eq!(new_item_name(&[]), "Item 1");
    assert_eq!(new_item_name(&["Item 1".to_string(), "Units".to_string()]), "Item 2");
    assert_eq!(new_item_name(&["Item 2".to_string()]), "Item 1");
}

#[test]
fn the_sheet_lays_out_tiles_and_cells() {
    let cs = cats();
    let rows = axis(&cs, false);
    let cols = axis(&cs, true);
    let mut lay = Lay {
        c: rect(0, 0, 600, 400),
        rt: tuples(&cs, &rows),
        ct: tuples(&cs, &cols),
        rows,
        cols,
        head_w: 172,
        head_h: 38,
        sx: 21,
        off: pt(0, 0),
        grid: rect(193, 38, 407, 300),
        pane: rect(0, 304, 600, 96),
        vbar: rect(0, 21, 21, 262),
        hbar: rect(0, 283, 600, 21),
    };
    assert_eq!(lay.divider(), 193);
    assert_eq!(lay.tile(false, 1), rect(108, 2, 83, 17));
    assert_eq!(lay.tile(true, 0), rect(194, 2, 83, 17));
    assert_eq!(lay.cell(2, 3), rect(415, 70, 74, 16));
    assert_eq!(lay.at(pt(200, 60)), (1, 0));
    assert_eq!(lay.coord(3, 6, 2), vec![1, 1, 2]);
    assert_eq!(drop_slot(&lay, 150), (true, 0));
    assert_eq!(drop_slot(&lay, 0), (false, 0));
    assert_eq!(drop_slot(&lay, 100), (false, 1));
    // at finds every cell's lines back, however far the sheet is scrolled
    lay.off = pt(-30, -20);
    for (r, c) in [(0usize, 0usize), (2, 3), (5, 1)] {
        let q = lay.cell(r, c);
        assert_eq!(lay.at(pt(q.x + 73, q.y + 15)), (r, c));
        assert_eq!(lay.at(pt(q.x, q.y)), (r, c));
    }
}

#[test]
fn presses_in_the_sheet_find_tiles_headers_formulas_and_cells() {
    let cs = cats();
    let rows = axis(&cs, false);
    let cols = axis(&cs, true);
    let mut lay = Lay {
        c: rect(0, 0, 600, 400),
        rt: tuples(&cs, &rows),
        ct: tuples(&cs, &cols),
        rows: rows.clone(),
        cols,
        head_w: 172,
        head_h: 38,
        sx: 21,
        off: pt(0, 0),
        grid: rect(193, 38, 407, 266),
        pane: rect(0, 304, 600, 96),
        vbar: rect(0, 21, 21, 262),
        hbar: rect(0, 283, 600, 21),
    };
    let sel = vec![0u8; cs.len()];
    assert_eq!(iv_click(&lay, &cs, &sel, 3, pt(110, 5)), IvClick::Tile { cat: rows[1], grab: pt(2, 3), at: pt(110, 5) });
    let r0 = lay.rt[1][0] as usize;
    assert_eq!(iv_click(&lay, &cs, &sel, 3, pt(30, 60)), IvClick::Header { c: rows[0], i: r0, rename: r0 == 0 });
    assert_eq!(iv_click(&lay, &cs, &sel, 3, pt(200, 60)), IvClick::Cell(1, 0));
    assert_eq!(iv_click(&lay, &cs, &sel, 3, pt(100, 330)), IvClick::FormulaRow(0));
    assert_eq!(iv_click(&lay, &cs, &sel, 3, pt(100, 395)), IvClick::Pane);
    assert_eq!(iv_click(&lay, &cs, &sel, 3, pt(5, 300)), IvClick::Elsewhere);
}

#[test]
fn the_sheet_scrolls_on_both_axes_and_the_selection_stays_in_view() {
    assert_eq!(reveal_axis(0, 500, 74, 407), 167);
    assert_eq!(reveal_axis(300, 100, 74, 407), 100);
    assert_eq!(reveal_axis(50, 100, 74, 407), 50);
}

#[test]
fn ranks_by_hit_count_skips_hidden_and_binary_and_reports_the_line() {
    let needle = needle_of("SHIP").unwrap();
    assert_eq!(needle, "ship");
    assert_eq!(visit(".git", true, false), Visit::Skip);
    assert_eq!(visit("sub", true, false), Visit::Descend);
    assert_eq!(visit("one.txt", false, true), Visit::Read);
    assert_eq!(visit("photo.png", false, true), Visit::Skip);
    assert_eq!(visit("three.txt", false, false), Visit::Skip);
    let mut hits: Vec<Hit> = vec![];
    for (name, text) in [("one.txt", "nothing here\nthe Ship sails\n"), ("two.md", "ship ship\nSHIP\n"), ("three.txt", "no match at all")] {
        if let Some(h) = hit_for(format!("/d/{name}"), name.to_string(), text, &needle) {
            hits.push(h);
        }
    }
    rank(&mut hits);
    assert_eq!(hits.iter().map(|h| (h.name.as_str(), h.count)).collect::<Vec<_>>(), [("two.md", 3), ("one.txt", 1)]);
    assert_eq!(hits[1].line, "the Ship sails");
    assert!(needle_of("  ").is_none());
}

#[test]
fn hits_count_without_overlap_and_show_a_tidy_line() {
    let h = hit_for("/p".into(), "p".into(), "aaaa", "aa").unwrap();
    assert_eq!(h.count, 2);
    assert_eq!(hit_for("/p".into(), "p".into(), "aaa", "aa").unwrap().count, 1);
    let h = hit_for("/p".into(), "p".into(), "x\r\n \tfind\tme  \r\n", "find").unwrap();
    assert_eq!(h.line, "find me");
    let long = format!("{}needle", "x".repeat(200));
    assert_eq!(hit_for("/p".into(), "p".into(), &long, "needle").unwrap().line.chars().count(), 160);
    assert!(keep_going(3999, 299));
    assert!(!keep_going(4000, 0));
    assert!(!keep_going(0, 300));
    let mut tie = vec![
        Hit { path: "/b".into(), name: "b".into(), count: 2, line: String::new() },
        Hit { path: "/a".into(), name: "a".into(), count: 2, line: String::new() },
        Hit { path: "/c".into(), name: "c".into(), count: 5, line: String::new() },
    ];
    rank(&mut tie);
    assert_eq!(tie.iter().map(|h| h.name.as_str()).collect::<Vec<_>>(), ["c", "a", "b"]);
}

#[test]
fn keys_become_xterm_bytes() {
    let none = Mods::default();
    let ctrl = Mods { ctrl: true, ..Mods::default() };
    let alt = Mods { alt: true, ..Mods::default() };
    assert_eq!(key_bytes(Key::Char('a'), none, false), b"a");
    assert_eq!(key_bytes(Key::Char('é'), none, false), "é".as_bytes());
    assert_eq!(key_bytes(Key::Char('€'), none, false), "€".as_bytes());
    assert_eq!(key_bytes(Key::Char('😀'), none, false), "😀".as_bytes());
    assert_eq!(key_bytes(Key::Char('c'), ctrl, false), [3]);
    assert_eq!(key_bytes(Key::Char('C'), ctrl, false), [3]);
    assert_eq!(key_bytes(Key::Char(' '), ctrl, false), [0]);
    assert_eq!(key_bytes(Key::Char('['), ctrl, false), [0x1b]);
    assert_eq!(key_bytes(Key::Char('1'), ctrl, false), b"1");
    assert_eq!(key_bytes(Key::Char('x'), alt, false), b"\x1bx");
    assert_eq!(key_bytes(Key::Up, none, false), b"\x1b[A");
    assert_eq!(key_bytes(Key::Up, none, true), b"\x1bOA");
    assert_eq!(key_bytes(Key::Left, none, false), b"\x1b[D");
    assert_eq!(key_bytes(Key::Delete, none, false), b"\x1b[3~");
    assert_eq!(key_bytes(Key::Enter, none, false), b"\r");
    assert_eq!(key_bytes(Key::PageDown, none, false), b"\x1b[6~");
    assert_eq!(key_bytes(Key::End, none, false), b"\x1b[F");
}

#[test]
fn the_terminal_grid_and_scrollback() {
    assert_eq!(dims(rect(0, 0, 570, 344)), (80, 24));
    assert_eq!(dims(rect(0, 0, 10, 10)), (20, 5));
    assert_eq!(wheel_lines(28), -2);
    assert_eq!(wheel_lines(-42), 3);
    assert_eq!(wheel_lines(10), 0);
    assert_eq!(wheel_lines(-13), 0);
    assert_eq!(wheel_lines(10000), -40);
    assert_eq!(scroll_delta(100, 0, 100), 0);
    assert_eq!(scroll_delta(100, 0, 40), 60);
    assert_eq!(scroll_delta(100, 20, 150), -20);
    assert_eq!(shell_title(""), "Shell");
    assert_eq!(shell_title("vim"), "Shell — vim");
}
