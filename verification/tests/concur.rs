use reworkspace::concur::{Concur, KeyOutcome, RowClick};
use reworkspace::events::{Key, Mods};
use reworkspace::geom::{pt, rect, Rect};

fn deck() -> Concur {
    Concur::from_lines(&[])
}

fn press(c: &mut Concur, k: Key) -> KeyOutcome {
    c.key(k, Mods::default(), rect(140, 60, 560, 440))
}

fn levels(c: &Concur) -> Vec<usize> {
    c.rows.iter().map(|r| r.level).collect()
}

#[test]
fn sample_deck_parses_into_slides_with_bullets() {
    let c = deck();
    assert_eq!(c.slide_list().len(), 4);
    assert_eq!(c.rows[1].level, 1);
    assert_eq!(c.rows[1].text, "Outline, slides and show in one window");
    assert_eq!(c.slide_of(5), 1);
}

#[test]
fn return_splits_a_topic_and_tab_moves_the_whole_subtree() {
    let mut c = deck();
    c.rows.truncate(3);
    c.sel = 0;
    c.caret = 4;
    press(&mut c, Key::Enter);
    assert_eq!((c.rows[0].text.as_str(), c.rows[1].text.as_str()), ("Conc", "urrence"));
    assert_eq!(c.sel, 1);
    press(&mut c, Key::Tab);
    assert_eq!(levels(&c), vec![0, 1, 2, 2]);
    assert_eq!(c.slide_list().len(), 1);
    c.key(Key::Tab, Mods { shift: true, ..Mods::default() }, rect(0, 0, 10, 10));
    assert_eq!(levels(&c), vec![0, 0, 1, 1]);
}

#[test]
fn typing_and_backspace_edit_at_the_caret_then_join_rows() {
    let mut c = deck();
    c.rows.truncate(2);
    c.sel = 1;
    c.caret = 0;
    let mut saved: Vec<String> = Vec::new();
    let r = rect(140, 60, 560, 440);
    for ch in "Ok".chars() {
        c.key_and_store(Key::Char(ch), Mods::default(), r, &mut saved);
    }
    assert!(c.rows[1].text.starts_with("OkOutline, slides"));
    assert_eq!(saved, c.to_lines());
    c.key_and_store(Key::Backspace, Mods::default(), r, &mut saved);
    c.key_and_store(Key::Backspace, Mods::default(), r, &mut saved);
    assert!(c.rows[1].text.starts_with("Outline, slides"));
    c.key_and_store(Key::Backspace, Mods::default(), r, &mut saved);
    assert_eq!(c.rows.len(), 1);
    assert!(c.rows[0].text.starts_with("ConcurrenceOutline, slides"));
    assert_eq!((c.sel, c.caret), (0, 11));
    assert_eq!(saved.len(), 1, "edits are persisted");
    assert_eq!(saved, c.to_lines());
}

#[test]
fn collapsed_topics_hide_their_children_and_the_selection_skips_them() {
    let mut c = deck();
    c.rows[0].collapsed = true;
    assert_eq!(c.visible()[1], 3, "the second visible row is the next slide");
    c.sel = 0;
    press(&mut c, Key::Down);
    assert_eq!(c.sel, 3);
}

#[test]
fn presenting_takes_the_screen_and_the_last_slide_ends_the_show() {
    let mut c = deck();
    let before: Rect = rect(140, 60, 560, 440);
    c.sel = 4;
    assert!(c.begin_show(before));
    assert_eq!(c.show, Some(1));
    let mut last = KeyOutcome::Moved;
    for _ in 0..3 {
        last = c.key(Key::Char(' '), Mods::default(), rect(0, 0, 1120, 832));
    }
    assert_eq!(c.show, None);
    assert_eq!(last, KeyOutcome::ShowEnded(before), "the window comes back where it was");
    assert_eq!(c.sel, *c.slide_list().last().unwrap(), "the outline lands on the last slide shown");
}

#[test]
fn closing_while_presenting_restores_the_window() {
    let mut c = deck();
    let before = rect(140, 60, 560, 440);
    assert!(c.begin_show(before));
    assert_eq!(c.end_show(), Some(before));
    assert_eq!(c.show, None);
    assert_eq!(c.saved, None);
}

#[test]
fn lines_round_trip_through_the_outline() {
    let lines: Vec<String> = vec!["Title".into(), "\tBullet".into(), "\t\tSub".into(), "Next".into()];
    let c = Concur::from_lines(&lines);
    assert_eq!(levels(&c), vec![0, 1, 2, 0]);
    assert_eq!(c.to_lines(), lines);
    assert_eq!(c.end(0), 3);
    assert!(c.has_kids(0));
    assert!(!c.has_kids(2));
}

#[test]
fn the_slide_view_steps_through_slides() {
    let mut c = deck();
    press(&mut c, Key::Escape);
    assert!(c.slides);
    c.sel = 0;
    assert_eq!(press(&mut c, Key::Down), KeyOutcome::Moved);
    assert_eq!(c.sel, 3);
    press(&mut c, Key::PageDown);
    press(&mut c, Key::PageDown);
    press(&mut c, Key::PageDown);
    assert_eq!(c.sel, 11);
    assert_eq!(press(&mut c, Key::Enter), KeyOutcome::ShowStarted);
    assert_eq!(c.show, Some(3));
    assert_eq!(press(&mut c, Key::Escape), KeyOutcome::ShowEnded(rect(140, 60, 560, 440)));
}

#[test]
fn a_click_on_the_triangle_collapses_and_on_the_text_selects() {
    let mut c = deck();
    let list = rect(21, 0, 300, 400);
    // "Concurrence" has children: its triangle sits before the text
    assert_eq!(c.click_row(list, pt(30, 5)), RowClick::Toggled(0));
    assert!(c.rows[0].collapsed);
    assert_eq!(c.sel, 0);
    // now the second line shows the next topic, "Outlining"
    assert_eq!(c.click_row(list, pt(120, 18 + 5)), RowClick::Caret { row: 3, x: 120 - (21 + 6 + 12) });
    assert_eq!(c.sel, 3);
    assert!(!c.rows[3].collapsed);
    // a bullet's text starts one indent further in
    assert_eq!(c.click_row(list, pt(100, 2 * 18 + 1)), RowClick::Caret { row: 4, x: 100 - (21 + 6 + 18 + 12) });
    // below the last visible row, and outside the list
    assert_eq!(c.click_row(list, pt(100, 399)), RowClick::Outside);
    assert_eq!(c.click_row(list, pt(5, 5)), RowClick::Outside);
    assert_eq!(c.sel, 4);
    assert_eq!(c.click_row(list, pt(30, 5)), RowClick::Toggled(0));
    assert!(!c.rows[0].collapsed);
}
