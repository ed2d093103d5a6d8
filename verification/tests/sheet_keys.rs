use reworkspace::events::Key;
use reworkspace::improv::{IvKey, SheetEdit};

fn fresh() -> SheetEdit {
    SheetEdit { edit: None, hedit: None, fsel: None, fedit: String::new() }
}

#[test]
fn figures_are_typed_into_the_cell_and_arrows_commit_and_move() {
    let mut s = fresh();
    assert_eq!(s.key(Key::Char('1'), false, 0, 0, 3, 4), IvKey::Cell { computed_note: false, clear: false, commit: false, r: 0, c: 0 });
    s.key(Key::Char('.'), false, 0, 0, 3, 4);
    s.key(Key::Char('x'), false, 0, 0, 3, 4);
    assert_eq!(s.edit.as_deref(), Some("1."));
    s.key(Key::Backspace, false, 0, 0, 3, 4);
    assert_eq!(s.edit.as_deref(), Some("1"));
    assert_eq!(s.key(Key::Down, false, 2, 3, 3, 4), IvKey::Cell { computed_note: false, clear: false, commit: true, r: 2, c: 3 });
    assert_eq!(s.key(Key::Tab, false, 1, 1, 3, 4), IvKey::Cell { computed_note: false, clear: false, commit: true, r: 1, c: 2 });
    assert_eq!(s.key(Key::Up, false, 0, 1, 3, 4), IvKey::Cell { computed_note: false, clear: false, commit: true, r: 0, c: 1 });
    // a computed cell takes no figure, and keeps its own on Delete
    let mut s = fresh();
    assert_eq!(s.key(Key::Char('5'), true, 0, 0, 3, 4), IvKey::Cell { computed_note: true, clear: false, commit: false, r: 0, c: 0 });
    assert!(s.edit.is_none());
    assert_eq!(s.key(Key::Delete, true, 0, 0, 3, 4), IvKey::Cell { computed_note: false, clear: false, commit: false, r: 0, c: 0 });
    assert_eq!(s.key(Key::Delete, false, 0, 0, 3, 4), IvKey::Cell { computed_note: false, clear: true, commit: false, r: 0, c: 0 });
}

#[test]
fn names_and_formulas_take_the_keys_first() {
    let mut s = fresh();
    s.hedit = Some((1, 2, "Cost".into()));
    assert_eq!(s.key(Key::Char('s'), false, 0, 0, 1, 1), IvKey::Nothing);
    assert_eq!(s.hedit.as_ref().map(|h| h.2.as_str()), Some("Costs"));
    assert_eq!(s.key(Key::Enter, false, 0, 0, 1, 1), IvKey::CommitName);
    assert_eq!(s.key(Key::Escape, false, 0, 0, 1, 1), IvKey::Nothing);
    assert!(s.hedit.is_none());
    s.fsel = Some(0);
    s.fedit = "A = B".into();
    s.key(Key::Backspace, false, 0, 0, 1, 1);
    assert_eq!(s.fedit, "A = ");
    assert_eq!(s.key(Key::Tab, false, 0, 0, 1, 1), IvKey::CommitFormula);
    s.key(Key::Escape, false, 0, 0, 1, 1);
    assert!(s.fsel.is_none() && s.fedit.is_empty());
}
