use reworkspace::browser::{Browser, FvKey, Listed};
use reworkspace::events::{Key, Mods};
use reworkspace::files::Entry;
use reworkspace::icons::ancestors;

const H: i32 = 300;

fn entry(path: &str, is_dir: bool) -> Entry {
    let name = path.rsplit(['/', '\\']).find(|s| !s.is_empty()).unwrap_or(path).to_string();
    Entry { name, path: path.into(), is_dir, is_symlink: false, is_app: false, size: 0, modified: 0, hidden: false }
}

fn empty() -> Browser {
    Browser { cols: vec![], focus: 0, hscroll: 0, nav: None, next_id: 0 }
}

fn list(b: &mut Browser, ci: usize, entries: Vec<Entry>, roots: &Vec<String>) -> Listed {
    let (id, seq, _) = b.begin_load(ci).unwrap();
    b.listed(id, seq, Ok(entries), H, roots)
}

fn selected(b: &Browser, ci: usize) -> Vec<usize> {
    b.cols[ci].sel.iter().enumerate().filter(|(_, s)| **s).map(|(i, _)| i).collect()
}

#[test]
fn the_walk_down_to_a_path_opens_one_column_per_listing() {
    let roots: Vec<String> = vec!["/".into()];
    let mut b = empty();
    let chain = ancestors("/a/b/c", false);
    assert_eq!(b.navigate(chain, H, &roots), Some(0));
    assert_eq!(b.cols.len(), 1);
    assert_eq!(b.cols[0].dir.as_deref(), Some("/"));
    let (id, seq, dir) = b.begin_load(0).unwrap();
    assert_eq!((id, seq, dir.as_str()), (1, 1, "/"));
    let r = b.listed(id, seq, Ok(vec![entry("/a", true), entry("/x", false)]), H, &roots);
    assert!(matches!(r, Listed::Shown { changed: true, load: Some(1) }));
    assert_eq!(selected(&b, 0), vec![0]);
    assert_eq!(b.cols[1].dir.as_deref(), Some("/a"));
    let r = list(&mut b, 1, vec![entry("/a/b", true)], &roots);
    assert!(matches!(r, Listed::Shown { changed: true, load: Some(2) }));
    let r = list(&mut b, 2, vec![entry("/a/b/d", true), entry("/a/b/c", false)], &roots);
    // the leaf is a file: selected, no further column
    assert!(matches!(r, Listed::Shown { changed: true, load: None }));
    assert_eq!(b.cols.len(), 3);
    assert_eq!(selected(&b, 2), vec![1]);
    assert_eq!(b.focus, 2);
    assert!(b.nav.is_none());
}

#[test]
fn stale_and_failed_listings() {
    let roots: Vec<String> = vec!["/".into()];
    let mut b = empty();
    b.navigate(ancestors("/", false), H, &roots);
    let (id, seq, _) = b.begin_load(0).unwrap();
    // a newer listing overtakes this one
    b.begin_load(0);
    assert!(matches!(b.listed(id, seq, Ok(vec![entry("/a", true)]), H, &roots), Listed::Stale));
    assert!(b.cols[0].entries.is_empty());
    assert!(matches!(b.listed(99, 1, Ok(vec![]), H, &roots), Listed::Stale));
    let r = b.listed(id, seq + 1, Err("permission denied".into()), H, &roots);
    match r {
        Listed::Failed(e) => assert_eq!(e, "permission denied"),
        _ => panic!("expected a failure"),
    }
    assert!(b.cols[0].unreadable);
    assert!(b.nav.is_none());
}

#[test]
fn a_relisting_keeps_the_selection_by_path_and_closes_a_vanished_folder() {
    let roots: Vec<String> = vec!["/".into()];
    let mut b = empty();
    b.navigate(ancestors("/a", false), H, &roots);
    list(&mut b, 0, vec![entry("/a", true), entry("/b", true)], &roots);
    list(&mut b, 1, vec![entry("/a/x", false)], &roots);
    assert_eq!(b.cols.len(), 2);
    // listed again with a new entry first: still "/a" selected, at its new place
    let r = list(&mut b, 0, vec![entry("/0", false), entry("/a", true), entry("/b", true)], &roots);
    assert!(matches!(r, Listed::Shown { changed: false, load: None }));
    assert_eq!(selected(&b, 0), vec![1]);
    assert_eq!(b.cols.len(), 2);
    // "/a" is gone: the column after it closes
    let r = list(&mut b, 0, vec![entry("/b", true)], &roots);
    assert!(matches!(r, Listed::Shown { changed: true, load: None }));
    assert_eq!(b.cols.len(), 1);
    assert!(selected(&b, 0).is_empty());
}

#[test]
fn on_windows_the_walk_starts_from_the_drives() {
    let roots: Vec<String> = vec!["C:\\".into(), "D:\\".into()];
    let mut b = empty();
    let r = b.navigate(ancestors("D:\\Work", true), H, &roots);
    // the drive column needs no listing: D: is picked at once and opens
    assert_eq!(r, Some(1));
    assert_eq!(b.cols[0].dir, None);
    assert_eq!(b.cols[0].entries.len(), 2);
    assert_eq!(selected(&b, 0), vec![1]);
    assert_eq!(b.cols[1].dir.as_deref(), Some("D:\\"));
    let r = list(&mut b, 1, vec![entry("D:\\Work", true)], &roots);
    assert!(matches!(r, Listed::Shown { changed: true, load: Some(2) }));
}

#[test]
fn keys_move_through_the_columns() {
    let roots: Vec<String> = vec!["/".into()];
    let none = Mods::default();
    let mut b = empty();
    b.navigate(ancestors("/", false), H, &roots);
    list(&mut b, 0, vec![entry("/a", true), entry("/b", false), entry("/c", false)], &roots);
    assert_eq!(b.key(Key::Down, none, H, &roots), FvKey::Picked(Some(1)));
    assert_eq!(selected(&b, 0), vec![0]);
    list(&mut b, 1, vec![entry("/a/1", false)], &roots);
    assert_eq!(b.key(Key::Down, none, H, &roots), FvKey::Picked(None));
    assert_eq!(selected(&b, 0), vec![1]);
    assert_eq!(b.cols.len(), 1);
    assert_eq!(b.key(Key::Down, none, H, &roots), FvKey::Picked(None));
    assert_eq!(b.key(Key::Down, none, H, &roots), FvKey::Picked(None));
    assert_eq!(selected(&b, 0), vec![2]);
    assert_eq!(b.key(Key::Up, none, H, &roots), FvKey::Picked(None));
    assert_eq!(selected(&b, 0), vec![1]);
    assert_eq!(b.key(Key::Up, none, H, &roots), FvKey::Picked(Some(1)));
    list(&mut b, 1, vec![entry("/a/1", false), entry("/a/2", false)], &roots);
    assert_eq!(b.key(Key::Right, none, H, &roots), FvKey::Picked(None));
    assert_eq!((b.focus, selected(&b, 1)), (1, vec![0]));
    assert_eq!(b.key(Key::Left, none, H, &roots), FvKey::Back);
    assert_eq!(b.focus, 0);
    assert!(selected(&b, 1).is_empty());
    assert_eq!(b.key(Key::Enter, none, H, &roots), FvKey::Open);
    assert_eq!(b.key(Key::Backspace, none, H, &roots), FvKey::Trash);
    assert_eq!(b.key(Key::Char('q'), none, H, &roots), FvKey::Typed('q'));
    assert_eq!(b.key(Key::Down, Mods { alt: true, ..none }, H, &roots), FvKey::Nothing);
}

#[test]
fn typing_picks_the_first_name_that_begins_so() {
    let roots: Vec<String> = vec!["/".into()];
    let mut b = empty();
    b.navigate(ancestors("/", false), H, &roots);
    list(&mut b, 0, vec![entry("/Apps", true), entry("/bin", true), entry("/Books", false)], &roots);
    assert_eq!(b.type_ahead("bo", H, &roots), Some(None));
    assert_eq!(selected(&b, 0), vec![2]);
    assert_eq!(b.type_ahead("b", H, &roots), Some(Some(1)));
    assert_eq!(selected(&b, 0), vec![1]);
    assert_eq!(b.type_ahead("zz", H, &roots), None);
    assert_eq!(b.select_all_focus(&roots), Some(None));
    assert_eq!(selected(&b, 0), vec![0, 1, 2]);
    assert_eq!(b.cols.len(), 1);
}
