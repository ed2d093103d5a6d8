//! What the Workspace settles on at start from its saved state: the Dock and shelf of a first
//! start, and saved paths that are gone from the disk dropped with a Console line each.
use vstd::prelude::*;
use crate::files::path_exists;
use crate::icons::{join, join_spec};
use crate::text::{push_str, str_eq};

verus! {

/// Whether `roots` are Windows drives rather than the one root `/`.
pub open spec fn windows_roots(roots: Seq<Seq<char>>) -> bool {
    roots.len() > 0 && roots[0] != "/"@
}

/// The shelf of a first start: the home folder, the first root, the applications folder, and
/// the Desktop and Documents folders in the home folder.
pub open spec fn default_shelf_spec(home: Seq<char>, roots: Seq<Seq<char>>) -> Seq<Seq<char>> {
    seq![
        home,
        if roots.len() > 0 { roots[0] } else { "/"@ },
        if windows_roots(roots) { "C:\\Program Files"@ } else { "/Applications"@ },
        join_spec(home, "Desktop"@),
        join_spec(home, "Documents"@),
    ]
}

pub open spec fn views(v: Seq<String>) -> Seq<Seq<char>> {
    v.map_values(|s: String| s@)
}

/// The shelf of a first start, for the home folder `home` and the roots of the disks `roots`.
pub fn default_shelf(home: &str, roots: &Vec<String>) -> (r: Vec<String>)
    ensures
        views(r@) == default_shelf_spec(home@, views(roots@)),
{
    let first = if roots.len() > 0 { roots[0].clone() } else { String::from_str("/") };
    let win = roots.len() > 0 && !str_eq(roots[0].as_str(), "/");
    let apps = if win { String::from_str("C:\\Program Files") } else { String::from_str("/Applications") };
    let mut r: Vec<String> = Vec::new();
    r.push(String::from_str(home));
    r.push(first);
    r.push(apps);
    r.push(join(home, "Desktop"));
    r.push(join(home, "Documents"));
    proof {
        reveal_strlit("/");
        assert(views(r@) =~= default_shelf_spec(home@, views(roots@)));
    }
    r
}

/// The entries of `list` whose `present` flag is set, in order.
pub open spec fn kept(list: Seq<Seq<char>>, present: Seq<bool>) -> Seq<Seq<char>>
    decreases list.len(),
{
    if list.len() == 0 {
        seq![]
    } else {
        kept(list.drop_last(), present.drop_last()) + if present.last() { seq![list.last()] } else { seq![] }
    }
}

/// The Console line for each entry of `list` whose `present` flag is clear, in order.
pub open spec fn dropped(list: Seq<Seq<char>>, present: Seq<bool>, what: Seq<char>) -> Seq<Seq<char>>
    decreases list.len(),
{
    if list.len() == 0 {
        seq![]
    } else {
        dropped(list.drop_last(), present.drop_last(), what) + if present.last() {
            seq![]
        } else {
            seq!["dropped missing "@ + what + " entry "@ + list.last()]
        }
    }
}

/// Keeps the entries of `list` that `present` marks as on the disk, and writes a Console line
/// for each of the others (`what` names the list).
pub fn keep_present(list: &Vec<String>, present: &Vec<bool>, what: &str) -> (r: (Vec<String>, Vec<String>))
    requires
        present@.len() == list@.len(),
    ensures
        views(r.0@) == kept(views(list@), present@),
        views(r.1@) == dropped(views(list@), present@, what@),
{
    let mut keep: Vec<String> = Vec::new();
    let mut lines: Vec<String> = Vec::new();
    let mut i: usize = 0;
    while i < list.len()
        invariant
            i <= list@.len() == present@.len(),
            views(keep@) == kept(views(list@).take(i as int), present@.take(i as int)),
            views(lines@) == dropped(views(list@).take(i as int), present@.take(i as int), what@),
        decreases list@.len() - i,
    {
        let ghost l = views(list@).take(i + 1);
        let ghost q = present@.take(i + 1);
        assert(l.drop_last() =~= views(list@).take(i as int));
        assert(q.drop_last() =~= present@.take(i as int));
        if present[i] {
            keep.push(list[i].clone());
            assert(views(keep@) =~= kept(l, q));
            assert(views(lines@) =~= dropped(l, q, what@));
        } else {
            let mut line = String::from_str("dropped missing ");
            push_str(&mut line, what);
            push_str(&mut line, " entry ");
            push_str(&mut line, list[i].as_str());
            lines.push(line);
            assert(views(keep@) =~= kept(l, q));
            assert(views(lines@) =~= dropped(l, q, what@));
        }
        i += 1;
    }
    assert(views(list@).take(list@.len() as int) =~= views(list@));
    assert(present@.take(list@.len() as int) =~= present@);
    (keep, lines)
}

/// Drops the entries of `list` that are gone from the disk, with a Console line for each;
/// what is on the disk decides which go.
pub fn drop_missing(list: &Vec<String>, what: &str) -> (r: (Vec<String>, Vec<String>))
    ensures
        exists|present: Seq<bool>| present.len() == list@.len() && views(r.0@) == kept(views(list@), present)
            && views(r.1@) == dropped(views(list@), present, what@),
{
    let mut present: Vec<bool> = Vec::new();
    let mut i: usize = 0;
    while i < list.len()
        invariant
            i <= list@.len(),
            present@.len() == i,
        decreases list@.len() - i,
    {
        present.push(path_exists(list[i].as_str()));
        i += 1;
    }
    keep_present(list, &present, what)
}

/// The folder the File Viewer opens at start, given whether the saved one `exists`: the saved
/// one where one was saved and it is there, else the home folder.
pub open spec fn folder_choice_spec(saved: Seq<char>, home: Seq<char>, exists: bool) -> Seq<char> {
    if saved.len() > 0 && exists {
        saved
    } else {
        home
    }
}

/// The folder the File Viewer opens at start, given whether the saved one `exists` on disk.
pub fn folder_choice(saved: &str, home: &str, exists: bool) -> (r: String)
    ensures
        r@ == folder_choice_spec(saved@, home@, exists),
{
    if saved.unicode_len() > 0 && exists {
        String::from_str(saved)
    } else {
        String::from_str(home)
    }
}

/// The folder the File Viewer opens at start: the saved one, or the home folder where none
/// was saved or the saved one is gone (what is on the disk decides).
pub fn start_folder(saved: &str, home: &str) -> (r: String)
    ensures
        exists|e: bool| r@ == #[trigger] folder_choice_spec(saved@, home@, e),
        saved@.len() == 0 ==> r@ == home@,
{
    let e = if saved.unicode_len() == 0 { false } else { path_exists(saved) };
    folder_choice(saved, home, e)
}

} // verus!
