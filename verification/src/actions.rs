//! What a menu command does: the settings it flips, the alert it asks for, and the work it
//! hands to the Workspace around it.
use vstd::prelude::*;
use crate::chrome::{Act, WinKind};
use crate::files::{decimal, decimal_chars, Entry};
use crate::startup::views;
use crate::text::{push_str, string_of};
use crate::workspace::Pending;

verus! {

/// The saved switches of the View menu.
#[derive(Clone, Copy, PartialEq, Eq, Debug, Structural)]
pub struct UiFlags {
    pub show_hidden: bool,
    pub backdrop: bool,
    pub dock_visible: bool,
    pub miniwindows_visible: bool,
    pub recycler_visible: bool,
}

/// What is left to do once a menu command has been taken.
pub enum ActEffect {
    Nothing,
    /// Show (and make key) window `k`.
    ShowWin(WinKind),
    /// Open these entries with their applications.
    Open(Vec<Entry>),
    /// Make a new folder in this one.
    NewFolder(String),
    /// Copy each of `paths` next to itself under a free name; `what` is the Console's line.
    Duplicate { what: String, paths: Vec<String> },
    /// Copy `paths` into `dir`; `what` is the Console's line.
    Paste { what: String, paths: Vec<String>, dir: String },
    /// Ask first: an alert with these buttons, which does `pending` on the last one.
    Alert { message: String, detail: String, buttons: Vec<String>, pending: Pending },
    /// A line for the Console.
    Log(String),
    /// List the File Viewer's folders again.
    Refresh,
    /// Select everything in the File Viewer's last column.
    SelectAll,
    /// Zoom the Screen to this many percent; the setting is saved.
    Zoom(u32),
    /// A View switch changed: save it; list the folders again where `refresh`, fetch the Dock's
    /// icons where `dock_icons`.
    Saved { refresh: bool, dock_icons: bool },
    /// Arrange the shown windows in front.
    ArrangeFront,
    Miniaturize(WinKind),
    CloseWin(WinKind),
    /// Hide the application (macOS).
    Minimize,
    /// Save now and quit.
    Quit,
}

/// What the Destroy alert names: the one entry in quotes, or how many there are.
pub open spec fn destroy_what(sel: Seq<Entry>) -> Seq<char> {
    if sel.len() == 1 {
        "“"@ + sel[0].name@ + "”"@
    } else {
        decimal(sel.len()) + " items"@
    }
}

pub open spec fn entry_paths(sel: Seq<Entry>) -> Seq<Seq<char>> {
    sel.map_values(|e: Entry| e.path@)
}

/// The switches after command `a`: each View switch flips its own setting.
pub open spec fn act_flags(f: UiFlags, a: Act) -> UiFlags {
    match a {
        Act::ShowHidden => UiFlags { show_hidden: !f.show_hidden, ..f },
        Act::Backdrop => UiFlags { backdrop: !f.backdrop, ..f },
        Act::ShowDock => UiFlags { dock_visible: !f.dock_visible, ..f },
        Act::ShowMiniwindows => UiFlags { miniwindows_visible: !f.miniwindows_visible, ..f },
        Act::ShowRecycler => UiFlags { recycler_visible: !f.recycler_visible, ..f },
        _ => f,
    }
}

/// The window a command shows, if it shows one.
pub open spec fn shown_by(a: Act) -> Option<WinKind> {
    match a {
        Act::InfoPanel => Some(WinKind::Info),
        Act::RecyclerWin => Some(WinKind::Recycler),
        Act::Inspector => Some(WinKind::Inspector),
        Act::ConsoleWin => Some(WinKind::Console),
        Act::Mandelbrot => Some(WinKind::Mandelbrot),
        Act::ShellWin => Some(WinKind::Shell),
        Act::FileViewerWin => Some(WinKind::FileViewer),
        Act::Improv => Some(WinKind::Improv),
        Act::Concurrence => Some(WinKind::Concurrence),
        _ => None,
    }
}

/// What command `a` leaves to do, with `key` the key window, `deep` the selection (folders
/// included), `selected` the selected paths, `dir` the File Viewer's folder, `clip` the
/// clipboard before the command and `mac` whether the host is macOS.
pub open spec fn act_effect(a: Act, key: Option<WinKind>, deep: Seq<Entry>, selected: Seq<Seq<char>>, dir: Seq<char>, clip: Seq<Seq<char>>, mac: bool, e: ActEffect) -> bool {
    match a {
        Act::Open => e matches ActEffect::Open(v) && same_entries(v@, deep),
        Act::NewFolder => e matches ActEffect::NewFolder(d) && d@ == dir,
        Act::Duplicate => if selected.len() == 0 {
            e is Nothing
        } else {
            e matches ActEffect::Duplicate { what, paths } && views(paths@) == selected && what@ == "duplicated "@
                + decimal(selected.len()) + " item(s)"@
        },
        Act::Destroy => if deep.len() == 0 {
            e is Nothing
        } else {
            e matches ActEffect::Alert { message, detail, buttons, pending } && message@ == "Destroy "@ + destroy_what(deep)
                + "?"@ && detail@ == "Destroy permanently deletes the file. Continue?"@ && views(buttons@) == seq![
                "Cancel"@,
                "Destroy"@,
            ] && (pending matches Pending::Destroy(ps) && views(ps@) == entry_paths(deep))
        },
        Act::EmptyRecycler => e matches ActEffect::Alert { message, detail, buttons, pending } && message@
            == "Are you sure you want to empty the Recycler?"@ && detail@ == "Its contents will be permanently deleted."@
            && views(buttons@) == seq!["Cancel"@, "Empty"@] && pending is EmptyTrash,
        Act::Copy => e matches ActEffect::Log(l) && l@ == "copied "@ + decimal(selected.len()) + " path(s)"@,
        Act::Paste => if clip.len() == 0 {
            e is Nothing
        } else {
            e matches ActEffect::Paste { what, paths, dir: d } && views(paths@) == clip && d@ == dir && what@
                == "pasted "@ + decimal(clip.len()) + " item(s) into "@ + dir
        },
        Act::SelectAll => e is SelectAll,
        Act::CheckDisks => e is Refresh,
        Act::Scale1 => e matches ActEffect::Zoom(z) && z == 100,
        Act::Scale15 => e matches ActEffect::Zoom(z) && z == 150,
        Act::Scale2 => e matches ActEffect::Zoom(z) && z == 200,
        Act::ShowHidden => e matches ActEffect::Saved { refresh, dock_icons } && refresh && !dock_icons,
        Act::ShowDock => e matches ActEffect::Saved { refresh, dock_icons } && !refresh && dock_icons,
        Act::Backdrop | Act::ShowMiniwindows | Act::ShowRecycler => e matches ActEffect::Saved { refresh, dock_icons }
            && !refresh && !dock_icons,
        Act::ArrangeFront => e is ArrangeFront,
        Act::Miniaturize => match key {
            Some(k) => e matches ActEffect::Miniaturize(j) && j == k,
            None => e is Nothing,
        },
        Act::CloseWin => match key {
            Some(k) => e matches ActEffect::CloseWin(j) && j == k,
            None => e is Nothing,
        },
        Act::Hide => if mac { e is Minimize } else { e is Nothing },
        Act::Quit => e is Quit,
        _ => match shown_by(a) {
            Some(k) => e matches ActEffect::ShowWin(j) && j == k,
            None => e is Nothing,
        },
    }
}

fn count_line(pre: &str, n: usize, post: &str) -> (s: String)
    ensures
        s@ == pre@ + decimal(n as nat) + post@,
{
    let mut s = String::from_str(pre);
    let d = decimal_chars(n as u64);
    push_str(&mut s, string_of(d.as_slice()).as_str());
    push_str(&mut s, post);
    s
}

fn two(a: &str, b: &str) -> (v: Vec<String>)
    ensures
        views(v@) == seq![a@, b@],
{
    let mut v: Vec<String> = Vec::new();
    v.push(String::from_str(a));
    v.push(String::from_str(b));
    assert(views(v@) =~= seq![a@, b@]);
    v
}

fn clone_strings(v: &Vec<String>) -> (r: Vec<String>)
    ensures
        views(r@) == views(v@),
{
    let mut r: Vec<String> = Vec::new();
    let mut i: usize = 0;
    while i < v.len()
        invariant
            i <= v@.len(),
            r@.len() == i,
            forall|j: int| 0 <= j < i ==> (#[trigger] r@[j])@ == v@[j]@,
        decreases v@.len() - i,
    {
        r.push(String::from_str(v[i].as_str()));
        i += 1;
    }
    assert(views(r@) =~= views(v@));
    r
}

/// Two lists of entries with the same names, paths and attributes.
pub open spec fn same_entries(a: Seq<Entry>, b: Seq<Entry>) -> bool {
    &&& a.len() == b.len()
    &&& forall|i: int|
        0 <= i < a.len() ==> (#[trigger] a[i]).name@ == b[i].name@ && a[i].path@ == b[i].path@ && a[i].is_dir
            == b[i].is_dir && a[i].is_symlink == b[i].is_symlink && a[i].is_app == b[i].is_app && a[i].size
            == b[i].size && a[i].modified == b[i].modified && a[i].hidden == b[i].hidden
}

fn clone_entries(v: &Vec<Entry>) -> (r: Vec<Entry>)
    ensures
        same_entries(r@, v@),
{
    let mut r: Vec<Entry> = Vec::new();
    let mut i: usize = 0;
    while i < v.len()
        invariant
            i <= v@.len(),
            same_entries(r@, v@.take(i as int)),
        decreases v@.len() - i,
    {
        let e = &v[i];
        r.push(Entry {
            name: String::from_str(e.name.as_str()),
            path: String::from_str(e.path.as_str()),
            is_dir: e.is_dir,
            is_symlink: e.is_symlink,
            is_app: e.is_app,
            size: e.size,
            modified: e.modified,
            hidden: e.hidden,
        });
        i += 1;
    }
    assert(v@.take(v@.len() as int) =~= v@);
    r
}

/// Takes menu command `a`: the View switches flip in `flags`, Copy puts the selected paths on
/// the clipboard, and the rest is handed back as what is left to do (see `act_effect`).
pub fn act(
    a: Act,
    key: Option<WinKind>,
    flags: &mut UiFlags,
    deep: &Vec<Entry>,
    selected: &Vec<String>,
    dir: &str,
    clipboard: &mut Vec<String>,
    mac: bool,
) -> (e: ActEffect)
    ensures
        act_effect(a, key, deep@, views(selected@), dir@, views(old(clipboard)@), mac, e),
        *final(flags) == act_flags(*old(flags), a),
        views(final(clipboard)@) == if a == Act::Copy { views(selected@) } else { views(old(clipboard)@) },
{
    match a {
        Act::Open => ActEffect::Open(clone_entries(deep)),
        Act::NewFolder => ActEffect::NewFolder(String::from_str(dir)),
        Act::Duplicate => {
            if selected.len() == 0 {
                return ActEffect::Nothing;
            }
            ActEffect::Duplicate { what: count_line("duplicated ", selected.len(), " item(s)"), paths: clone_strings(selected) }
        },
        Act::Destroy => {
            if deep.len() == 0 {
                return ActEffect::Nothing;
            }
            let mut message = String::from_str("Destroy ");
            if deep.len() == 1 {
                push_str(&mut message, "“");
                push_str(&mut message, deep[0].name.as_str());
                push_str(&mut message, "”");
            } else {
                let d = decimal_chars(deep.len() as u64);
                push_str(&mut message, string_of(d.as_slice()).as_str());
                push_str(&mut message, " items");
            }
            push_str(&mut message, "?");
            assert(message@ =~= "Destroy "@ + destroy_what(deep@) + "?"@);
            let mut paths: Vec<String> = Vec::new();
            let mut i: usize = 0;
            while i < deep.len()
                invariant
                    i <= deep@.len(),
                    paths@.len() == i,
                    forall|j: int| 0 <= j < i ==> (#[trigger] paths@[j])@ == deep@[j].path@,
                decreases deep@.len() - i,
            {
                paths.push(String::from_str(deep[i].path.as_str()));
                i += 1;
            }
            assert(views(paths@) =~= entry_paths(deep@));
            ActEffect::Alert {
                message,
                detail: String::from_str("Destroy permanently deletes the file. Continue?"),
                buttons: two("Cancel", "Destroy"),
                pending: Pending::Destroy(paths),
            }
        },
        Act::EmptyRecycler => ActEffect::Alert {
            message: String::from_str("Are you sure you want to empty the Recycler?"),
            detail: String::from_str("Its contents will be permanently deleted."),
            buttons: two("Cancel", "Empty"),
            pending: Pending::EmptyTrash,
        },
        Act::Copy => {
            *clipboard = clone_strings(selected);
            ActEffect::Log(count_line("copied ", selected.len(), " path(s)"))
        },
        Act::Paste => {
            if clipboard.len() == 0 {
                return ActEffect::Nothing;
            }
            ActEffect::Paste {
                what: {
                    let mut w = count_line("pasted ", clipboard.len(), " item(s) into ");
                    push_str(&mut w, dir);
                    assert(w@ =~= "pasted "@ + decimal(clipboard@.len()) + " item(s) into "@ + dir@);
                    w
                },
                paths: clone_strings(clipboard),
                dir: String::from_str(dir),
            }
        },
        Act::SelectAll => ActEffect::SelectAll,
        Act::CheckDisks => ActEffect::Refresh,
        Act::Scale1 => ActEffect::Zoom(100),
        Act::Scale15 => ActEffect::Zoom(150),
        Act::Scale2 => ActEffect::Zoom(200),
        Act::ShowHidden => {
            flags.show_hidden = !flags.show_hidden;
            ActEffect::Saved { refresh: true, dock_icons: false }
        },
        Act::Backdrop => {
            flags.backdrop = !flags.backdrop;
            ActEffect::Saved { refresh: false, dock_icons: false }
        },
        Act::ShowDock => {
            flags.dock_visible = !flags.dock_visible;
            ActEffect::Saved { refresh: false, dock_icons: true }
        },
        Act::ShowMiniwindows => {
            flags.miniwindows_visible = !flags.miniwindows_visible;
            ActEffect::Saved { refresh: false, dock_icons: false }
        },
        Act::ShowRecycler => {
            flags.recycler_visible = !flags.recycler_visible;
            ActEffect::Saved { refresh: false, dock_icons: false }
        },
        Act::ArrangeFront => ActEffect::ArrangeFront,
        Act::Miniaturize => match key {
            Some(k) => ActEffect::Miniaturize(k),
            None => ActEffect::Nothing,
        },
        Act::CloseWin => match key {
            Some(k) => ActEffect::CloseWin(k),
            None => ActEffect::Nothing,
        },
        Act::Hide => if mac {
            ActEffect::Minimize
        } else {
            ActEffect::Nothing
        },
        Act::Quit => ActEffect::Quit,
        Act::InfoPanel => ActEffect::ShowWin(WinKind::Info),
        Act::RecyclerWin => ActEffect::ShowWin(WinKind::Recycler),
        Act::Inspector => ActEffect::ShowWin(WinKind::Inspector),
        Act::ConsoleWin => ActEffect::ShowWin(WinKind::Console),
        Act::Mandelbrot => ActEffect::ShowWin(WinKind::Mandelbrot),
        Act::ShellWin => ActEffect::ShowWin(WinKind::Shell),
        Act::FileViewerWin => ActEffect::ShowWin(WinKind::FileViewer),
        Act::Improv => ActEffect::ShowWin(WinKind::Improv),
        Act::Concurrence => ActEffect::ShowWin(WinKind::Concurrence),
        Act::Nothing | Act::Disabled | Act::ViewBrowser => ActEffect::Nothing,
    }
}

} // verus!
