//! `Info ▸ Help…`: one panel, a page per application, as every NeXTSTEP application had. The page
//! is the key window's application's, and the panel is as tall as its page.
use vstd::prelude::*;
use crate::chrome::{WinKind, TITLE_H};
use crate::text::{chars_of, push_str};

verus! {

pub const PAD: i32 = 14;

pub const LINE: i32 = 15;

/// The key column; the widest label in it is “Shift-Tab”.
pub const KEY_W: i32 = 116;

pub const HELP_W: i32 = 430;

// A line is either `key<tab>what it does` or a sentence; an empty one is a blank line.
pub const WORKSPACE_HELP: &'static str = "\
The Workspace browses the file system in columns.

Arrows\tmove in the columns
Return\topen the selection
Delete\tmove it to the Recycler
letters\ttype-ahead to a name
double-click\topen a file with its host application

Drag a folder to the Shelf to keep it there. Press
the right mouse button on the Screen for the main
menu; drag a submenu away by its title to tear it
off, and it stays until you close it.";
pub const INSPECTOR_HELP: &'static str = "\
Inspector, in the Tools menu, describes the File
Viewer's selection: name, size, kind, dates and
permissions.

Compute\tmeasure a folder, which walks it
Contents\tshows text files and PNG images

It follows the selection, so click another file and
the Inspector follows along.";
pub const CONSOLE_HELP: &'static str = "\
The Console logs what the Workspace does: copies,
deletions, searches, saved files and errors.

It is the place to look when something did not
happen — a file that would not copy says why here.";
pub const RECYCLER_HELP: &'static str = "\
Files deleted in the File Viewer land here, in the
system trash. Show Recycler Tile, in the View menu,
puts the tile on the Screen; drop files on it to
delete them.

Empty Recycler\tin the File menu; it always asks first

This is the real trash folder, so anything emptied
is gone for good.";
pub const SHELL_HELP: &'static str = "\
Shell, in the Tools menu, runs your login shell.
Keys go straight to it, including Control
combinations.

New Shell\tstart a fresh login shell in the window
Clear Buffer\tempty the screen and the scrollback

Resize the window to change the character grid; the
title follows what the shell reports. Scrollback is
on the scroller down the left edge.

On macOS, Cmd shortcuts still reach the menus.";
pub const LIBRARIAN_HELP: &'static str = "\
Librarian, in the Tools menu, searches the folders
on the Shelf for a word, and ranks the documents by
how often they use it.

click a book\tsearch that folder, or unpick it
Return\tsearch
Up/Down\twalk the hits
double-click\topen the document
Escape\tclear the word

It reads the files as it goes rather than keeping an
index, and stops after 4000 documents or 300 hits.";
pub const MANDELBROT_HELP: &'static str = "\
The set drawn in the four NeXT grays, with a choice
of dithering.

click\tzoom in about that point
shift-click\tzoom out
drag\tzoom to the rectangle
Depth\thow long a point is given to escape
Reset\tback to the whole set
Save\twrite a PNG to your home folder

Deeper zooms need more depth, or the inside of the
set floods the picture.";
pub const IMPROV_HELP: &'static str = "\
A worksheet of named categories — no A1 or B2. The
tiles at the top are the categories; drag one
between the row zone and the column zone to pivot.

click a cell\tthen type a figure
click a header\tpick that row or column
click it again\trename it
click a formula\tedit it
empty line\twrite another formula

Formulas are written over the names, as in
Revenue = Units * Price, and apply to every cell of
that item. New Row and New Column, in the Item menu,
add an item to the innermost category of that zone.";
pub const CONCURRENCE_HELP: &'static str = "\
One document three ways: an outline, its slides, and
the show. Every top-level topic is a slide and its
children are the bullets.

Tab\tdemote it, as Move Right does
Shift-Tab\tpromote it, as Move Left does
Return\tsplit the topic at the caret
Backspace\tjoin it with the one above
click a triangle\tcollapse or expand a topic
Space\tnext slide in the show
Escape\tend the show

Save writes the outline as Presentation-N.txt in
your home folder; it also lives in state.json.";
pub const PREFERENCES_HELP: &'static str = "\
Preferences, in the Info menu of every application,
keeps the settings of the Screen. The icons along
the top are the modules; click one for its pane.

Display\tthe scale everything is drawn at
Workspace\tthe Dock, the tiles and the backdrop
Expert\thidden files, and where settings live

Drag the scale knob and let go: text and icons are
drawn again at the new size, from a quarter step to
four times. The View menu has the same commands, so
a switch here and its menu item always agree.";

/// The applications with a page of their own.
pub open spec fn has_page(k: WinKind) -> bool {
    k == WinKind::FileViewer
        || k == WinKind::Inspector
        || k == WinKind::Console
        || k == WinKind::Recycler
        || k == WinKind::Shell
        || k == WinKind::Librarian
        || k == WinKind::Mandelbrot
        || k == WinKind::Improv
        || k == WinKind::Concurrence
        || k == WinKind::Preferences
}

/// The title and text of `k`'s page; an application without one gets the Workspace's.
pub open spec fn page_spec(k: WinKind) -> (Seq<char>, Seq<char>) {
    match k {
        WinKind::FileViewer => ("Workspace"@, WORKSPACE_HELP@),
        WinKind::Inspector => ("Inspector"@, INSPECTOR_HELP@),
        WinKind::Console => ("Console"@, CONSOLE_HELP@),
        WinKind::Recycler => ("Recycler"@, RECYCLER_HELP@),
        WinKind::Shell => ("Shell"@, SHELL_HELP@),
        WinKind::Librarian => ("Digital Librarian"@, LIBRARIAN_HELP@),
        WinKind::Mandelbrot => ("Mandelbrot"@, MANDELBROT_HELP@),
        WinKind::Improv => ("Improv"@, IMPROV_HELP@),
        WinKind::Concurrence => ("Concurrence"@, CONCURRENCE_HELP@),
        WinKind::Preferences => ("Preferences"@, PREFERENCES_HELP@),
        _ => ("Workspace"@, WORKSPACE_HELP@),
    }
}

pub fn page(k: WinKind) -> (r: (&'static str, &'static str))
    ensures
        (r.0@, r.1@) == page_spec(k),
{
    match k {
        WinKind::FileViewer => ("Workspace", WORKSPACE_HELP),
        WinKind::Inspector => ("Inspector", INSPECTOR_HELP),
        WinKind::Console => ("Console", CONSOLE_HELP),
        WinKind::Recycler => ("Recycler", RECYCLER_HELP),
        WinKind::Shell => ("Shell", SHELL_HELP),
        WinKind::Librarian => ("Digital Librarian", LIBRARIAN_HELP),
        WinKind::Mandelbrot => ("Mandelbrot", MANDELBROT_HELP),
        WinKind::Improv => ("Improv", IMPROV_HELP),
        WinKind::Concurrence => ("Concurrence", CONCURRENCE_HELP),
        WinKind::Preferences => ("Preferences", PREFERENCES_HELP),
        _ => ("Workspace", WORKSPACE_HELP),
    }
}

/// The page `Info ▸ Help…` opens on: that of the application whose menu it came from, or the
/// Workspace's when that one has none (the panel itself is nobody's application).
pub fn page_for(owner: Option<WinKind>) -> (k: WinKind)
    ensures
        k == (match owner {
            Some(o) => if has_page(o) { o } else { WinKind::FileViewer },
            None => WinKind::FileViewer,
        }),
{
    match owner {
        Some(o) => match o {
            WinKind::FileViewer | WinKind::Inspector | WinKind::Console | WinKind::Recycler
            | WinKind::Shell | WinKind::Librarian | WinKind::Mandelbrot | WinKind::Improv
            | WinKind::Concurrence | WinKind::Preferences => o,
            _ => WinKind::FileViewer,
        },
        None => WinKind::FileViewer,
    }
}

/// The panel's title on page `k`.
pub fn help_title(k: WinKind) -> (t: String)
    ensures
        t@ == page_spec(k).0 + " Help"@,
{
    let (title, _) = page(k);
    let mut t = String::from_str(title);
    push_str(&mut t, " Help");
    t
}

/// How many lines `str::lines` finds in `s`: one for each character that begins a line — the
/// first, and each one after a line feed. A final line feed begins no line.
pub open spec fn line_count(s: Seq<char>) -> int
    decreases s.len(),
{
    if s.len() == 0 {
        0
    } else if s.len() == 1 || s[s.len() - 2] == '\n' {
        line_count(s.drop_last()) + 1
    } else {
        line_count(s.drop_last())
    }
}

proof fn lemma_line_count_bound(s: Seq<char>)
    ensures
        0 <= line_count(s) <= s.len(),
    decreases s.len(),
{
    if s.len() > 0 {
        lemma_line_count_bound(s.drop_last());
    }
}

pub fn lines_in(s: &str) -> (n: usize)
    ensures
        n == line_count(s@),
{
    let v = chars_of(s);
    let mut n: usize = 0;
    let mut i: usize = 0;
    while i < v.len()
        invariant
            i <= v@.len(),
            v@ == s@,
            n == line_count(v@.take(i as int)),
            n <= i,
        decreases v@.len() - i,
    {
        proof {
            let t = v@.take(i + 1);
            assert(t.drop_last() =~= v@.take(i as int));
            if i >= 1 {
                assert(t[t.len() - 2] == v@[i - 1]);
            }
        }
        if i == 0 || v[i - 1] == '\n' {
            n += 1;
        }
        i += 1;
    }
    assert(v@.take(v@.len() as int) =~= v@);
    n
}

/// The panel is as tall as its page, so it never needs a scroller.
pub fn height(body: &str) -> (h: i32)
    requires
        line_count(body@) <= i32::MAX,
        TITLE_H + PAD * 2 + line_count(body@) * LINE <= i32::MAX,
    ensures
        h == TITLE_H + PAD * 2 + line_count(body@) * LINE,
{
    let n = lines_in(body);
    TITLE_H + PAD * 2 + n as i32 * LINE
}

} // verus!
