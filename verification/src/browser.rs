//! The File Viewer's column browser as a state machine: columns opened one folder listing at a
//! time, the selection that decides the next column, the walk down to a path, and the keys. The
//! listings themselves are read by the caller, which hands each one back.
use vstd::prelude::*;
use crate::files::Entry;
use crate::fileviewer::{begins, begins_with, select_all, ensure_visible, fits_visible, relisted_selection, selected_indices, selected_upto, visible_scroll, was_selected, Column, Nav};
use crate::icons::opt_view;
use crate::text::{chars_of, lowercase, str_eq, to_lower};

verus! {

pub struct Browser {
    pub cols: Vec<Column>,
    /// The column the keys work in.
    pub focus: usize,
    pub hscroll: i32,
    /// The walk down to a path, while it waits for a listing.
    pub nav: Option<Nav>,
    /// The last column id handed out.
    pub next_id: u64,
}

/// A column has one selection flag per entry.
pub open spec fn col_ok(c: Column) -> bool {
    c.sel@.len() == c.entries@.len()
}

/// The drive column: an entry per root, a folder each, none selected.
pub open spec fn drives_of(entries: Seq<Entry>, roots: Seq<String>) -> bool {
    &&& entries.len() == roots.len()
    &&& forall|i: int| 0 <= i < roots.len() ==> {
        let e = #[trigger] entries[i];
        &&& e.name@ == roots[i]@
        &&& e.path@ == roots[i]@
        &&& e.is_dir && !e.is_symlink && !e.is_app && !e.hidden
        &&& e.size == 0 && e.modified == 0
    }
}

/// A column just opened on `dir` (the drives where `dir` is none): nothing listed yet.
pub open spec fn fresh(c: Column, id: u64, dir: Option<Seq<char>>, roots: Seq<String>) -> bool {
    &&& c.id == id
    &&& opt_view(c.dir) == dir
    &&& c.anchor is None
    &&& c.seq == 0
    &&& c.scroll == 0
    &&& !c.unreadable
    &&& dir is None ==> drives_of(c.entries@, roots) && c.sel@ == Seq::new(roots.len(), |i: int| false)
    &&& dir is Some ==> c.entries@.len() == 0 && c.sel@.len() == 0
}

/// Only entry `idx` of `n` selected.
pub open spec fn only(n: int, idx: int) -> Seq<bool> {
    Seq::new(n as nat, |j: int| j == idx)
}

/// The one selected entry of a column, where exactly one is selected and it is a folder.
pub open spec fn single_folder(c: Column) -> Option<int> {
    let s = selected_upto(c.sel@, if c.sel@.len() < c.entries@.len() { c.sel@.len() as int } else { c.entries@.len() as int });
    if s.len() == 1 && c.entries@[s[0] as int].is_dir {
        Some(s[0] as int)
    } else {
        None
    }
}

fn drive_entry(r: &String) -> (e: Entry)
    ensures
        e.name@ == r@,
        e.path@ == r@,
        e.is_dir && !e.is_symlink && !e.is_app && !e.hidden,
        e.size == 0 && e.modified == 0,
{
    Entry { name: r.clone(), path: r.clone(), is_dir: true, is_symlink: false, is_app: false, size: 0, modified: 0, hidden: false }
}

impl Browser {
    pub open spec fn ok(&self) -> bool {
        forall|i: int| 0 <= i < self.cols@.len() ==> col_ok(#[trigger] self.cols@[i])
    }

    fn take_col(&mut self, ci: usize) -> (c: Column)
        requires
            ci < old(self).cols@.len(),
        ensures
            c == old(self).cols@[ci as int],
            final(self).cols@ == old(self).cols@.remove(ci as int),
            final(self).focus == old(self).focus,
            final(self).hscroll == old(self).hscroll,
            final(self).nav == old(self).nav,
            final(self).next_id == old(self).next_id,
    {
        self.cols.remove(ci)
    }

    fn put_col(&mut self, ci: usize, c: Column)
        requires
            ci <= old(self).cols@.len(),
        ensures
            final(self).cols@ == old(self).cols@.insert(ci as int, c),
            final(self).focus == old(self).focus,
            final(self).hscroll == old(self).hscroll,
            final(self).nav == old(self).nav,
            final(self).next_id == old(self).next_id,
    {
        self.cols.insert(ci, c);
    }

    /// Keeps the first `n` columns; the focus stays on one of them.
    pub fn truncate(&mut self, n: usize)
        requires
            old(self).ok(),
        ensures
            final(self).ok(),
            final(self).cols@ == old(self).cols@.take(if n < old(self).cols@.len() { n as int } else { old(self).cols@.len() as int }),
            final(self).focus == (if n == 0 { 0 } else if old(self).focus < n - 1 { old(self).focus as int } else { n - 1 }),
            final(self).hscroll == old(self).hscroll,
            final(self).nav == old(self).nav,
            final(self).next_id == old(self).next_id,
    {
        self.cols.truncate(n);
        let last = if n == 0 { 0 } else { n - 1 };
        if self.focus > last {
            self.focus = last;
        }
    }

    /// Scrolls the browser to its last column (the layout brings the position into range).
    pub fn scroll_end(&mut self)
        ensures
            final(self).hscroll == i32::MAX / 2,
            final(self).cols == old(self).cols,
            final(self).focus == old(self).focus,
            final(self).nav == old(self).nav,
            final(self).next_id == old(self).next_id,
    {
        self.hscroll = i32::MAX / 2;
    }

    /// Opens a column on `dir` after the others, or the column of the drives `roots` where `dir`
    /// is none, and gives its place. A folder's column is empty until its listing comes.
    pub fn add_column(&mut self, dir: Option<String>, roots: &Vec<String>) -> (ci: usize)
        requires
            old(self).ok(),
            old(self).next_id < u64::MAX,
        ensures
            final(self).ok(),
            ci == old(self).cols@.len(),
            final(self).next_id == old(self).next_id + 1,
            final(self).cols@.len() == old(self).cols@.len() + 1,
            final(self).cols@.drop_last() == old(self).cols@,
            fresh(final(self).cols@.last(), final(self).next_id, opt_view(dir), roots@),
            final(self).focus == old(self).focus,
            final(self).hscroll == old(self).hscroll,
            final(self).nav == old(self).nav,
    {
        self.next_id = self.next_id + 1;
        let mut entries: Vec<Entry> = Vec::new();
        let mut sel: Vec<bool> = Vec::new();
        if dir.is_none() {
            let mut i: usize = 0;
            while i < roots.len()
                invariant
                    i <= roots@.len(),
                    entries@.len() == i,
                    sel@ == Seq::new(i as nat, |j: int| false),
                    forall|j: int| 0 <= j < i ==> {
                        let e = #[trigger] entries@[j];
                        &&& e.name@ == roots@[j]@
                        &&& e.path@ == roots@[j]@
                        &&& e.is_dir && !e.is_symlink && !e.is_app && !e.hidden
                        &&& e.size == 0 && e.modified == 0
                    },
                decreases roots@.len() - i,
            {
                entries.push(drive_entry(&roots[i]));
                sel.push(false);
                i += 1;
                assert(sel@ =~= Seq::new(i as nat, |j: int| false));
            }
        }
        let col = Column { id: self.next_id, dir, entries, sel, anchor: None, seq: 0, scroll: 0, unreadable: false };
        let ghost before = self.cols@;
        self.cols.push(col);
        assert(self.cols@.drop_last() =~= before);
        self.cols.len() - 1
    }

    /// Starts listing the folder of column `ci` again: gives the column's id, the number of this
    /// listing and the folder, so the listing can be matched when it comes back. The drive column
    /// is not listed.
    pub fn begin_load(&mut self, ci: usize) -> (r: Option<(u64, u64, String)>)
        requires
            old(self).ok(),
            ci < old(self).cols@.len(),
            old(self).cols@[ci as int].seq < u64::MAX,
        ensures
            final(self).ok(),
            final(self).cols@ == old(self).cols@.update(ci as int, Column { seq: (old(self).cols@[ci as int].seq + 1) as u64, ..old(self).cols@[ci as int] }),
            final(self).focus == old(self).focus,
            final(self).hscroll == old(self).hscroll,
            final(self).nav == old(self).nav,
            final(self).next_id == old(self).next_id,
            match (r, old(self).cols@[ci as int].dir) {
                (Some((id, seq, d)), Some(dir)) => id == old(self).cols@[ci as int].id && seq == old(self).cols@[ci as int].seq + 1 && d@ == dir@,
                (None, None) => true,
                _ => false,
            },
    {
        let mut c = self.take_col(ci);
        c.seq = c.seq + 1;
        let r = match &c.dir {
            Some(d) => Some((c.id, c.seq, d.clone())),
            None => None,
        };
        self.put_col(ci, c);
        assert(self.cols@ =~= old(self).cols@.update(ci as int, Column { seq: (old(self).cols@[ci as int].seq + 1) as u64, ..old(self).cols@[ci as int] }));
        r
    }
}


/// What a selection in column `ci` leaves: the columns up to it, the focus on it, and a new
/// column on the folder where exactly one folder is selected there.
pub open spec fn after_select_spec(cols: Seq<Column>, b: Browser, ci: int, roots: Seq<String>, f: Browser, opened: Option<usize>) -> bool {
    &&& f.focus == ci
    &&& f.nav == b.nav
    &&& f.cols@.take(ci + 1) == cols.take(ci + 1)
    &&& match single_folder(cols[ci]) {
        Some(k) => {
            &&& opened == Some((ci + 1) as usize)
            &&& f.cols@.len() == ci + 2
            &&& f.next_id == b.next_id + 1
            &&& fresh(f.cols@[ci + 1], f.next_id, Some(cols[ci].entries@[k].path@), roots)
            &&& f.hscroll == i32::MAX / 2
        },
        None => {
            &&& opened is None
            &&& f.cols@.len() == ci + 1
            &&& f.next_id == b.next_id
            &&& f.hscroll == b.hscroll
        },
    }
}


/// Picking entry `idx` of column `ci` (see `Browser::pick`): from `b` to `f`, giving `r`.
pub open spec fn picked(b: Browser, ci: int, idx: int, h: int, roots: Seq<String>, f: Browser, r: Option<Option<usize>>) -> bool {
    if idx >= b.cols@[ci].entries@.len() {
        r is None && f == b
    } else {
        r matches Some(opened) && {
            let c = b.cols@[ci];
            let p = f.cols@[ci];
            &&& f.cols@.take(ci) == b.cols@.take(ci)
            &&& p.sel@ == only(c.entries@.len() as int, idx)
            &&& p.anchor == Some(idx as usize)
            &&& p.scroll == visible_scroll(c.scroll as int, idx, h)
            &&& p.entries == c.entries && p.id == c.id && p.dir == c.dir && p.seq == c.seq && p.unreadable == c.unreadable
            &&& f.focus == ci
            &&& f.nav == b.nav
            &&& if c.entries@[idx].is_dir {
                &&& opened == Some((ci + 1) as usize)
                &&& f.cols@.len() == ci + 2
                &&& f.next_id == b.next_id + 1
                &&& fresh(f.cols@[ci + 1], f.next_id, Some(c.entries@[idx].path@), roots)
                &&& f.hscroll == i32::MAX / 2
            } else {
                &&& opened is None
                &&& f.cols@.len() == ci + 1
                &&& f.next_id == b.next_id
                &&& f.hscroll == b.hscroll
            }
        }
    }
}

proof fn lemma_selected_below(sel: Seq<bool>, m: int)
    requires
        0 <= m <= sel.len(),
        m <= usize::MAX,
    ensures
        forall|j: int| 0 <= j < selected_upto(sel, m).len() ==> (#[trigger] selected_upto(sel, m)[j]) < m,
    decreases m,
{
    if m > 0 {
        lemma_selected_below(sel, m - 1);
        let prev = selected_upto(sel, m - 1);
        let cur = selected_upto(sel, m);
        assert forall|j: int| 0 <= j < cur.len() implies (#[trigger] cur[j]) < m by {
            if j < prev.len() {
                assert(cur[j] == prev[j]);
            }
        }
    }
}

proof fn lemma_only_selected(n: int, idx: int, m: int)
    requires
        0 <= idx < n,
        idx < m <= n,
    ensures
        selected_upto(only(n, idx), m) == seq![idx as usize],
    decreases m,
{
    if m - 1 > idx {
        lemma_only_selected(n, idx, m - 1);
    } else {
        lemma_none_selected(n, idx, idx);
    }
}

proof fn lemma_none_selected(n: int, idx: int, m: int)
    requires
        0 <= m <= idx < n,
    ensures
        selected_upto(only(n, idx), m) == Seq::<usize>::empty(),
    decreases m,
{
    if m > 0 {
        lemma_none_selected(n, idx, m - 1);
    }
}

impl Browser {
    /// After the selection in column `ci` changed: the columns after it close, the focus moves
    /// there, and a single selected folder opens in a new column, scrolled into view. Gives the
    /// new column, which waits for its listing.
    pub fn after_select(&mut self, ci: usize, roots: &Vec<String>) -> (opened: Option<usize>)
        requires
            old(self).ok(),
            ci < old(self).cols@.len(),
            old(self).next_id < u64::MAX,
        ensures
            final(self).ok(),
            after_select_spec(old(self).cols@, *old(self), ci as int, roots@, *final(self), opened),
    {
        let n = self.cols.len();
        self.truncate(ci + 1);
        self.focus = ci;
        assert(self.cols@[ci as int] == old(self).cols@[ci as int]);
        let sel = selected_indices(&self.cols[ci]);
        let ne = self.cols[ci].entries.len();
        proof {
            let c = self.cols@[ci as int];
            lemma_selected_below(c.sel@, c.entries@.len() as int);
        }
        if sel.len() == 1 && self.cols[ci].entries[sel[0]].is_dir {
            let p = self.cols[ci].entries[sel[0]].path.clone();
            let ghost mid = self.cols@;
            assert(single_folder(old(self).cols@[ci as int]) == Some(sel@[0] as int));
            let ni = self.add_column(Some(p), roots);
            self.scroll_end();
            assert(self.cols@.take(ci + 1) =~= mid);
            assert(mid =~= old(self).cols@.take(ci + 1));
            Some(ni)
        } else {
            assert(single_folder(old(self).cols@[ci as int]) is None);
            assert(self.cols@.take(ci + 1) =~= self.cols@);
            None
        }
    }

    /// Selects entry `idx` of column `ci` alone, as a click or a key does, scrolls it into a list
    /// `h` pixels tall, and goes on as after any selection. Nothing happens where the column has
    /// no such entry. Gives whether it was picked, and the column opened on it.
    pub fn pick(&mut self, ci: usize, idx: usize, h: i32, roots: &Vec<String>) -> (r: Option<Option<usize>>)
        requires
            old(self).ok(),
            ci < old(self).cols@.len(),
            old(self).next_id < u64::MAX,
            idx < old(self).cols@[ci as int].entries@.len() ==> fits_visible(old(self).cols@[ci as int].scroll as int, idx as int, h as int),
        ensures
            final(self).ok(),
            picked(*old(self), ci as int, idx as int, h as int, roots@, *final(self), r),
    {
        if idx >= self.cols[ci].entries.len() {
            return None;
        }
        let mut c = self.take_col(ci);
        let n = c.entries.len();
        let mut sel: Vec<bool> = Vec::new();
        let mut j: usize = 0;
        while j < n
            invariant
                j <= n,
                sel@ == Seq::new(j as nat, |k: int| k == idx),
            decreases n - j,
        {
            sel.push(j == idx);
            j += 1;
            assert(sel@ =~= Seq::new(j as nat, |k: int| k == idx));
        }
        c.sel = sel;
        c.anchor = Some(idx);
        c.scroll = ensure_visible(c.scroll, idx, h);
        proof {
            lemma_only_selected(n as int, idx as int, n as int);
        }
        self.put_col(ci, c);
        let ghost mid = self.cols@;
        proof {
            assert(mid[ci as int].sel@ == only(n as int, idx as int));
            assert(mid[ci as int].entries@.len() == n);
            assert(selected_upto(mid[ci as int].sel@, n as int) == seq![idx]);
            assert(single_folder(mid[ci as int]) == (if mid[ci as int].entries@[idx as int].is_dir { Some(idx as int) } else { None }));
            assert(mid.take(ci as int) =~= old(self).cols@.take(ci as int));
        }
        let opened = self.after_select(ci, roots);
        assert(self.cols@.take(ci as int) =~= mid.take(ci + 1).take(ci as int));
        assert(mid.take(ci as int) =~= old(self).cols@.take(ci as int));
        assert(self.cols@[ci as int] == self.cols@.take(ci + 1)[ci as int]);
        proof {
            let b = *old(self);
            let f = *self;
            let c = b.cols@[ci as int];
            let p = f.cols@[ci as int];
            assert(f.cols@.take(ci as int) == b.cols@.take(ci as int));
            assert(p.sel@ == only(c.entries@.len() as int, idx as int));
            assert(p.anchor == Some(idx));
            assert(p.scroll == visible_scroll(c.scroll as int, idx as int, h as int));
            assert(p.entries == c.entries && p.id == c.id && p.dir == c.dir && p.seq == c.seq && p.unreadable == c.unreadable);
            assert(f.focus == ci);
            assert(f.nav == b.nav);
            if c.entries@[idx as int].is_dir {
                assert(opened == Some((ci + 1) as usize));
                assert(f.cols@.len() == ci + 2);
                assert(fresh(f.cols@[ci + 1], f.next_id, Some(c.entries@[idx as int].path@), roots@));
            } else {
                assert(opened is None);
                assert(f.cols@.len() == ci + 1);
            }
        }
        Some(opened)
    }
}


/// The first entry, from `k` on, whose path is `p`.
pub open spec fn entry_from(es: Seq<Entry>, p: Seq<char>, k: int) -> Option<int>
    decreases es.len() - k,
{
    if k < 0 || k >= es.len() {
        None
    } else if es[k].path@ == p {
        Some(k)
    } else {
        entry_from(es, p, k + 1)
    }
}

proof fn lemma_entry_from(es: Seq<Entry>, p: Seq<char>, k: int)
    requires
        0 <= k,
    ensures
        entry_from(es, p, k) matches Some(i) ==> k <= i < es.len() && es[i].path@ == p,
        entry_from(es, p, k) is None ==> forall|j: int| k <= j < es.len() ==> es[j].path@ != p,
    decreases es.len() - k,
{
    if k < es.len() && es[k].path@ != p {
        lemma_entry_from(es, p, k + 1);
    }
}

/// The position of the first entry whose path is `p`.
pub fn find_entry(es: &Vec<Entry>, p: &str) -> (r: Option<usize>)
    ensures
        match r {
            Some(i) => entry_from(es@, p@, 0) == Some(i as int) && i < es@.len(),
            None => entry_from(es@, p@, 0) is None,
        },
{
    let mut i: usize = 0;
    while i < es.len()
        invariant
            i <= es@.len(),
            entry_from(es@, p@, 0) == entry_from(es@, p@, i as int),
        decreases es@.len() - i,
    {
        if str_eq(es[i].path.as_str(), p) {
            return Some(i);
        }
        i += 1;
    }
    None
}

/// The walk down to a path takes its next step in column `ci`, whose listing came: the next
/// folder of `chain` is selected there alone and scrolled into a list `h` pixels tall, and opens
/// in a new column (which the walk then waits for) where it is a folder. Nothing changes where
/// the walk is at its end or the listing lacks the next folder.
pub open spec fn stepped(
    cols: Seq<Column>,
    b: Browser,
    chain: Seq<Option<String>>,
    ci: int,
    h: int,
    roots: Seq<String>,
    f: Browser,
    r: Option<usize>,
) -> bool {
    let step = if ci + 1 < chain.len() { opt_view(chain[ci + 1]) } else { None };
    match step {
        None => f.cols@ == cols && f.focus == b.focus && f.hscroll == b.hscroll && f.nav == b.nav && f.next_id == b.next_id && r is None,
        Some(next) => match entry_from(cols[ci].entries@, next, 0) {
            None => f.cols@ == cols && f.focus == b.focus && f.hscroll == b.hscroll && f.nav == b.nav && f.next_id == b.next_id
                && r is None,
            Some(idx) => {
                let c = cols[ci];
                let p = f.cols@[ci];
                &&& p.sel@ == only(c.entries@.len() as int, idx)
                &&& p.anchor == Some(idx as usize)
                &&& p.scroll == visible_scroll(c.scroll as int, idx, h)
                &&& p.entries == c.entries && p.id == c.id && p.dir == c.dir && p.seq == c.seq && p.unreadable == c.unreadable
                &&& f.focus == ci
                &&& if c.entries@[idx].is_dir {
                    &&& f.cols@.len() == cols.len() + 1
                    &&& f.cols@.drop_last() == cols.update(ci, p)
                    &&& f.next_id == b.next_id + 1
                    &&& fresh(f.cols@.last(), f.next_id, Some(next), roots)
                    &&& f.hscroll == i32::MAX / 2
                    &&& r == Some(cols.len() as usize)
                    &&& f.nav matches Some(nv) && nv.chain@ == chain && nv.step == cols.len()
                } else {
                    &&& f.cols@ == cols.update(ci, p)
                    &&& f.next_id == b.next_id
                    &&& f.hscroll == b.hscroll
                    &&& f.nav == b.nav
                    &&& r is None
                }
            },
        },
    }
}

impl Browser {
    /// One step of the walk down to a path, in column `ci` (see `stepped`). Gives the column
    /// opened, which waits for its listing.
    pub fn nav_step(&mut self, chain: Vec<Option<String>>, ci: usize, h: i32, roots: &Vec<String>) -> (r: Option<usize>)
        requires
            old(self).ok(),
            ci < old(self).cols@.len(),
            old(self).next_id < u64::MAX,
            forall|i: int| 0 <= i < old(self).cols@[ci as int].entries@.len() ==> #[trigger] fits_visible(old(self).cols@[ci as int].scroll as int, i, h as int),
        ensures
            final(self).ok(),
            stepped(old(self).cols@, *old(self), chain@, ci as int, h as int, roots@, *final(self), r),
    {
        let ncols = self.cols.len();
        let next = if ci + 1 < chain.len() {
            match &chain[ci + 1] {
                Some(p) => p.clone(),
                None => return None,
            }
        } else {
            return None;
        };
        let idx = match find_entry(&self.cols[ci].entries, next.as_str()) {
            None => return None,
            Some(i) => i,
        };
        proof {
            lemma_entry_from(old(self).cols@[ci as int].entries@, next@, 0);
        }
        let mut c = self.take_col(ci);
        let n = c.entries.len();
        let mut sel: Vec<bool> = Vec::new();
        let mut j: usize = 0;
        while j < n
            invariant
                j <= n,
                sel@ == Seq::new(j as nat, |k: int| k == idx),
            decreases n - j,
        {
            sel.push(j == idx);
            j += 1;
            assert(sel@ =~= Seq::new(j as nat, |k: int| k == idx));
        }
        c.sel = sel;
        c.anchor = Some(idx);
        assert(fits_visible(c.scroll as int, idx as int, h as int));
        c.scroll = ensure_visible(c.scroll, idx, h);
        let is_dir = c.entries[idx].is_dir;
        self.put_col(ci, c);
        assert(self.cols@ =~= old(self).cols@.update(ci as int, self.cols@[ci as int]));
        self.focus = ci;
        proof {
            let c = old(self).cols@[ci as int];
            let p = self.cols@[ci as int];
            assert(p.sel@ == only(c.entries@.len() as int, idx as int));
            assert(p.anchor == Some(idx));
            assert(p.scroll == visible_scroll(c.scroll as int, idx as int, h as int));
            assert(p.entries == c.entries && p.id == c.id && p.dir == c.dir && p.seq == c.seq && p.unreadable == c.unreadable);
            assert(entry_from(c.entries@, next@, 0) == Some(idx as int));
            assert(ci + 1 < chain@.len());
            assert(opt_view(chain@[ci + 1]) == Some(next@));
        }
        if is_dir {
            let ghost mid = self.cols@;
            let ni = self.add_column(Some(next), roots);
            assert(self.cols@[ci as int] == self.cols@.drop_last()[ci as int]);
            self.nav = Some(Nav { chain, step: ni });
            self.scroll_end();
            Some(ni)
        } else {
            None
        }
    }
}


fn clone_opt(o: &Option<String>) -> (r: Option<String>)
    ensures
        opt_view(r) == opt_view(*o),
{
    match o {
        Some(s) => Some(s.clone()),
        None => None,
    }
}

/// What a listing that came back does.
pub enum Listed {
    /// It was for a column that has gone, or was overtaken by a newer listing.
    Stale,
    /// It is shown; whether the columns or the selection changed besides, and the column opened
    /// by the walk down to a path, which waits for its own listing.
    Shown { changed: bool, load: Option<usize> },
    /// The folder could not be read: the column is empty and marked so, the walk stops.
    Failed(String),
}

/// The first column, from `k` on, with id `id`.
pub open spec fn col_from(cols: Seq<Column>, id: u64, k: int) -> Option<int>
    decreases cols.len() - k,
{
    if k < 0 || k >= cols.len() {
        None
    } else if cols[k].id == id {
        Some(k)
    } else {
        col_from(cols, id, k + 1)
    }
}

proof fn lemma_col_from(cols: Seq<Column>, id: u64, k: int)
    requires
        0 <= k,
    ensures
        col_from(cols, id, k) matches Some(i) ==> k <= i < cols.len() && cols[i].id == id,
    decreases cols.len() - k,
{
    if k < cols.len() && cols[k].id != id {
        lemma_col_from(cols, id, k + 1);
    }
}

/// Column `p` is column `c` listed again with `es`: the selection kept by path, the anchor kept
/// where it still names an entry.
pub open spec fn relisted(c: Column, es: Seq<Entry>, p: Column) -> bool {
    &&& p.entries@ == es
    &&& p.sel@.len() == es.len()
    &&& forall|i: int| 0 <= i < es.len() ==> #[trigger] p.sel@[i] == was_selected(c.entries@, c.sel@, es[i].path@)
    &&& p.anchor == (match c.anchor {
        Some(a) => if a < es.len() { Some(a) } else { None },
        None => None,
    })
    &&& !p.unreadable
    &&& p.id == c.id && p.dir == c.dir && p.seq == c.seq && p.scroll == c.scroll
}

impl Browser {
    /// Opens the columns down to a path: `chain` is its folders from the root (the drives first on
    /// Windows, where the first is none). The first column opens, and the walk waits for its
    /// listing; the drive column needs none, so the walk takes its first step at once. Gives
    /// the column that waits for a listing.
    pub fn navigate(&mut self, chain: Vec<Option<String>>, h: i32, roots: &Vec<String>) -> (r: Option<usize>)
        requires
            old(self).ok(),
            chain@.len() >= 1,
            old(self).next_id < u64::MAX - 1,
            forall|i: int| 0 <= i < roots@.len() ==> #[trigger] fits_visible(0, i, h as int),
        ensures
            final(self).ok(),
            chain@[0] matches Some(d) ==> {
                &&& final(self).cols@.len() == 1
                &&& fresh(final(self).cols@[0], (old(self).next_id + 1) as u64, Some(d@), roots@)
                &&& final(self).next_id == old(self).next_id + 1
                &&& final(self).focus == 0
                &&& final(self).hscroll == old(self).hscroll
                &&& final(self).nav matches Some(nv) && nv.chain@ == chain@ && nv.step == 0
                &&& r == Some(0usize)
            },
            chain@[0] is None ==> exists|c0: Column|
                fresh(c0, (old(self).next_id + 1) as u64, None, roots@) && #[trigger] stepped(
                    seq![c0],
                    Browser { cols: final(self).cols, focus: 0, hscroll: old(self).hscroll, nav: None, next_id: (old(self).next_id + 1) as u64 },
                    chain@,
                    0,
                    h as int,
                    roots@,
                    *final(self),
                    r,
                ),
    {
        self.truncate(0);
        let first = clone_opt(&chain[0]);
        let is_drives = first.is_none();
        let ci = self.add_column(first, roots);
        if is_drives {
            self.nav = None;
            let ghost c0 = self.cols@[0];
            assert(self.cols@ =~= seq![c0]);
            let ghost pre = *self;
            let ghost ch = chain@;
            let r = self.nav_step(chain, ci, h, roots);
            assert(fresh(c0, (old(self).next_id + 1) as u64, None, roots@));
            assert(stepped(seq![c0], pre, ch, 0, h as int, roots@, *self, r));
            assert(stepped(
                seq![c0],
                Browser { cols: self.cols, focus: 0, hscroll: old(self).hscroll, nav: None, next_id: (old(self).next_id + 1) as u64 },
                ch,
                0,
                h as int,
                roots@,
                *self,
                r,
            ));
            r
        } else {
            self.nav = Some(Nav { chain, step: 0 });
            Some(ci)
        }
    }

    /// A listing came back for the column with id `col_id`, numbered `seq`. A current one is
    /// shown, keeping the selection by path; the column after it closes where its folder is no
    /// longer listed; the walk down to a path goes on where it waited for this column. A failed
    /// one empties the column and stops the walk. `h` is how tall a column's list is.
    pub fn listed(&mut self, col_id: u64, seq: u64, result: Result<Vec<Entry>, String>, h: i32, roots: &Vec<String>) -> (out: Listed)
        requires
            old(self).ok(),
            old(self).next_id < u64::MAX,
            result matches Ok(es) ==> forall|i: int| 0 <= i < es@.len() ==> #[trigger] fits_visible(0, i, h as int),
        ensures
            final(self).ok(),
            ({
                let cols = old(self).cols@;
                match col_from(cols, col_id, 0) {
                    None => out is Stale && *final(self) == *old(self),
                    Some(ci) => if cols[ci].seq != seq {
                        out is Stale && *final(self) == *old(self)
                    } else {
                        match result {
                            Err(e) => {
                                &&& out == Listed::Failed(e)
                                &&& final(self).cols@.len() == cols.len()
                                &&& forall|k: int| 0 <= k < cols.len() && k != ci ==> #[trigger] final(self).cols@[k] == cols[k]
                                &&& final(self).cols@[ci].entries@.len() == 0 && final(self).cols@[ci].sel@.len() == 0
                                &&& final(self).cols@[ci].unreadable
                                &&& final(self).cols@[ci].id == cols[ci].id && final(self).cols@[ci].dir == cols[ci].dir
                                &&& final(self).cols@[ci].seq == cols[ci].seq && final(self).cols@[ci].scroll == cols[ci].scroll
                                &&& final(self).cols@[ci].anchor == cols[ci].anchor
                                &&& final(self).nav is None
                                &&& final(self).focus == old(self).focus && final(self).hscroll == old(self).hscroll
                                &&& final(self).next_id == old(self).next_id
                            },
                            Ok(es) => exists|p: Column| {
                                &&& #[trigger] relisted(cols[ci], es@, p)
                                &&& {
                                    let cols1 = cols.update(ci, p);
                                    let trunc = ci + 1 < cols.len() && cols[ci + 1].dir is Some
                                        && entry_from(es@, cols[ci + 1].dir->0@, 0) is None;
                                    let cols2 = if trunc { cols1.take(ci + 1) } else { cols1 };
                                    let focus2 = if trunc && old(self).focus > ci { ci as usize } else { old(self).focus };
                                    let b2 = Browser { cols: final(self).cols, focus: focus2, hscroll: old(self).hscroll, nav: None, next_id: old(self).next_id };
                                    match old(self).nav {
                                        Some(nv) => if nv.step == ci {
                                            &&& out matches Listed::Shown { changed, load } && changed && stepped(cols2, b2, nv.chain@, ci, h as int, roots@, *final(self), load)
                                        } else {
                                            &&& out == (Listed::Shown { changed: trunc, load: None })
                                            &&& final(self).cols@ == cols2 && final(self).focus == focus2 && final(self).nav == old(self).nav
                                            &&& final(self).hscroll == old(self).hscroll && final(self).next_id == old(self).next_id
                                        },
                                        None => {
                                            &&& out == (Listed::Shown { changed: trunc, load: None })
                                            &&& final(self).cols@ == cols2 && final(self).focus == focus2 && final(self).nav is None
                                            &&& final(self).hscroll == old(self).hscroll && final(self).next_id == old(self).next_id
                                        },
                                    }
                                }
                            },
                        }
                    },
                }
            }),
    {
        proof {
            lemma_col_from(self.cols@, col_id, 0);
        }
        let mut ci: usize = 0;
        while ci < self.cols.len() && self.cols[ci].id != col_id
            invariant
                ci <= self.cols@.len(),
                col_from(self.cols@, col_id, 0) == col_from(self.cols@, col_id, ci as int),
            decreases self.cols@.len() - ci,
        {
            ci += 1;
        }
        if ci == self.cols.len() || self.cols[ci].seq != seq {
            return Listed::Stale;
        }
        let n = self.cols.len();
        let mut c = self.take_col(ci);
        match result {
            Err(e) => {
                c.entries = Vec::new();
                c.sel = Vec::new();
                c.unreadable = true;
                let ghost p = c;
                self.put_col(ci, c);
                assert(self.cols@ =~= old(self).cols@.update(ci as int, p));
                self.nav = None;
                assert(col_from(old(self).cols@, col_id, 0) == Some(ci as int));
                assert(self.cols@.len() == old(self).cols@.len());
                assert(self.cols@[ci as int].entries@.len() == 0);
                assert(self.ok());
                Listed::Failed(e)
            },
            Ok(entries) => {
                let ghost es = entries@;
                let sel = relisted_selection(&c.entries, &c.sel, &entries);
                let na = match c.anchor {
                    Some(a) => if a < entries.len() { Some(a) } else { None },
                    None => None,
                };
                c.sel = sel;
                c.anchor = na;
                c.entries = entries;
                c.unreadable = false;
                let ghost p = c;
                self.put_col(ci, c);
                assert(self.cols@ =~= old(self).cols@.update(ci as int, p));
                let mut trunc = false;
                if ci + 1 < n {
                    let gone = match &self.cols[ci + 1].dir {
                        Some(d) => find_entry(&self.cols[ci].entries, d.as_str()).is_none(),
                        None => false,
                    };
                    if gone {
                        self.truncate(ci + 1);
                        trunc = true;
                    }
                }
                let ghost cols2 = self.cols@;
                let ghost focus2 = self.focus;
                assert(relisted(old(self).cols@[ci as int], es, p));
                let nav = self.nav.take();
                match nav {
                    Some(nv) => {
                        if nv.step == ci {
                            let ghost pre = *self;
                            let ghost ch = nv.chain@;
                            assert(self.cols@[ci as int] == p);
                            assert forall|i: int| 0 <= i < self.cols@[ci as int].entries@.len() implies #[trigger] fits_visible(self.cols@[ci as int].scroll as int, i, h as int) by {
                                assert(fits_visible(0, i, h as int));
                            }
                            let load = self.nav_step(nv.chain, ci, h, roots);
                            assert(stepped(cols2, pre, ch, ci as int, h as int, roots@, *self, load));
                            assert(stepped(
                                cols2,
                                Browser { cols: self.cols, focus: focus2, hscroll: old(self).hscroll, nav: None, next_id: old(self).next_id },
                                ch,
                                ci as int,
                                h as int,
                                roots@,
                                *self,
                                load,
                            ));
                            Listed::Shown { changed: true, load }
                        } else {
                            self.nav = Some(nv);
                            Listed::Shown { changed: trunc, load: None }
                        }
                    },
                    None => Listed::Shown { changed: trunc, load: None },
                }
            },
        }
    }
}


/// What a key does in the File Viewer's browser.
#[derive(Clone, Copy, PartialEq, Eq, Debug, Structural)]
pub enum FvKey {
    /// An entry was picked; the column opened on it, which waits for its listing.
    Picked(Option<usize>),
    /// The focus went back a column, clearing the selections from the column left.
    Back,
    /// The selection is to be opened.
    Open,
    /// The selection is to be moved to the Recycler, once confirmed.
    Trash,
    /// A character for the type-ahead search.
    Typed(char),
    Nothing,
}

/// No entry of a column selected.
pub open spec fn cleared(c: Column, p: Column) -> bool {
    p.sel@ == Seq::new(c.sel@.len(), |j: int| false) && p.entries == c.entries && p.id == c.id && p.dir == c.dir
        && p.anchor == c.anchor && p.seq == c.seq && p.scroll == c.scroll && p.unreadable == c.unreadable
}

/// The last selected entry of a column.
pub open spec fn last_selected(c: Column) -> Option<int> {
    let s = selected_upto(c.sel@, c.entries@.len() as int);
    if s.len() == 0 {
        None
    } else {
        Some(s.last() as int)
    }
}

impl Browser {
    /// A key in the browser: Down and Up pick the entry after or before the last selected one
    /// (the first where none is), Right picks the first entry of the next column, Left goes
    /// back a column; Return opens, Delete and Backspace move to the Recycler, a character
    /// goes to the type-ahead search. Nothing happens with Alt held or no column in focus.
    pub fn key(&mut self, k: crate::events::Key, mods: crate::events::Mods, h: i32, roots: &Vec<String>) -> (out: FvKey)
        requires
            old(self).ok(),
            old(self).next_id < u64::MAX,
            forall|c: int, i: int| 0 <= c < old(self).cols@.len() && 0 <= i < old(self).cols@[c].entries@.len() ==> #[trigger] fits_visible(
                old(self).cols@[c].scroll as int,
                i,
                h as int,
            ),
        ensures
            final(self).ok(),
            ({
                let b = *old(self);
                let ci = b.focus as int;
                if mods.alt || ci >= b.cols@.len() {
                    out == FvKey::Nothing && *final(self) == b
                } else {
                    let n = b.cols@[ci].entries@.len() as int;
                    let cur = last_selected(b.cols@[ci]);
                    match k {
                        crate::events::Key::Down => if n > 0 {
                            let idx = match cur { Some(c) => if c + 1 < n - 1 { c + 1 } else { n - 1 }, None => 0 };
                            out matches FvKey::Picked(o) && picked(b, ci, idx, h as int, roots@, *final(self), Some(o))
                        } else {
                            out == FvKey::Nothing && *final(self) == b
                        },
                        crate::events::Key::Up => if n > 0 {
                            let idx = match cur { Some(c) => if c > 0 { c - 1 } else { 0 }, None => 0 };
                            out matches FvKey::Picked(o) && picked(b, ci, idx, h as int, roots@, *final(self), Some(o))
                        } else {
                            out == FvKey::Nothing && *final(self) == b
                        },
                        crate::events::Key::Right => if ci + 1 < b.cols@.len() && b.cols@[ci + 1].entries@.len() > 0 {
                            out matches FvKey::Picked(o) && picked(b, ci + 1, 0, h as int, roots@, *final(self), Some(o))
                        } else {
                            out == FvKey::Nothing && *final(self) == b
                        },
                        crate::events::Key::Left => if ci > 0 {
                            &&& out == FvKey::Back
                            &&& final(self).focus == ci - 1
                            &&& final(self).cols@.len() == b.cols@.len()
                            &&& forall|j: int| 0 <= j < ci ==> #[trigger] final(self).cols@[j] == b.cols@[j]
                            &&& forall|j: int| ci <= j < b.cols@.len() ==> cleared(b.cols@[j], #[trigger] final(self).cols@[j])
                            &&& final(self).nav == b.nav && final(self).hscroll == b.hscroll && final(self).next_id == b.next_id
                        } else {
                            out == FvKey::Nothing && *final(self) == b
                        },
                        crate::events::Key::Enter => out == FvKey::Open && *final(self) == b,
                        crate::events::Key::Delete | crate::events::Key::Backspace => out == FvKey::Trash && *final(self) == b,
                        crate::events::Key::Char(c) => out == FvKey::Typed(c) && *final(self) == b,
                        _ => out == FvKey::Nothing && *final(self) == b,
                    }
                }
            }),
    {
        if mods.alt || self.focus >= self.cols.len() {
            return FvKey::Nothing;
        }
        let ci = self.focus;
        let sel = selected_indices(&self.cols[ci]);
        let n = self.cols[ci].entries.len();
        let cur: Option<usize> = if sel.len() == 0 { None } else { Some(sel[sel.len() - 1]) };
        proof {
            lemma_selected_below(self.cols@[ci as int].sel@, n as int);
        }
        match k {
            crate::events::Key::Down => {
                if n == 0 {
                    return FvKey::Nothing;
                }
                let idx = match cur {
                    Some(c) => if c + 1 < n - 1 { c + 1 } else { n - 1 },
                    None => 0,
                };
                match self.pick(ci, idx, h, roots) {
                    Some(o) => FvKey::Picked(o),
                    None => FvKey::Nothing,
                }
            },
            crate::events::Key::Up => {
                if n == 0 {
                    return FvKey::Nothing;
                }
                let idx = match cur {
                    Some(c) => if c > 0 { c - 1 } else { 0 },
                    None => 0,
                };
                match self.pick(ci, idx, h, roots) {
                    Some(o) => FvKey::Picked(o),
                    None => FvKey::Nothing,
                }
            },
            crate::events::Key::Right => {
                if ci + 1 < self.cols.len() && self.cols[ci + 1].entries.len() > 0 {
                    match self.pick(ci + 1, 0, h, roots) {
                        Some(o) => FvKey::Picked(o),
                        None => FvKey::Nothing,
                    }
                } else {
                    FvKey::Nothing
                }
            },
            crate::events::Key::Left => {
                if ci == 0 {
                    return FvKey::Nothing;
                }
                self.focus = ci - 1;
                let len = self.cols.len();
                let mut j: usize = ci;
                while j < len
                    invariant
                        ci <= j <= len,
                        len == old(self).cols@.len(),
                        self.cols@.len() == len,
                        self.focus == ci - 1,
                        self.nav == old(self).nav,
                        self.hscroll == old(self).hscroll,
                        self.next_id == old(self).next_id,
                        old(self).ok(),
                        forall|q: int| 0 <= q < ci ==> #[trigger] self.cols@[q] == old(self).cols@[q],
                        forall|q: int| ci <= q < j ==> cleared(old(self).cols@[q], #[trigger] self.cols@[q]),
                        forall|q: int| j <= q < len ==> #[trigger] self.cols@[q] == old(self).cols@[q],
                    decreases len - j,
                {
                    let mut c = self.take_col(j);
                    let m = c.sel.len();
                    let mut z: Vec<bool> = Vec::new();
                    let mut q: usize = 0;
                    while q < m
                        invariant
                            q <= m,
                            z@ == Seq::new(q as nat, |x: int| false),
                        decreases m - q,
                    {
                        z.push(false);
                        q += 1;
                        assert(z@ =~= Seq::new(q as nat, |x: int| false));
                    }
                    c.sel = z;
                    let ghost pc = c;
                    self.put_col(j, c);
                    assert(self.cols@[j as int] == pc);
                    j += 1;
                }
                FvKey::Back
            },
            crate::events::Key::Enter => FvKey::Open,
            crate::events::Key::Delete | crate::events::Key::Backspace => FvKey::Trash,
            crate::events::Key::Char(c) => FvKey::Typed(c),
            _ => FvKey::Nothing,
        }
    }
}


/// The first entry, from `k` on, whose name in lower case begins with `t`.
pub open spec fn typed_from(es: Seq<Entry>, t: Seq<char>, k: int) -> Option<int>
    decreases es.len() - k,
{
    if k < 0 || k >= es.len() {
        None
    } else if begins(lowercase(es[k].name@), t) {
        Some(k)
    } else {
        typed_from(es, t, k + 1)
    }
}

proof fn lemma_typed_from(es: Seq<Entry>, t: Seq<char>, k: int)
    requires
        0 <= k,
    ensures
        typed_from(es, t, k) matches Some(i) ==> k <= i < es.len(),
    decreases es.len() - k,
{
    if k < es.len() && !begins(lowercase(es[k].name@), t) {
        lemma_typed_from(es, t, k + 1);
    }
}

/// Every entry of column `c` selected, nothing else changed.
pub open spec fn all_selected(c: Column, p: Column) -> bool {
    p.sel@ == Seq::new(c.sel@.len(), |j: int| true) && p.entries == c.entries && p.id == c.id && p.dir == c.dir
        && p.anchor == c.anchor && p.seq == c.seq && p.scroll == c.scroll && p.unreadable == c.unreadable
}

impl Browser {
    /// The type-ahead search: picks the first entry of the column in focus whose name, in lower
    /// case, begins with what was typed. Gives nothing where no column is in focus or no name
    /// matches.
    pub fn type_ahead(&mut self, t: &str, h: i32, roots: &Vec<String>) -> (r: Option<Option<usize>>)
        requires
            old(self).ok(),
            old(self).next_id < u64::MAX,
            forall|c: int, i: int| 0 <= c < old(self).cols@.len() && 0 <= i < old(self).cols@[c].entries@.len() ==> #[trigger] fits_visible(
                old(self).cols@[c].scroll as int,
                i,
                h as int,
            ),
        ensures
            final(self).ok(),
            ({
                let b = *old(self);
                let ci = b.focus as int;
                if ci >= b.cols@.len() {
                    r is None && *final(self) == b
                } else {
                    match typed_from(b.cols@[ci].entries@, t@, 0) {
                        None => r is None && *final(self) == b,
                        Some(j) => picked(b, ci, j, h as int, roots@, *final(self), r),
                    }
                }
            }),
    {
        let ci = self.focus;
        if ci >= self.cols.len() {
            return None;
        }
        let tv = chars_of(t);
        let mut j: usize = 0;
        proof {
            lemma_typed_from(self.cols@[ci as int].entries@, t@, 0);
        }
        while j < self.cols[ci].entries.len()
            invariant
                ci < self.cols@.len(),
                j <= self.cols@[ci as int].entries@.len(),
                *self == *old(self),
                old(self).ok(),
                old(self).next_id < u64::MAX,
                forall|c: int, i: int| 0 <= c < old(self).cols@.len() && 0 <= i < old(self).cols@[c].entries@.len() ==> #[trigger] fits_visible(
                    old(self).cols@[c].scroll as int,
                    i,
                    h as int,
                ),
                ci == old(self).focus,
                tv@ == t@,
                typed_from(self.cols@[ci as int].entries@, t@, 0) == typed_from(self.cols@[ci as int].entries@, t@, j as int),
            decreases self.cols@[ci as int].entries@.len() - j,
        {
            let name = to_lower(self.cols[ci].entries[j].name.as_str());
            let nv = chars_of(name.as_str());
            if begins_with(&nv, &tv) {
                return self.pick(ci, j, h, roots);
            }
            j += 1;
        }
        None
    }

    /// Select All in the column in focus, then as after any selection. Gives nothing where no
    /// column is in focus, else the column opened.
    pub fn select_all_focus(&mut self, roots: &Vec<String>) -> (r: Option<Option<usize>>)
        requires
            old(self).ok(),
            old(self).next_id < u64::MAX,
        ensures
            final(self).ok(),
            old(self).focus >= old(self).cols@.len() ==> r is None && *final(self) == *old(self),
            old(self).focus < old(self).cols@.len() ==> (r matches Some(opened) && exists|p: Column|
                all_selected(old(self).cols@[old(self).focus as int], p) && #[trigger] after_select_spec(
                    old(self).cols@.update(old(self).focus as int, p),
                    *old(self),
                    old(self).focus as int,
                    roots@,
                    *final(self),
                    opened,
                )),
    {
        let ci = self.focus;
        if ci >= self.cols.len() {
            return None;
        }
        let mut c = self.take_col(ci);
        select_all(&mut c);
        let ghost p = c;
        self.put_col(ci, c);
        assert(self.cols@ =~= old(self).cols@.update(ci as int, p));
        let ghost pre = *self;
        let opened = self.after_select(ci, roots);
        assert(after_select_spec(pre.cols@, pre, ci as int, roots@, *self, opened));
        assert(all_selected(old(self).cols@[ci as int], p));
        assert(after_select_spec(old(self).cols@.update(ci as int, p), *old(self), ci as int, roots@, *self, opened));
        Some(opened)
    }
}

} // verus!
