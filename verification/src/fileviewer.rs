//! The File Viewer: the Shelf, the icon path and the column browser. Here are their geometry and
//! the rules of the columns — how a click changes the selection, how a selection survives a
//! folder being listed again, how far a column scrolls to show a cell, and which drops are refused.
use vstd::prelude::*;
use crate::chrome::Scroller;
use crate::files::Entry;
use crate::geom::{fits, larger, rect, smaller, Pt, Rect};
use crate::icons::{dirname, dirname_ok, dirname_spec, sep, sep_spec};
use crate::text::{chars_of, str_eq};

verus! {

/// The scroller strip of a column.
pub const STRIP_W: i32 = 17;

/// The list of a column.
pub const LIST_W: i32 = 121;

/// Strip, light and black line, list, black separator.
pub const COL_PITCH: i32 = 141;

pub const CELL_H: i32 = 15;

/// Icons, 12 px labels and the free-space line.
pub const SHELF_H: i32 = 88;

/// The icon-path area inside the well.
pub const WELL_ICONS_H: i32 = 79;

/// The horizontal scroller inside the well.
pub const HSCROLL_H: i32 = 17;

pub const SHELF_CELL: i32 = 96;

/// The most folders the Shelf holds.
pub const SHELF_MAX: usize = 16;

pub struct Column {
    pub id: u64,
    /// `None` is the synthetic column of the drives.
    pub dir: Option<String>,
    pub entries: Vec<Entry>,
    pub sel: Vec<bool>,
    pub anchor: Option<usize>,
    pub seq: u64,
    pub scroll: i32,
    pub unreadable: bool,
}

/// Opening the columns down to a path, one listing at a time: the folders from the root down,
/// and the column being waited for.
pub struct Nav {
    pub chain: Vec<Option<String>>,
    pub step: usize,
}

pub struct FvLayout {
    pub shelf: Rect,
    pub well: Rect,
    pub icons: Rect,
    pub hscroll: Scroller,
    pub browser: Rect,
    pub cols: Rect,
}

/// One column: its scroller strip and the list area.
pub struct ColParts {
    pub strip: Scroller,
    pub list: Rect,
}

// ---- layout ---------------------------------------------------------------------------------------

/// A content rectangle whose parts' edges, and `ncols` columns' width, fit in an `i32`.
pub open spec fn content_ok(c: Rect, ncols: int) -> bool {
    &&& fits(c.x + 10)
    &&& fits(c.y + 195)
    &&& fits(c.w - 19)
    &&& fits(c.h - 200)
    &&& ncols <= i32::MAX
    &&& fits(ncols * COL_PITCH)
    &&& fits(ncols * COL_PITCH - (c.w - 19))
}

pub open spec fn clamp_spec(v: int, hi: int) -> int {
    smaller(larger(v, 0), larger(hi, 0))
}

fn clamp_pos(v: i32, hi: i32) -> (r: i32)
    ensures
        r == clamp_spec(v as int, hi as int),
{
    let m = if hi < 0 {
        0
    } else {
        hi
    };
    if v < 0 {
        0
    } else if v > m {
        m
    } else {
        v
    }
}

pub open spec fn layout_spec(c: Rect, ncols: int, hscroll: int) -> FvLayout {
    let shelf = Rect { x: c.x, y: c.y, w: c.w, h: SHELF_H };
    let well = Rect { x: (c.x + 8) as i32, y: (c.y + SHELF_H) as i32, w: (c.w - 16) as i32, h: 100 };
    let icons = Rect { x: (well.x + 2) as i32, y: (well.y + 2) as i32, w: (well.w - 3) as i32, h: WELL_ICONS_H };
    let browser = Rect {
        x: (c.x + 8) as i32,
        y: (well.y + well.h + 5) as i32,
        w: (c.w - 16) as i32,
        h: (c.h - SHELF_H - well.h - 9) as i32,
    };
    let cols = Rect {
        x: (browser.x + 2) as i32,
        y: (browser.y + 2) as i32,
        w: (browser.w - 3) as i32,
        h: (browser.h - 3) as i32,
    };
    let total = ncols * COL_PITCH;
    let hs = Scroller {
        r: Rect { x: (well.x + 2) as i32, y: (icons.y + icons.h + 1) as i32, w: (well.w - 3) as i32, h: HSCROLL_H },
        vertical: false,
        frame: false,
        arrows: false,
        total: total as i32,
        visible: cols.w,
        pos: clamp_spec(hscroll, total - cols.w) as i32,
    };
    FvLayout { shelf, well, icons, hscroll: hs, browser, cols }
}

/// The File Viewer's parts in content rectangle `c`, with `ncols` columns scrolled `hscroll`
/// pixels sideways (kept within what there is to scroll).
pub fn fv_layout(c: Rect, ncols: usize, hscroll: i32) -> (l: FvLayout)
    requires
        content_ok(c, ncols as int),
    ensures
        l == layout_spec(c, ncols as int, hscroll as int),
{
    let shelf = rect(c.x, c.y, c.w, SHELF_H);
    let well = rect(c.x + 8, c.y + SHELF_H, c.w - 16, 2 + WELL_ICONS_H + 1 + HSCROLL_H + 1);
    let icons = rect(well.x + 2, well.y + 2, well.w - 3, WELL_ICONS_H);
    let browser = rect(c.x + 8, well.y + well.h + 5, c.w - 16, c.h - SHELF_H - well.h - 9);
    let cols = rect(browser.x + 2, browser.y + 2, browser.w - 3, browser.h - 3);
    let total = ncols as i32 * COL_PITCH;
    let pos = clamp_pos(hscroll, total - cols.w);
    let hs = Scroller {
        r: rect(well.x + 2, icons.y + icons.h + 1, well.w - 3, HSCROLL_H),
        vertical: false,
        frame: false,
        arrows: false,
        total,
        visible: cols.w,
        pos,
    };
    FvLayout { shelf, well, icons, hscroll: hs, browser, cols }
}

pub open spec fn col_x_spec(l: FvLayout, i: int) -> int {
    l.cols.x - l.hscroll.pos + i * COL_PITCH
}

/// Column `i`'s left edge fits in an `i32`, and so does each step of finding it.
pub open spec fn col_x_fits(l: FvLayout, i: int) -> bool {
    &&& i <= i32::MAX
    &&& fits(i * COL_PITCH)
    &&& fits(l.cols.x - l.hscroll.pos)
    &&& fits(col_x_spec(l, i))
}

/// The left edge of column `i`.
pub fn col_x(l: &FvLayout, i: usize) -> (x: i32)
    requires
        col_x_fits(*l, i as int),
    ensures
        x == col_x_spec(*l, i as int),
{
    l.cols.x - l.hscroll.pos + i as i32 * COL_PITCH
}

/// Shelf slot `i`.
pub fn shelf_item_rect(l: &FvLayout, i: usize) -> (r: Rect)
    requires
        i <= i32::MAX,
        fits(i * SHELF_CELL),
        fits(l.shelf.x + 8),
        fits(l.shelf.x + 8 + i * SHELF_CELL),
        fits(l.shelf.y + 4),
    ensures
        r == (Rect { x: (l.shelf.x + 8 + i * SHELF_CELL) as i32, y: (l.shelf.y + 4) as i32, w: SHELF_CELL, h: 72 }),
{
    rect(l.shelf.x + 8 + i as i32 * SHELF_CELL, l.shelf.y + 4, SHELF_CELL, 72)
}

/// The icon of path component `i`, centred above column `i`.
pub fn path_item_rect(l: &FvLayout, i: usize) -> (r: Rect)
    requires
        col_x_fits(*l, i as int),
        fits(col_x_spec(*l, i as int) + (COL_PITCH - 48) / 2),
        fits(l.icons.y + 4),
    ensures
        r == (Rect { x: (col_x_spec(*l, i as int) + (COL_PITCH - 48) / 2) as i32, y: (l.icons.y + 4) as i32, w: 48, h: 48 }),
{
    rect(col_x(l, i) + (COL_PITCH - 48) / 2, l.icons.y + 4, 48, 48)
}

pub open spec fn parts_spec(l: FvLayout, i: int, n: int, scroll: int) -> ColParts {
    let x = col_x_spec(l, i);
    let total = n * CELL_H;
    ColParts {
        strip: Scroller {
            r: Rect { x: x as i32, y: l.cols.y, w: STRIP_W, h: l.cols.h },
            vertical: true,
            frame: false,
            arrows: true,
            total: total as i32,
            visible: l.cols.h,
            pos: clamp_spec(scroll, total - l.cols.h) as i32,
        },
        list: Rect { x: (x + STRIP_W + 2) as i32, y: l.cols.y, w: LIST_W, h: l.cols.h },
    }
}

/// Column `i`, holding `n` entries and scrolled `scroll` pixels: its strip and its list.
pub fn col_parts(l: &FvLayout, i: usize, n: usize, scroll: i32) -> (p: ColParts)
    requires
        col_x_fits(*l, i as int),
        fits(col_x_spec(*l, i as int) + STRIP_W + 2),
        n <= i32::MAX,
        fits(n * CELL_H),
        fits(n * CELL_H - l.cols.h),
    ensures
        p == parts_spec(*l, i as int, n as int, scroll as int),
{
    let x = col_x(l, i);
    let total = n as i32 * CELL_H;
    let strip = Scroller {
        r: rect(x, l.cols.y, STRIP_W, l.cols.h),
        vertical: true,
        frame: false,
        arrows: true,
        total,
        visible: l.cols.h,
        pos: clamp_pos(scroll, total - l.cols.h),
    };
    ColParts { strip, list: rect(x + STRIP_W + 2, l.cols.y, LIST_W, l.cols.h) }
}

/// Cell `idx` of a list scrolled `scroll` pixels.
pub fn cell_rect(list: Rect, scroll: i32, idx: usize) -> (r: Rect)
    requires
        idx <= i32::MAX,
        fits(idx * CELL_H),
        fits(list.y + idx * CELL_H),
        fits(list.y + idx * CELL_H - scroll),
    ensures
        r == (Rect { x: list.x, y: (list.y + idx * CELL_H - scroll) as i32, w: list.w, h: CELL_H }),
{
    rect(list.x, list.y + idx as i32 * CELL_H - scroll, list.w, CELL_H)
}

/// The entry under `p` in a column's list (which `p` is inside) of `n` entries.
pub fn cell_at(parts: &ColParts, p: Pt, n: usize) -> (r: Option<usize>)
    requires
        0 <= parts.strip.pos,
        parts.list.has(p),
        fits(p.y - parts.list.y + parts.strip.pos),
    ensures
        r == (if (p.y - parts.list.y + parts.strip.pos) / (CELL_H as int) < n {
            Some(((p.y - parts.list.y + parts.strip.pos) / (CELL_H as int)) as usize)
        } else {
            None
        }),
{
    let idx = (p.y - parts.list.y + parts.strip.pos) / CELL_H;
    if (idx as usize) < n {
        Some(idx as usize)
    } else {
        None
    }
}

// ---- selection ------------------------------------------------------------------------------------

/// How many entries are selected.
pub open spec fn count_selected(s: Seq<bool>) -> nat
    decreases s.len(),
{
    if s.len() == 0 {
        0
    } else {
        count_selected(s.drop_last()) + if s.last() { 1nat } else { 0nat }
    }
}

fn count_true(s: &[bool]) -> (n: usize)
    ensures
        n == count_selected(s@),
{
    let mut n: usize = 0;
    let mut i: usize = 0;
    while i < s.len()
        invariant
            i <= s@.len(),
            n == count_selected(s@.take(i as int)),
            n <= i,
        decreases s@.len() - i,
    {
        assert(s@.take(i + 1).drop_last() =~= s@.take(i as int));
        if s[i] {
            n += 1;
        }
        i += 1;
    }
    assert(s@.take(s@.len() as int) =~= s@);
    n
}

/// What a click on entry `idx` makes of a column's selection and anchor: Shift extends from the
/// anchor, Command toggles the entry, and a plain click selects it alone — unless it is part of a
/// larger selection, which the click keeps (it may start a drag of all of them).
pub open spec fn click_spec(sel: Seq<bool>, anchor: Option<usize>, idx: int, shift: bool, cmd: bool) -> (Seq<bool>, Option<usize>) {
    if shift && anchor is Some {
        let a = anchor->0 as int;
        let (lo, hi) = (smaller(a, idx), larger(a, idx));
        (Seq::new(sel.len(), |j: int| lo <= j <= hi), anchor)
    } else if cmd {
        (sel.update(idx, !sel[idx]), Some(idx as usize))
    } else if !sel[idx] || count_selected(sel) == 1 {
        (Seq::new(sel.len(), |j: int| j == idx), Some(idx as usize))
    } else {
        (sel, anchor)
    }
}

pub fn click_select(col: &mut Column, idx: usize, shift: bool, cmd: bool)
    requires
        idx < old(col).sel@.len(),
    ensures
        (final(col).sel@, final(col).anchor) == click_spec(old(col).sel@, old(col).anchor, idx as int, shift, cmd),
        final(col).entries == old(col).entries,
        final(col).id == old(col).id,
        final(col).dir == old(col).dir,
        final(col).seq == old(col).seq,
        final(col).scroll == old(col).scroll,
        final(col).unreadable == old(col).unreadable,
{
    let was = col.sel[idx];
    let n = col.sel.len();
    if shift && col.anchor.is_some() {
        let a = match col.anchor {
            Some(a) => a,
            None => idx,
        };
        let lo = if a < idx { a } else { idx };
        let hi = if a < idx { idx } else { a };
        let mut s: Vec<bool> = Vec::new();
        let mut j: usize = 0;
        while j < n
            invariant
                j <= n,
                s@ =~= Seq::new(j as nat, |k: int| lo <= k <= hi),
            decreases n - j,
        {
            s.push(lo <= j && j <= hi);
            j += 1;
        }
        col.sel = s;
    } else if cmd {
        col.sel.set(idx, !was);
        col.anchor = Some(idx);
    } else if !was || count_true(col.sel.as_slice()) == 1 {
        let mut s: Vec<bool> = Vec::new();
        let mut j: usize = 0;
        while j < n
            invariant
                j <= n,
                s@ =~= Seq::new(j as nat, |k: int| k == idx),
            decreases n - j,
        {
            s.push(j == idx);
            j += 1;
        }
        col.sel = s;
        col.anchor = Some(idx);
    }
}

/// Select All: every entry of the column.
pub fn select_all(col: &mut Column)
    ensures
        final(col).sel@ == Seq::new(old(col).sel@.len(), |j: int| true),
        final(col).anchor == old(col).anchor,
        final(col).entries == old(col).entries,
        final(col).id == old(col).id,
        final(col).dir == old(col).dir,
        final(col).seq == old(col).seq,
        final(col).scroll == old(col).scroll,
        final(col).unreadable == old(col).unreadable,
{
    let n = col.sel.len();
    let mut j: usize = 0;
    while j < n
        invariant
            j <= n,
            col.sel@.len() == n,
            col.entries == old(col).entries,
            col.anchor == old(col).anchor,
            col.id == old(col).id,
            col.dir == old(col).dir,
            col.seq == old(col).seq,
            col.scroll == old(col).scroll,
            col.unreadable == old(col).unreadable,
            forall|k: int| 0 <= k < j ==> col.sel@[k],
        decreases n - j,
    {
        col.sel.set(j, true);
        j += 1;
    }
    assert(col.sel@ =~= Seq::new(old(col).sel@.len(), |j: int| true));
}

/// The positions of the selected entries, in order (of the entries that have a selection flag).
pub open spec fn selected_upto(sel: Seq<bool>, n: int) -> Seq<usize>
    decreases n,
{
    if n <= 0 {
        seq![]
    } else if sel[n - 1] {
        selected_upto(sel, n - 1).push((n - 1) as usize)
    } else {
        selected_upto(sel, n - 1)
    }
}

pub fn selected_indices(col: &Column) -> (v: Vec<usize>)
    ensures
        v@ == selected_upto(col.sel@, smaller(col.sel@.len() as int, col.entries@.len() as int)),
{
    let n = if col.sel.len() < col.entries.len() {
        col.sel.len()
    } else {
        col.entries.len()
    };
    let mut v: Vec<usize> = Vec::new();
    let mut i: usize = 0;
    while i < n
        invariant
            i <= n,
            n <= col.sel@.len(),
            v@ == selected_upto(col.sel@, i as int),
        decreases n - i,
    {
        if col.sel[i] {
            v.push(i);
        }
        i += 1;
    }
    v
}

/// The entry at `j` of the old listing was selected.
pub open spec fn was_selected(entries: Seq<Entry>, sel: Seq<bool>, path: Seq<char>) -> bool {
    exists|j: int| 0 <= j < entries.len() && j < sel.len() && sel[j] && #[trigger] entries[j].path@ == path
}

/// A folder listed again keeps the selection by path: an entry is selected when an entry with
/// its path was selected before.
pub fn relisted_selection(old_entries: &[Entry], old_sel: &[bool], entries: &[Entry]) -> (s: Vec<bool>)
    ensures
        s@.len() == entries@.len(),
        forall|i: int| 0 <= i < entries@.len() ==> #[trigger] s@[i] == was_selected(old_entries@, old_sel@, entries@[i].path@),
{
    let mut s: Vec<bool> = Vec::new();
    let mut i: usize = 0;
    while i < entries.len()
        invariant
            i <= entries@.len(),
            s@.len() == i,
            forall|k: int| 0 <= k < i ==> #[trigger] s@[k] == was_selected(old_entries@, old_sel@, entries@[k].path@),
        decreases entries@.len() - i,
    {
        let p = entries[i].path.as_str();
        let mut found = false;
        let mut j: usize = 0;
        while j < old_entries.len() && j < old_sel.len()
            invariant
                j <= old_entries@.len(),
                p@ == entries@[i as int].path@,
                found == exists|k: int| 0 <= k < j && k < old_sel@.len() && old_sel@[k] && #[trigger] old_entries@[k].path@ == p@,
            decreases old_entries@.len() - j,
        {
            if old_sel[j] && str_eq(old_entries[j].path.as_str(), p) {
                found = true;
            }
            j += 1;
        }
        s.push(found);
        i += 1;
    }
    s
}

/// How far a column scrolls so that entry `idx` shows in a list `h` pixels tall: no further than
/// needed, and not at all if it already shows.
pub open spec fn visible_scroll(scroll: int, idx: int, h: int) -> int {
    let top = idx * CELL_H;
    if top < scroll {
        top
    } else if top + CELL_H > scroll + h {
        top + CELL_H - h
    } else {
        scroll
    }
}

pub fn ensure_visible(scroll: i32, idx: usize, h: i32) -> (r: i32)
    requires
        fits_visible(scroll as int, idx as int, h as int),
    ensures
        r == visible_scroll(scroll as int, idx as int, h as int),
{
    let top: i64 = (idx as i64) * (CELL_H as i64);
    if top < scroll as i64 {
        top as i32
    } else if top + (CELL_H as i64) > (scroll as i64) + (h as i64) {
        (top + (CELL_H as i64) - (h as i64)) as i32
    } else {
        scroll
    }
}

/// The scroll `ensure_visible` computes fits in an `i32`: the entry's top, and how far the list
/// scrolls to show its bottom.
pub open spec fn fits_visible(scroll: int, idx: int, h: int) -> bool {
    &&& idx * CELL_H <= i32::MAX
    &&& i32::MIN <= idx * CELL_H + CELL_H - h <= i32::MAX
}

// ---- dropping -------------------------------------------------------------------------------------

/// `s` begins with `pre`.
pub open spec fn begins(s: Seq<char>, pre: Seq<char>) -> bool {
    pre.len() <= s.len() && s.take(pre.len() as int) == pre
}

/// A drop of `q` into the folder `target` that would do nothing or harm: onto itself, into a
/// folder inside it, or into the folder it is already in.
pub open spec fn refused(q: Seq<char>, target: Seq<char>) -> bool {
    q == target || begins(target, q.push(sep_spec(target))) || dirname_spec(q) == Some(target)
}

pub(crate) fn begins_with(s: &[char], pre: &[char]) -> (b: bool)
    ensures
        b == begins(s@, pre@),
{
    if pre.len() > s.len() {
        return false;
    }
    let mut i: usize = 0;
    while i < pre.len()
        invariant
            i <= pre@.len() <= s@.len(),
            forall|k: int| 0 <= k < i ==> s@[k] == pre@[k],
        decreases pre@.len() - i,
    {
        if s[i] != pre[i] {
            assert(s@.take(pre@.len() as int)[i as int] != pre@[i as int]);
            return false;
        }
        i += 1;
    }
    assert(s@.take(pre@.len() as int) =~= pre@);
    true
}

/// Whether dropping `paths` into the folder `target` is refused: so it is when any of them is.
pub fn drop_refused(paths: &[String], target: &str) -> (b: bool)
    requires
        forall|i: int| 0 <= i < paths@.len() ==> dirname_ok(#[trigger] paths@[i]@),
    ensures
        b == exists|i: int| 0 <= i < paths@.len() && refused(#[trigger] paths@[i]@, target@),
{
    let s = sep(target);
    let tv = chars_of(target);
    let mut i: usize = 0;
    while i < paths.len()
        invariant
            i <= paths@.len(),
            s == sep_spec(target@),
            tv@ == target@,
            forall|k: int| 0 <= k < paths@.len() ==> dirname_ok(#[trigger] paths@[k]@),
            forall|k: int| 0 <= k < i ==> !refused(#[trigger] paths@[k]@, target@),
        decreases paths@.len() - i,
    {
        let q = paths[i].as_str();
        if str_eq(q, target) {
            return true;
        }
        let mut qs = chars_of(q);
        qs.push(s);
        if begins_with(tv.as_slice(), qs.as_slice()) {
            return true;
        }
        match dirname(q) {
            Some(d) => {
                if str_eq(d.as_str(), target) {
                    return true;
                }
            },
            None => {},
        }
        i += 1;
    }
    false
}

/// Whether `p` may join the Shelf: it is not there yet and the Shelf has room.
pub fn shelf_can_add(shelf: &[String], p: &str) -> (b: bool)
    ensures
        b == (shelf@.len() < SHELF_MAX && !(exists|i: int| 0 <= i < shelf@.len() && #[trigger] shelf@[i]@ == p@)),
{
    !crate::text::contains_str(shelf, p) && shelf.len() < SHELF_MAX
}

} // verus!
