//! The Dock down the right edge of the Screen, the application tile and the Recycler: where their
//! tiles sit, what a press on them means, and how the Dock's list of applications changes.
use vstd::prelude::*;
use crate::chrome::{tdiv, Scroller, SCROLL_W};
use crate::files::Entry;
use crate::geom::{fits, larger, rect, smaller, Pt, Rect};
use crate::text::contains_str;

verus! {

/// The most applications the Dock holds.
pub const DOCK_MAX: usize = 12;

#[derive(Clone, Copy, PartialEq, Eq, Debug, Structural)]
pub enum TileId {
    Workspace,
    App(usize),
    Recycler,
}

/// The Recycler window: the trash listing once it has been read, and how far it is scrolled.
pub struct RecWin {
    pub items: Option<Result<Vec<Entry>, String>>,
    pub scroll: i32,
}

impl Default for RecWin {
    fn default() -> (r: RecWin)
        ensures
            r.items is None,
            r.scroll == 0,
    {
        RecWin { items: None, scroll: 0 }
    }
}

/// The Screen's width and height leave room for the tiles' arithmetic: the Dock's column
/// 67 px from the right edge and the bottom row 64 px from the bottom stay in `i32`.
pub open spec fn screen_fits(w: int, h: int) -> bool {
    fits(w - 67) && fits(h - 64)
}

pub open spec fn tile_spec(w: int, h: int, t: TileId) -> Rect {
    match t {
        TileId::Workspace => Rect { x: (w - 67) as i32, y: 0, w: 64, h: 64 },
        TileId::App(i) => Rect { x: (w - 67) as i32, y: (64 * (i + 1)) as i32, w: 64, h: 64 },
        TileId::Recycler => Rect { x: (w - 67) as i32, y: (h - 64) as i32, w: 64, h: 64 },
    }
}

/// The strip the Dock's tiles hug: the right edge with a 3 px margin, down to the Recycler.
pub fn dock_strip(w: i32, h: i32) -> (r: Rect)
    requires
        screen_fits(w as int, h as int),
    ensures
        r == (Rect { x: (w - 67) as i32, y: 0, w: 67, h: (h - 64) as i32 }),
{
    rect(w - 67, 0, 67, h - 64)
}

/// Where a tile sits on a Screen of `w`×`h`.
pub fn tile_rect(w: i32, h: i32, t: TileId) -> (r: Rect)
    requires
        screen_fits(w as int, h as int),
        t matches TileId::App(i) ==> 64 * (i + 1) <= i32::MAX,
    ensures
        r == tile_spec(w as int, h as int, t),
{
    match t {
        TileId::Workspace => rect(w - 67, 0, 64, 64),
        TileId::App(i) => rect(w - 67, 64 * (i as i32 + 1), 64, 64),
        TileId::Recycler => rect(w - 67, h - 64, 64, 64),
    }
}

/// The application tile in the lower left corner.
pub fn apptile_rect(h: i32) -> (r: Rect)
    requires
        fits(h - 64),
    ensures
        r == (Rect { x: 0, y: (h - 64) as i32, w: 64, h: 64 }),
{
    rect(0, h - 64, 64, 64)
}

/// The first of the Dock's first `n` application tiles (at most twelve are shown) under `p`.
pub open spec fn app_tile_at(w: int, h: int, n: int, p: Pt, k: int) -> Option<TileId>
    decreases n - k,
{
    if k >= n || k >= DOCK_MAX {
        None
    } else if tile_spec(w, h, TileId::App(k as usize)).has(p) {
        Some(TileId::App(k as usize))
    } else {
        app_tile_at(w, h, n, p, k + 1)
    }
}

/// What a press at `p` lands on among the tiles: the Recycler first, then the Dock (when it is
/// shown), then the application tile. `Some(None)` is a press on the Dock's strip between tiles,
/// which nothing behind the strip receives; `None` leaves the press to the miniwindows.
pub open spec fn tile_hit_spec(w: int, h: int, dock_visible: bool, n: int, p: Pt) -> Option<Option<TileId>> {
    if tile_spec(w, h, TileId::Recycler).has(p) {
        Some(Some(TileId::Recycler))
    } else if dock_visible && (Rect { x: (w - 67) as i32, y: 0, w: 67, h: (h - 64) as i32 }).has(p) {
        if tile_spec(w, h, TileId::Workspace).has(p) {
            Some(Some(TileId::Workspace))
        } else {
            Some(app_tile_at(w, h, n, p, 0))
        }
    } else if (Rect { x: 0, y: (h - 64) as i32, w: 64, h: 64 }).has(p) {
        Some(Some(TileId::Workspace))
    } else {
        None
    }
}

pub fn tile_hit(w: i32, h: i32, dock_visible: bool, n: usize, p: Pt) -> (r: Option<Option<TileId>>)
    requires
        screen_fits(w as int, h as int),
    ensures
        r == tile_hit_spec(w as int, h as int, dock_visible, n as int, p),
{
    if tile_rect(w, h, TileId::Recycler).contains(p) {
        return Some(Some(TileId::Recycler));
    }
    if dock_visible && dock_strip(w, h).contains(p) {
        if tile_rect(w, h, TileId::Workspace).contains(p) {
            return Some(Some(TileId::Workspace));
        }
        let mut k: usize = 0;
        while k < n && k < DOCK_MAX
            invariant
                screen_fits(w as int, h as int),
                k <= DOCK_MAX,
                !tile_spec(w as int, h as int, TileId::Recycler).has(p),
                dock_visible,
                (Rect { x: (w - 67) as i32, y: 0, w: 67, h: (h - 64) as i32 }).has(p),
                !tile_spec(w as int, h as int, TileId::Workspace).has(p),
                app_tile_at(w as int, h as int, n as int, p, 0) == app_tile_at(w as int, h as int, n as int, p, k as int),
            decreases DOCK_MAX - k,
        {
            if tile_rect(w, h, TileId::App(k)).contains(p) {
                assert(app_tile_at(w as int, h as int, n as int, p, k as int) == Some(TileId::App(k)));
                return Some(Some(TileId::App(k)));
            }
            k += 1;
        }
        return Some(None);
    }
    if apptile_rect(h).contains(p) {
        return Some(Some(TileId::Workspace));
    }
    None
}

/// What letting go of a Dock tile does.
#[derive(Clone, Copy, PartialEq, Eq, Debug, Structural)]
pub enum DockRelease {
    /// It barely moved: a click, which launches the application.
    Launch,
    /// Dragged more than 48 px sideways: it leaves the Dock.
    Remove,
    /// Dragged up or down: it goes to this slot (which may be its own).
    Move(usize),
    /// The tile is no longer in the Dock: nothing happens.
    Stale,
}

pub open spec fn abs(v: int) -> int {
    if v < 0 { -v } else { v }
}

pub open spec fn release_spec(i: int, dx: int, dy: int, n: int) -> DockRelease {
    if i >= n {
        DockRelease::Stale
    } else if abs(dx) <= 4 && abs(dy) <= 4 {
        DockRelease::Launch
    } else if abs(dx) > 48 {
        DockRelease::Remove
    } else {
        DockRelease::Move(smaller(larger(tdiv(64 * (i + 1) + dy + 32, 64) - 1, 0), n - 1) as usize)
    }
}

/// Letting go of application tile `i` of `n` after dragging it by (`dx`, `dy`): a vertical drag
/// reorders, more than 48 px sideways removes, and no movement is a click.
pub fn release_action(i: usize, dx: i32, dy: i32, n: usize) -> (r: DockRelease)
    requires
        n <= i32::MAX,
        dx > i32::MIN,
        abs(dx as int) <= 4 ==> dy > i32::MIN,
        i < n && abs(dx as int) <= 48 ==> fits(64 * (i + 1) + dy + 32),
    ensures
        r == release_spec(i as int, dx as int, dy as int, n as int),
        r matches DockRelease::Move(j) ==> j < n,
{
    if i >= n {
        return DockRelease::Stale;
    }
    let ax: i32 = if dx < 0 { -dx } else { dx };
    if ax <= 4 {
        let ay: i32 = if dy < 0 { -dy } else { dy };
        if ay <= 4 {
            return DockRelease::Launch;
        }
    }
    if ax > 48 {
        return DockRelease::Remove;
    }
    let top: i64 = 64 * (i as i64 + 1) + dy as i64 + 32;
    let q: i64 = if top >= 0 { top / 64 } else { -((-top) / 64) };
    let j0: i64 = q - 1;
    let lo: i64 = if j0 < 0 { 0 } else { j0 };
    let last: i64 = n as i64 - 1;
    let j: i64 = if lo > last { last } else { lo };
    DockRelease::Move(j as usize)
}

/// Moves the application at `i` to slot `j`, the others keeping their order.
pub fn reorder(dock: &mut Vec<String>, i: usize, j: usize)
    requires
        i < old(dock)@.len(),
        j < old(dock)@.len(),
    ensures
        final(dock)@ == old(dock)@.remove(i as int).insert(j as int, old(dock)@[i as int]),
{
    let app = dock.remove(i);
    dock.insert(j, app);
}

/// Whether `p` may join the Dock: it is not there yet and the Dock has room.
pub fn can_add(dock: &[String], p: &str) -> (b: bool)
    ensures
        b == (dock@.len() < DOCK_MAX && !(exists|i: int| 0 <= i < dock@.len() && #[trigger] dock@[i]@ == p@)),
{
    !contains_str(dock, p) && dock.len() < DOCK_MAX
}

/// The Recycler window's scroller, over `n` items laid out in 80×90 cells beside the scroller.
pub open spec fn rec_per_row(c: Rect) -> int {
    larger(tdiv(c.w - SCROLL_W - 8, 80), 1)
}

pub open spec fn rec_total(c: Rect, n: int) -> int {
    tdiv(n + rec_per_row(c) - 1, rec_per_row(c)) * 90 + 8
}

pub fn rec_scroller(c: Rect, n: usize, scroll: i32) -> (s: Scroller)
    requires
        fits(c.w - SCROLL_W - 8),
        n <= i32::MAX,
        fits(n + rec_per_row(c)),
        fits(rec_total(c, n as int)),
        fits(rec_total(c, n as int) - c.h),
    ensures
        s.r == (Rect { x: c.x, y: c.y, w: SCROLL_W, h: c.h }),
        s.vertical,
        s.frame,
        s.arrows,
        s.total == rec_total(c, n as int),
        s.visible == c.h,
        s.pos == smaller(larger(scroll as int, 0), larger(rec_total(c, n as int) - c.h, 0)),
{
    let a: i64 = c.w as i64 - SCROLL_W as i64 - 8;
    let q: i64 = if a >= 0 { a / 80 } else { -((-a) / 80) };
    let per_row: i32 = if q < 1 { 1 } else { q as i32 };
    assert(per_row == rec_per_row(c));
    let rows: i32 = (n as i32 + per_row - 1) / per_row;
    assert(0 <= rows <= n + per_row - 1) by (nonlinear_arith)
        requires
            per_row >= 1,
            0 <= n + per_row - 1,
            rows as int == (n + per_row - 1) / (per_row as int),
    ;
    let total: i32 = rows * 90 + 8;
    let m0: i32 = total - c.h;
    let m: i32 = if m0 < 0 { 0 } else { m0 };
    let p0: i32 = if scroll < 0 { 0 } else { scroll };
    let pos: i32 = if p0 > m { m } else { p0 };
    Scroller::framed(rect(c.x, c.y, SCROLL_W, c.h), true, total, c.h, pos)
}

/// Reordering the Dock keeps every application in it: only their order changes.
pub proof fn law_reorder_keeps_apps(dock: Seq<String>, i: int, j: int)
    requires
        0 <= i < dock.len(),
        0 <= j < dock.len(),
    ensures
        dock.remove(i).insert(j, dock[i]).to_multiset() == dock.to_multiset(),
        dock.remove(i).insert(j, dock[i]).len() == dock.len(),
        dock.remove(i).insert(j, dock[i])[j] == dock[i],
{
    broadcast use vstd::seq_lib::group_to_multiset_ensures;
    broadcast use vstd::multiset::group_multiset_axioms;

    let r = dock.remove(i);
    vstd::seq_lib::to_multiset_insert(r, j, dock[i]);
    assert(dock.to_multiset().remove(dock[i]).insert(dock[i]) =~= dock.to_multiset());
    r.insert_ensures(j, dock[i]);
}

} // verus!
