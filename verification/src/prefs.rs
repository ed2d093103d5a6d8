//! Preferences: a row of module icons over the pane of the selected module. A switch in a pane is
//! a View menu command, so the switch and the menu item cannot disagree.
use vstd::prelude::*;
use crate::chrome::Act;
use crate::geom::{rect, Pt, Rect};

verus! {

pub const WIN_W: i32 = 392;

/// The window's height, title bar included.
pub const WIN_H: i32 = 319;

pub const MARGIN: i32 = 8;

/// The icon row: a 2 px frame, 65 px of cells, the 21 px scroller and the bottom edge.
pub const BOX_H: i32 = 90;

/// One icon cell: a 2 px separator, a 1 px highlight and a 66 px face.
pub const CELL_W: i32 = 69;

pub const CELL_H: i32 = 65;

/// One switch and its title.
pub const ROW_H: i32 = 22;

/// The module with the scale slider instead of switches.
pub const DISPLAY: usize = 0;

/// The module that also says where the settings are kept.
pub const EXPERT: usize = 2;

pub const MODULE_COUNT: usize = 3;

/// One module: its icon in the row at the top, its name, the title of its group of switches, and
/// the switches with the View menu command each one runs.
pub struct Module {
    pub icon: &'static str,
    pub name: &'static str,
    pub group: &'static str,
    pub switches: &'static [(&'static str, Act)],
}

#[derive(Clone, Copy, PartialEq, Eq, Debug, Structural)]
pub enum PBtn {
    Module(usize),
    Switch(usize),
}

pub open spec fn switch_acts(m: int) -> Seq<Act> {
    if m == 1 {
        seq![Act::ShowDock, Act::ShowMiniwindows, Act::ShowRecycler, Act::Backdrop]
    } else if m == 2 {
        seq![Act::ShowHidden]
    } else {
        seq![]
    }
}

pub open spec fn switch_labels(m: int) -> Seq<Seq<char>> {
    if m == 1 {
        seq!["Show Dock"@, "Show Miniwindows"@, "Show Recycler Tile"@, "Screen Backdrop"@]
    } else if m == 2 {
        seq!["Show Hidden Files"@]
    } else {
        seq![]
    }
}

pub open spec fn module_names(m: int) -> (Seq<char>, Seq<char>, Seq<char>) {
    if m == 0 {
        ("computer"@, "Display"@, "Screen Scale"@)
    } else if m == 1 {
        ("workspace"@, "Workspace"@, "Show on the Screen"@)
    } else {
        ("file-code"@, "Expert"@, "File Viewer"@)
    }
}

/// Module `i`: Display (the scale), Workspace (what shows on the Screen), Expert (hidden files).
pub fn module(i: usize) -> (m: Module)
    requires
        i < MODULE_COUNT,
    ensures
        (m.icon@, m.name@, m.group@) == module_names(i as int),
        m.switches@.len() == switch_acts(i as int).len(),
        forall|j: int|
            0 <= j < m.switches@.len() ==> #[trigger] m.switches@[j].1 == switch_acts(i as int)[j]
                && m.switches@[j].0@ == switch_labels(i as int)[j],
{
    if i == 0 {
        Module { icon: "computer", name: "Display", group: "Screen Scale", switches: &[] }
    } else if i == 1 {
        Module {
            icon: "workspace",
            name: "Workspace",
            group: "Show on the Screen",
            switches: &[
                ("Show Dock", Act::ShowDock),
                ("Show Miniwindows", Act::ShowMiniwindows),
                ("Show Recycler Tile", Act::ShowRecycler),
                ("Screen Backdrop", Act::Backdrop),
            ],
        }
    } else {
        Module {
            icon: "file-code",
            name: "Expert",
            group: "File Viewer",
            switches: &[("Show Hidden Files", Act::ShowHidden)],
        }
    }
}

/// The content rectangle leaves room for the pane's arithmetic.
pub open spec fn content_fits(c: Rect) -> bool {
    -0x100000 <= c.x <= 0x100000 && -0x100000 <= c.y <= 0x100000 && 0 <= c.w <= 0x100000 && 0
        <= c.h <= 0x100000
}

pub open spec fn box_spec(c: Rect) -> Rect {
    Rect { x: (c.x + MARGIN) as i32, y: (c.y + 6) as i32, w: (c.w - 2 * MARGIN) as i32, h: BOX_H }
}

pub open spec fn cell_spec(c: Rect, i: int) -> Rect {
    let b = box_spec(c);
    Rect { x: (b.x + 2 + i * CELL_W) as i32, y: (b.y + 2) as i32, w: CELL_W, h: CELL_H }
}

pub open spec fn pane_spec(c: Rect) -> Rect {
    let y = c.y + 6 + BOX_H + 9;
    Rect { x: c.x, y: y as i32, w: c.w, h: (c.y + c.h - y) as i32 }
}

pub open spec fn group_spec(c: Rect, rows: int) -> Rect {
    let p = pane_spec(c);
    let h = if rows == 0 { 76 } else { 18 + rows * ROW_H };
    Rect { x: (p.x + 16) as i32, y: (p.y + 40) as i32, w: (p.w - 32) as i32, h: h as i32 }
}

pub open spec fn switch_spec(c: Rect, rows: int, i: int) -> Rect {
    let g = group_spec(c, rows);
    Rect { x: (g.x + 14) as i32, y: (g.y + 12 + i * ROW_H) as i32, w: (g.w - 28) as i32, h: 15 }
}

pub open spec fn slider_spec(c: Rect, rows: int) -> Rect {
    let g = group_spec(c, rows);
    Rect { x: (g.x + 16) as i32, y: (g.y + 24) as i32, w: 228, h: 18 }
}

/// The box of module icons across the top of the window whose content is `c`.
pub fn pref_box(c: Rect) -> (r: Rect)
    requires
        content_fits(c),
    ensures
        r == box_spec(c),
{
    rect(c.x + MARGIN, c.y + 6, c.w - 2 * MARGIN, BOX_H)
}

/// The icon cell of module `i`.
pub fn pref_cell(c: Rect, i: usize) -> (r: Rect)
    requires
        content_fits(c),
        i <= 0x1000,
    ensures
        r == cell_spec(c, i as int),
{
    let b = pref_box(c);
    rect(b.x + 2 + i as i32 * CELL_W, b.y + 2, CELL_W, CELL_H)
}

/// The pane under the icon row; the groove under the row sits in the 9 px gap.
pub fn pref_pane(c: Rect) -> (r: Rect)
    requires
        content_fits(c),
    ensures
        r == pane_spec(c),
{
    let y = c.y + 6 + BOX_H + 9;
    rect(c.x, y, c.w, c.y + c.h - y)
}

/// The group box of a module with `rows` switches (the slider's, when it has none).
pub fn pref_group(c: Rect, rows: usize) -> (r: Rect)
    requires
        content_fits(c),
        rows <= 0x1000,
    ensures
        r == group_spec(c, rows as int),
{
    let p = pref_pane(c);
    let h = if rows == 0 { 76 } else { 18 + rows as i32 * ROW_H };
    rect(p.x + 16, p.y + 40, p.w - 32, h)
}

/// Switch `i` of a module with `rows` switches.
pub fn pref_switch(c: Rect, rows: usize, i: usize) -> (r: Rect)
    requires
        content_fits(c),
        rows <= 0x1000,
        i <= 0x1000,
    ensures
        r == switch_spec(c, rows as int, i as int),
{
    let g = pref_group(c, rows);
    rect(g.x + 14, g.y + 12 + i as i32 * ROW_H, g.w - 28, 15)
}

/// The scale slider of the Display module.
pub fn pref_slider(c: Rect) -> (r: Rect)
    requires
        content_fits(c),
    ensures
        r == slider_spec(c, 0),
{
    let g = pref_group(c, 0);
    rect(g.x + 16, g.y + 24, 228, 18)
}

/// The field that shows the scale, right of the slider.
pub fn pref_field(c: Rect) -> (r: Rect)
    requires
        content_fits(c),
    ensures
        r == (Rect {
            x: (slider_spec(c, 0).x + 228 + 16) as i32,
            y: (slider_spec(c, 0).y - 1) as i32,
            w: 62,
            h: 20,
        }),
{
    let s = pref_slider(c);
    rect(s.right() + 16, s.y - 1, 62, 20)
}

/// The first of the cells `k..MODULE_COUNT` under `p`.
pub open spec fn cell_at(c: Rect, p: Pt, k: int) -> Option<int>
    decreases MODULE_COUNT - k,
{
    if k >= MODULE_COUNT {
        None
    } else if cell_spec(c, k).has(p) {
        Some(k)
    } else {
        cell_at(c, p, k + 1)
    }
}

/// The first of the switches `k..n` under `p`.
pub open spec fn switch_at(c: Rect, n: int, p: Pt, k: int) -> Option<int>
    decreases n - k,
{
    if k >= n {
        None
    } else if switch_spec(c, n, k).has(p) {
        Some(k)
    } else {
        switch_at(c, n, p, k + 1)
    }
}

/// What a press at `p` lands on while module `module` is shown: an icon cell picks a module,
/// else one of the module's switches.
pub open spec fn hit_spec(c: Rect, module: int, p: Pt) -> Option<PBtn> {
    match cell_at(c, p, 0) {
        Some(i) => Some(PBtn::Module(i as usize)),
        None => match switch_at(c, switch_acts(module).len() as int, p, 0) {
            Some(i) => Some(PBtn::Switch(i as usize)),
            None => None,
        },
    }
}

pub fn pref_btn_hit(c: Rect, m: usize, p: Pt) -> (r: Option<PBtn>)
    requires
        content_fits(c),
        m < MODULE_COUNT,
    ensures
        r == hit_spec(c, m as int, p),
{
    let mut i: usize = 0;
    while i < MODULE_COUNT
        invariant
            content_fits(c),
            i <= MODULE_COUNT,
            cell_at(c, p, 0) == cell_at(c, p, i as int),
        decreases MODULE_COUNT - i,
    {
        if pref_cell(c, i).contains(p) {
            return Some(PBtn::Module(i));
        }
        i += 1;
    }
    let n = module(m).switches.len();
    let mut k: usize = 0;
    while k < n
        invariant
            content_fits(c),
            n == switch_acts(m as int).len(),
            k <= n,
            cell_at(c, p, 0) is None,
            switch_at(c, n as int, p, 0) == switch_at(c, n as int, p, k as int),
        decreases n - k,
    {
        if pref_switch(c, n, k).contains(p) {
            return Some(PBtn::Switch(k));
        }
        k += 1;
    }
    None
}

/// The View menu command switch `i` of module `m` runs.
pub fn switch_act(m: usize, i: usize) -> (a: Option<Act>)
    requires
        m < MODULE_COUNT,
    ensures
        a == (if i < switch_acts(m as int).len() { Some(switch_acts(m as int)[i as int]) } else { None }),
{
    let md = module(m);
    if i < md.switches.len() {
        Some(md.switches[i].1)
    } else {
        None
    }
}

} // verus!
