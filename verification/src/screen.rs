//! The Screen as the operating system sees it in multi-window mode: one surface per window,
//! menu, tile and miniwindow, from the bottom up, each with its frame, its level and its title.
use vstd::prelude::*;
use crate::chrome::{miniwindow_rect, MenuInst, Win, WinKind};
use crate::desk::Desk;
use crate::dock::{screen_fits, tile_rect, tile_spec, TileId};
use crate::geom::{fits, rect, Pt, Rect};
use crate::menus::Menus;
use crate::workspace::{lemma_slots, slot_of, Level, SurfaceId, SurfaceInfo};

verus! {

/// What besides the windows and menus decides the surfaces.
pub struct ScreenState {
    /// A demo run draws into one picture and has no surfaces.
    pub demo: bool,
    pub backdrop: bool,
    pub dock_visible: bool,
    /// How many applications the Dock holds.
    pub dock_len: usize,
    pub recycler_visible: bool,
    pub miniwindows_visible: bool,
    /// The alert panel is up.
    pub alert: bool,
    /// Where the pointer drags a file icon, if it does.
    pub drag_at: Option<Pt>,
}

/// A surface as the specification sees it.
pub open spec fn surf(s: SurfaceInfo) -> (SurfaceId, Rect, Level, Seq<char>) {
    (s.id, s.r, s.level, s.title@)
}

pub open spec fn surfs(v: Seq<SurfaceInfo>) -> Seq<(SurfaceId, Rect, Level, Seq<char>)> {
    v.map_values(|s: SurfaceInfo| surf(s))
}

/// A window frame with its one-pixel border.
pub open spec fn framed(r: Rect) -> Rect {
    Rect { x: (r.x - 1) as i32, y: (r.y - 1) as i32, w: (r.w + 2) as i32, h: (r.h + 2) as i32 }
}

/// Window `w` has a surface of its own: shown, and not the alert (which floats on top).
pub open spec fn has_surface(w: Win) -> bool {
    w.visible && w.mini is None && w.kind != WinKind::Alert
}

/// `a` stands below `b`: a lower z, or the same z and earlier.
pub open spec fn below(wins: Seq<Win>, a: int, b: int) -> bool {
    wins[a].z < wins[b].z || (wins[a].z == wins[b].z && a < b)
}

/// `order` is the windows with a surface, bottom to top.
pub open spec fn stacked(wins: Seq<Win>, order: Seq<usize>) -> bool {
    &&& forall|k: int| 0 <= k < order.len() ==> (#[trigger] order[k]) < wins.len() && has_surface(wins[order[k] as int])
    &&& forall|i: int| 0 <= i < wins.len() && has_surface(wins[i]) ==> exists|k: int| 0 <= k < order.len() && #[trigger] order[k] == i
    &&& forall|a: int, b: int| 0 <= a < b < order.len() ==> below(wins, #[trigger] order[a] as int, #[trigger] order[b] as int)
}

/// The miniwindows' surfaces, in window order, among the first `n` windows.
pub open spec fn minis_upto(wins: Seq<Win>, h: int, n: int) -> Seq<(SurfaceId, Rect, Level, Seq<char>)>
    decreases n,
{
    if n <= 0 {
        seq![]
    } else {
        let w = wins[n - 1];
        let prev = minis_upto(wins, h, n - 1);
        match w.mini {
            Some(slot) => prev.push((SurfaceId::Miniwin(w.kind), Rect { x: (64 * (slot + 1)) as i32, y: (h - 64) as i32, w: 64, h: 64 }, Level::Top, w.title@)),
            None => prev,
        }
    }
}

fn title_of(s: &str) -> (t: String)
    ensures
        t@ == s@,
{
    String::from_str(s)
}

fn put(v: &mut Vec<SurfaceInfo>, id: SurfaceId, r: Rect, level: Level, title: String)
    ensures
        surfs(final(v)@) == surfs(old(v)@).push((id, r, level, title@)),
{
    let ghost before = v@;
    v.push(SurfaceInfo { id, r, level, title });
    assert(surfs(v@) =~= surfs(before).push((id, r, level, title@)));
}

/// The windows with a surface, bottom to top.
pub fn stack_order(wins: &Vec<Win>) -> (order: Vec<usize>)
    ensures
        stacked(wins@, order@),
{
    let mut order: Vec<usize> = Vec::new();
    let mut i: usize = 0;
    while i < wins.len()
        invariant
            i <= wins@.len(),
            forall|k: int| 0 <= k < order@.len() ==> (#[trigger] order@[k]) < i && has_surface(wins@[order@[k] as int]),
            forall|j: int| 0 <= j < i && has_surface(wins@[j]) ==> exists|k: int| 0 <= k < order@.len() && #[trigger] order@[k] == j,
            forall|a: int, b: int| 0 <= a < b < order@.len() ==> below(wins@, #[trigger] order@[a] as int, #[trigger] order@[b] as int),
        decreases wins@.len() - i,
    {
        if wins[i].visible && wins[i].mini.is_none() && wins[i].kind != WinKind::Alert {
            // insert after every window below it: all earlier ones with z up to this one's
            let z = wins[i].z;
            let mut at: usize = order.len();
            while at > 0 && wins[order[at - 1]].z > z
                invariant
                    at <= order@.len(),
                    forall|k: int| 0 <= k < order@.len() ==> (#[trigger] order@[k]) < i,
                    forall|k: int| at <= k < order@.len() ==> wins@[(#[trigger] order@[k]) as int].z > z,
                    i < wins@.len(),
                    z == wins@[i as int].z,
                decreases at,
            {
                at -= 1;
            }
            let ghost before = order@;
            proof {
                assert forall|k: int| 0 <= k < at implies wins@[(#[trigger] before[k]) as int].z <= z by {
                    if k < at - 1 || at == 0 {
                        if at > 0 {
                            assert(below(wins@, before[k] as int, before[at - 1] as int));
                        }
                    }
                }
            }
            order.insert(at, i);
            proof {
                let o = order@;
                assert forall|k: int| 0 <= k < o.len() implies #[trigger] o[k] == (if k < at { before[k] } else if k == at { i } else { before[k - 1] }) by {}
                assert forall|a: int, b: int| 0 <= a < b < o.len() implies below(wins@, #[trigger] o[a] as int, #[trigger] o[b] as int) by {
                    if a < at && b < at {
                        assert(below(wins@, before[a] as int, before[b] as int));
                    } else if a < at && b == at {
                        assert(wins@[before[a] as int].z <= z);
                    } else if a < at && b > at {
                        assert(below(wins@, before[a] as int, before[b - 1] as int));
                    } else if a == at {
                        assert(wins@[before[b - 1] as int].z > z);
                    } else {
                        assert(below(wins@, before[a - 1] as int, before[b - 1] as int));
                    }
                }
                assert forall|j: int| 0 <= j < i + 1 && has_surface(wins@[j]) implies exists|k: int| 0 <= k < o.len() && #[trigger] o[k] == j by {
                    if j == i {
                        assert(o[at as int] == i);
                    } else {
                        let k = choose|k: int| 0 <= k < before.len() && #[trigger] before[k] == j;
                        if k < at {
                            assert(o[k] == j);
                        } else {
                            assert(o[k + 1] == j);
                        }
                    }
                }
            }
        }
        i += 1;
    }
    order
}


pub open spec fn win_surfs(wins: Seq<Win>, order: Seq<usize>) -> Seq<(SurfaceId, Rect, Level, Seq<char>)> {
    order.map_values(|i: usize| (SurfaceId::Win(wins[i as int].kind), framed(wins[i as int].r), Level::Normal, wins[i as int].title@))
}

pub open spec fn menu_surfs(ms: Seq<MenuInst>) -> Seq<(SurfaceId, Rect, Level, Seq<char>)> {
    ms.map_values(|m: MenuInst| (SurfaceId::Menu(m.id), Rect { x: m.pos.x, y: m.pos.y, w: (m.w + 1) as i32, h: m.height_spec() as i32 }, Level::Top, m.title@))
}

pub open spec fn one_if(b: bool, x: (SurfaceId, Rect, Level, Seq<char>)) -> Seq<(SurfaceId, Rect, Level, Seq<char>)> {
    if b { seq![x] } else { seq![] }
}

/// The surfaces, from the bottom up: the backdrop; the windows by their stacking; the Dock, the
/// Recycler and the application tile; the miniwindows; the menus in their order; the alert; the
/// icon being dragged. A demo run has none.
pub open spec fn surfaces_spec(wins: Seq<Win>, order: Seq<usize>, ms: Seq<MenuInst>, st: ScreenState, w: int, h: int) -> Seq<(SurfaceId, Rect, Level, Seq<char>)> {
    if st.demo {
        seq![]
    } else {
        let n = if st.dock_len < 12 { st.dock_len as int } else { 12 };
        one_if(st.backdrop, (SurfaceId::Backdrop, Rect { x: 0, y: 0, w: w as i32, h: h as i32 }, Level::Bottom, "ReWorkspace"@))
            + win_surfs(wins, order)
            + one_if(st.dock_visible, (SurfaceId::Dock, Rect { x: (w - 67) as i32, y: 0, w: 64, h: (64 * (1 + n)) as i32 }, Level::Top, "Dock"@))
            + one_if(st.recycler_visible, (SurfaceId::Recycler, tile_spec(w, h, TileId::Recycler), Level::Top, "Recycler"@))
            + seq![(SurfaceId::AppTile, Rect { x: 0, y: (h - 64) as i32, w: 64, h: 64 }, Level::Top, "Workspace"@)]
            + (if st.miniwindows_visible { minis_upto(wins, h, wins.len() as int) } else { seq![] })
            + menu_surfs(ms)
            + one_if(st.alert, (SurfaceId::Win(WinKind::Alert), framed(wins[slot_of(WinKind::Alert)].r), Level::Top, "Alert"@))
            + match st.drag_at {
                Some(p) => seq![(SurfaceId::DragIcon, Rect { x: (p.x - 24) as i32, y: (p.y - 24) as i32, w: 48, h: 48 }, Level::Top, ""@)],
                None => seq![],
            }
    }
}

/// Every frame the surfaces compute fits in an `i32`.
pub open spec fn surfaces_fit(wins: Seq<Win>, ms: Seq<MenuInst>, st: ScreenState) -> bool {
    &&& forall|i: int| 0 <= i < wins.len() ==> {
        let r = (#[trigger] wins[i]).r;
        fits(r.x - 1) && fits(r.y - 1) && fits(r.w + 2) && fits(r.h + 2)
    }
    &&& forall|i: int| 0 <= i < wins.len() ==> ((#[trigger] wins[i]).mini matches Some(s) ==> 64 * (s + 1) <= i32::MAX)
    &&& forall|i: int| 0 <= i < ms.len() ==> (#[trigger] ms[i]).geom_fits() && fits(ms[i].w + 1)
    &&& st.drag_at matches Some(p) ==> fits(p.x - 24) && fits(p.y - 24)
}

fn push_wins(v: &mut Vec<SurfaceInfo>, wins: &Vec<Win>, order: &Vec<usize>)
    requires
        forall|k: int| 0 <= k < order@.len() ==> (#[trigger] order@[k]) < wins@.len(),
        forall|i: int| 0 <= i < wins@.len() ==> {
            let r = (#[trigger] wins@[i]).r;
            fits(r.x - 1) && fits(r.y - 1) && fits(r.w + 2) && fits(r.h + 2)
        },
    ensures
        surfs(final(v)@) == surfs(old(v)@) + win_surfs(wins@, order@),
{
    let ghost s1 = surfs(v@);
    let mut k: usize = 0;
    while k < order.len()
        invariant
            k <= order@.len(),
            forall|q: int| 0 <= q < order@.len() ==> (#[trigger] order@[q]) < wins@.len(),
            forall|i: int| 0 <= i < wins@.len() ==> {
                let r = (#[trigger] wins@[i]).r;
                fits(r.x - 1) && fits(r.y - 1) && fits(r.w + 2) && fits(r.h + 2)
            },
            surfs(v@) == s1 + win_surfs(wins@, order@.take(k as int)),
        decreases order@.len() - k,
    {
        let wn = &wins[order[k]];
        let r = rect(wn.r.x - 1, wn.r.y - 1, wn.r.w + 2, wn.r.h + 2);
        put(v, SurfaceId::Win(wn.kind), r, Level::Normal, title_of(wn.title.as_str()));
        k += 1;
        assert(win_surfs(wins@, order@.take(k as int)) =~= win_surfs(wins@, order@.take(k - 1)).push(
            (SurfaceId::Win(wn.kind), r, Level::Normal, wn.title@),
        ));
    }
    assert(order@.take(order@.len() as int) =~= order@);
}

fn push_minis(v: &mut Vec<SurfaceInfo>, wins: &Vec<Win>, h: i32)
    requires
        fits(h - 64),
        forall|i: int| 0 <= i < wins@.len() ==> ((#[trigger] wins@[i]).mini matches Some(s) ==> 64 * (s + 1) <= i32::MAX),
    ensures
        surfs(final(v)@) == surfs(old(v)@) + minis_upto(wins@, h as int, wins@.len() as int),
{
    let ghost s2 = surfs(v@);
    let mut i: usize = 0;
    while i < wins.len()
        invariant
            i <= wins@.len(),
            fits(h - 64),
            forall|j: int| 0 <= j < wins@.len() ==> ((#[trigger] wins@[j]).mini matches Some(s) ==> 64 * (s + 1) <= i32::MAX),
            surfs(v@) == s2 + minis_upto(wins@, h as int, i as int),
        decreases wins@.len() - i,
    {
        let wn = &wins[i];
        if let Some(slot) = wn.mini {
            put(v, SurfaceId::Miniwin(wn.kind), miniwindow_rect(slot, h), Level::Top, title_of(wn.title.as_str()));
        }
        i += 1;
    }
}

fn push_menus(v: &mut Vec<SurfaceInfo>, ms: &Vec<MenuInst>)
    requires
        forall|i: int| 0 <= i < ms@.len() ==> (#[trigger] ms@[i]).geom_fits() && fits(ms@[i].w + 1),
    ensures
        surfs(final(v)@) == surfs(old(v)@) + menu_surfs(ms@),
{
    let ghost s3 = surfs(v@);
    let mut m: usize = 0;
    while m < ms.len()
        invariant
            m <= ms@.len(),
            forall|i: int| 0 <= i < ms@.len() ==> (#[trigger] ms@[i]).geom_fits() && fits(ms@[i].w + 1),
            surfs(v@) == s3 + menu_surfs(ms@.take(m as int)),
        decreases ms@.len() - m,
    {
        let mi = &ms[m];
        let r = mi.rect();
        let sr = rect(r.x, r.y, r.w + 1, r.h);
        put(v, SurfaceId::Menu(mi.id), sr, Level::Top, title_of(mi.title.as_str()));
        m += 1;
        assert(menu_surfs(ms@.take(m as int)) =~= menu_surfs(ms@.take(m - 1)).push((SurfaceId::Menu(mi.id), sr, Level::Top, mi.title@)));
    }
    assert(ms@.take(ms@.len() as int) =~= ms@);
}

/// The backdrop, if any.
fn push_bottom(v: &mut Vec<SurfaceInfo>, st: &ScreenState, w: i32, h: i32)
    ensures
        surfs(final(v)@) == surfs(old(v)@) + one_if(st.backdrop, (SurfaceId::Backdrop, Rect { x: 0, y: 0, w: w as i32, h: h as i32 }, Level::Bottom, "ReWorkspace"@)),
{
    let ghost s0 = surfs(v@);
    if st.backdrop {
        put(v, SurfaceId::Backdrop, rect(0, 0, w, h), Level::Bottom, title_of("ReWorkspace"));
    }
    assert(surfs(v@) =~= s0 + one_if(st.backdrop, (SurfaceId::Backdrop, Rect { x: 0, y: 0, w: w as i32, h: h as i32 }, Level::Bottom, "ReWorkspace"@)));
}

/// The Dock, the Recycler and the application tile.
fn push_tiles(v: &mut Vec<SurfaceInfo>, st: &ScreenState, w: i32, h: i32)
    requires
        screen_fits(w as int, h as int),
    ensures
        surfs(final(v)@) == surfs(old(v)@) + one_if(
            st.dock_visible,
            (SurfaceId::Dock, Rect { x: (w - 67) as i32, y: 0, w: 64, h: (64 * (1 + (if st.dock_len < 12 { st.dock_len as int } else { 12 }))) as i32 }, Level::Top, "Dock"@),
        ) + one_if(st.recycler_visible, (SurfaceId::Recycler, tile_spec(w as int, h as int, TileId::Recycler), Level::Top, "Recycler"@))
            + seq![(SurfaceId::AppTile, Rect { x: 0, y: (h - 64) as i32, w: 64, h: 64 }, Level::Top, "Workspace"@)],
{
    let ghost s0 = surfs(v@);
    let ghost n_dock: int = if st.dock_len < 12 { st.dock_len as int } else { 12 };
    let ghost seg2 = one_if(st.dock_visible, (SurfaceId::Dock, Rect { x: (w - 67) as i32, y: 0, w: 64, h: (64 * (1 + n_dock)) as i32 }, Level::Top, "Dock"@));
    if st.dock_visible {
        let n: i32 = 1 + if st.dock_len < 12 { st.dock_len as i32 } else { 12 };
        put(v, SurfaceId::Dock, rect(w - 67, 0, 64, 64 * n), Level::Top, title_of("Dock"));
    }
    assert(surfs(v@) =~= s0 + seg2);
    let ghost seg3 = one_if(st.recycler_visible, (SurfaceId::Recycler, tile_spec(w as int, h as int, TileId::Recycler), Level::Top, "Recycler"@));
    if st.recycler_visible {
        put(v, SurfaceId::Recycler, tile_rect(w, h, TileId::Recycler), Level::Top, title_of("Recycler"));
    }
    assert(surfs(v@) =~= s0 + seg2 + seg3);
    put(v, SurfaceId::AppTile, rect(0, h - 64, 64, 64), Level::Top, title_of("Workspace"));
    assert(surfs(v@) =~= s0 + seg2 + seg3 + seq![(SurfaceId::AppTile, Rect { x: 0, y: (h - 64) as i32, w: 64, h: 64 }, Level::Top, "Workspace"@)]);
}

/// The alert and the icon being dragged.
fn push_top(v: &mut Vec<SurfaceInfo>, desk: &Desk, st: &ScreenState)
    requires
        desk.ok(),
        surfaces_fit(desk.wins@, seq![], *st),
    ensures
        surfs(final(v)@) == surfs(old(v)@) + one_if(st.alert, (SurfaceId::Win(WinKind::Alert), framed(desk.wins@[slot_of(WinKind::Alert)].r), Level::Top, "Alert"@))
            + match st.drag_at {
                Some(p) => seq![(SurfaceId::DragIcon, Rect { x: (p.x - 24) as i32, y: (p.y - 24) as i32, w: 48, h: 48 }, Level::Top, ""@)],
                None => seq![],
            },
{
    proof {
        lemma_slots(WinKind::Alert);
    }
    let ghost s0 = surfs(v@);
    let ghost seg7 = one_if(st.alert, (SurfaceId::Win(WinKind::Alert), framed(desk.wins@[slot_of(WinKind::Alert)].r), Level::Top, "Alert"@));
    if st.alert {
        let r = desk.win(WinKind::Alert).r;
        assert(fits(r.x - 1) && fits(r.y - 1) && fits(r.w + 2) && fits(r.h + 2));
        put(v, SurfaceId::Win(WinKind::Alert), rect(r.x - 1, r.y - 1, r.w + 2, r.h + 2), Level::Top, title_of("Alert"));
    }
    assert(surfs(v@) =~= s0 + seg7);
    let ghost seg8: Seq<(SurfaceId, Rect, Level, Seq<char>)> = match st.drag_at {
        Some(p) => seq![(SurfaceId::DragIcon, Rect { x: (p.x - 24) as i32, y: (p.y - 24) as i32, w: 48, h: 48 }, Level::Top, ""@)],
        None => seq![],
    };
    if let Some(p) = st.drag_at {
        put(v, SurfaceId::DragIcon, rect(p.x - 24, p.y - 24, 48, 48), Level::Top, title_of(""));
    }
    assert(surfs(v@) =~= s0 + seg7 + seg8);
}

/// The surfaces of the Screen, `w`×`h`, from the bottom up (see `surfaces_spec`).
pub fn surfaces(desk: &Desk, menus: &Menus, st: &ScreenState, w: i32, h: i32) -> (v: Vec<SurfaceInfo>)
    requires
        desk.ok(),
        screen_fits(w as int, h as int),
        surfaces_fit(desk.wins@, menus.menus@, *st),
    ensures
        exists|order: Seq<usize>| stacked(desk.wins@, order) && surfs(v@) == #[trigger] surfaces_spec(desk.wins@, order, menus.menus@, *st, w as int, h as int),
{
    let mut v: Vec<SurfaceInfo> = Vec::new();
    let order = stack_order(&desk.wins);
    if st.demo {
        assert(surfs(v@) =~= surfaces_spec(desk.wins@, order@, menus.menus@, *st, w as int, h as int));
        return v;
    }
    assert(surfs(v@) =~= Seq::empty());
    push_bottom(&mut v, st, w, h);
    push_wins(&mut v, &desk.wins, &order);
    push_tiles(&mut v, st, w, h);
    let ghost before_minis = surfs(v@);
    if st.miniwindows_visible {
        push_minis(&mut v, &desk.wins, h);
    }
    assert(surfs(v@) == before_minis + (if st.miniwindows_visible { minis_upto(desk.wins@, h as int, desk.wins@.len() as int) } else { seq![] })) by {
        if !st.miniwindows_visible {
            assert(before_minis + seq![] =~= before_minis);
        }
    }
    push_menus(&mut v, &menus.menus);
    push_top(&mut v, desk, st);
    assert(surfs(v@) =~= surfaces_spec(desk.wins@, order@, menus.menus@, *st, w as int, h as int));
    v
}

} // verus!
