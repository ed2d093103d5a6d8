//! The pointer on the Screen: what a press lands on, in the Screen's stacking order (the alert
//! panel, the menus, the tiles and miniwindows, the windows), and what letting go does.
use vstd::prelude::*;
use crate::chrome::{MenuInst, item_state, item_state_spec, law_menu_hit_item_contains, miniwindow_rect, rc, ItemContext, MenuKind, MenuPart, Win, WinKind, WinPart, BTN_H};
use crate::events::Button;
use crate::desk::{alert_button_spec, alert_buttons, dragged, dragged_spec, hit_upto, repacked, resize_fits, resized, Desk};
use crate::dock::{screen_fits, tile_hit, tile_hit_spec, TileId};
use crate::geom::{fits, pt, Pt, Rect};
use crate::menus::{attach_fits, find_id, hit_from, moved_spec, placed, settled_upto, torn_off, Menus};
use crate::state::TornMenu;
use crate::workspace::{kinds, lemma_slots, slot_of, Btn, Capture, ScrollId, SurfaceId};

verus! {

/// Every miniwindow's place on the Screen fits in an `i32`.
pub open spec fn minis_fit(wins: Seq<Win>) -> bool {
    forall|i: int| 0 <= i < wins.len() ==> ((#[trigger] wins[i]).mini matches Some(s) ==> 64 * (s + 2) <= i32::MAX)
}

/// The first window from slot `i` on whose miniwindow, on a Screen `h` tall, is under `p`.
pub open spec fn mini_at(wins: Seq<Win>, h: int, p: Pt, i: int) -> Option<WinKind>
    decreases wins.len() - i,
{
    if i < 0 || i >= wins.len() {
        None
    } else if wins[i].mini matches Some(s) && rc(64 * (s + 1), h - 64, 64, 64).has(p) {
        Some(wins[i].kind)
    } else {
        mini_at(wins, h, p, i + 1)
    }
}

/// What a press at `p` lands on among the Recycler, the Dock, the application tile and the
/// miniwindows; a press on the Dock's strip between its tiles lands on nothing.
pub open spec fn tile_btn_spec(wins: Seq<Win>, w: int, h: int, dock_visible: bool, n: int, p: Pt) -> Option<Btn> {
    match tile_hit_spec(w, h, dock_visible, n, p) {
        Some(Some(t)) => Some(Btn::Tile(t)),
        Some(None) => None,
        None => match mini_at(wins, h, p, 0) {
            Some(k) => Some(Btn::Miniwin(k)),
            None => None,
        },
    }
}

/// The tile or miniwindow under `p`, on a `w`×`h` Screen whose Dock (shown when
/// `dock_visible`) holds `n` applications.
pub fn tile_btn(desk: &Desk, w: i32, h: i32, dock_visible: bool, n: usize, p: Pt) -> (r: Option<Btn>)
    requires
        screen_fits(w as int, h as int),
        minis_fit(desk.wins@),
    ensures
        r == tile_btn_spec(desk.wins@, w as int, h as int, dock_visible, n as int, p),
{
    match tile_hit(w, h, dock_visible, n, p) {
        Some(Some(t)) => return Some(Btn::Tile(t)),
        Some(None) => return None,
        None => {},
    }
    let mut i: usize = 0;
    while i < desk.wins.len()
        invariant
            i <= desk.wins@.len(),
            screen_fits(w as int, h as int),
            minis_fit(desk.wins@),
            mini_at(desk.wins@, h as int, p, 0) == mini_at(desk.wins@, h as int, p, i as int),
            tile_hit_spec(w as int, h as int, dock_visible, n as int, p) is None,
        decreases desk.wins@.len() - i,
    {
        if let Some(s) = desk.wins[i].mini {
            let mr = miniwindow_rect(s, h);
            if mr.contains(p) {
                assert(mr == rc(64 * (s + 1), h - 64, 64, 64));
                assert(mini_at(desk.wins@, h as int, p, i as int) == Some(desk.wins@[i as int].kind));
                return Some(Btn::Miniwin(desk.wins[i].kind));
            }
        }
        i += 1;
    }
    None
}

/// What a press lands on: a control, or the content of a window, which the window itself
/// then looks into.
#[derive(Clone, Copy, PartialEq, Eq, Debug, Structural)]
pub enum Target {
    Nothing,
    Btn(Btn),
    Content(WinKind),
}

/// The first of alert buttons `i`.. (of `n`, in a panel whose content is `c`) under `p`.
pub open spec fn alert_btn_at(c: Rect, n: int, p: Pt, i: int) -> Option<usize>
    decreases n - i,
{
    if i < 0 || i >= n {
        None
    } else if alert_button_spec(c, n, i).has(p) {
        Some(i as usize)
    } else {
        alert_btn_at(c, n, p, i + 1)
    }
}

/// The alert panel's geometry leaves room for `n` buttons inside an `i32`.
pub open spec fn alert_fits(c: Rect, n: int) -> bool {
    &&& n * 88 <= i32::MAX
    &&& fits(c.x + c.w - 10 - n * 88)
    &&& fits(c.x + c.w)
    &&& fits(c.y + c.h - 10 - BTN_H)
    &&& fits(c.y + c.h)
}

/// What a press at `p` lands on, topmost first: with an alert of `alert` buttons up, only its
/// buttons; else a menu's close button or item (its title is no control), then a tile or
/// miniwindow, then a window's miniaturize or close button, or its content.
pub open spec fn target_spec(desk: Desk, menus: Menus, alert: Option<usize>, w: int, h: int, dock_visible: bool, n: int, p: Pt) -> Target {
    match alert {
        Some(a) => match alert_btn_at(desk.win_spec(WinKind::Alert).content_spec(), a as int, p, 0) {
            Some(i) => Target::Btn(Btn::AlertBtn(i)),
            None => Target::Nothing,
        },
        None => match hit_from(menus.menus@, p, menus.menus@.len() as int) {
            Some((i, part)) => match part {
                MenuPart::Close => Target::Btn(Btn::MenuClose(menus.menus@[i].id)),
                MenuPart::Item(j) => Target::Btn(Btn::MenuItem(menus.menus@[i].id, j)),
                MenuPart::Title => Target::Nothing,
            },
            None => match tile_btn_spec(desk.wins@, w, h, dock_visible, n, p) {
                Some(b) => Target::Btn(b),
                None => match hit_upto(desk.wins@, p, desk.wins@.len() as int) {
                    Some(k) => match desk.wins@[k].hit_spec(p) {
                        Some(WinPart::MiniBtn) => Target::Btn(Btn::WinMini(desk.wins@[k].kind)),
                        Some(WinPart::CloseBtn) => Target::Btn(Btn::WinClose(desk.wins@[k].kind)),
                        Some(WinPart::Content) => Target::Content(desk.wins@[k].kind),
                        _ => Target::Nothing,
                    },
                    None => Target::Nothing,
                },
            },
        },
    }
}

proof fn lemma_hit_from_index(ms: Seq<crate::chrome::MenuInst>, p: Pt, n: int)
    requires
        0 <= n <= ms.len(),
    ensures
        hit_from(ms, p, n) matches Some((i, part)) ==> 0 <= i < n && ms[i].hit_spec(p) == Some(part),
    decreases n,
{
    if n > 0 {
        lemma_hit_from_index(ms, p, n - 1);
    }
}

/// The window under `p` and the part of it there, as a press finds them (see `Desk::win_hit`).
pub open spec fn win_at(wins: Seq<Win>, p: Pt) -> Option<(WinKind, WinPart)> {
    match hit_upto(wins, p, wins.len() as int) {
        Some(i) => match wins[i].hit_spec(p) {
            Some(part) => Some((wins[i].kind, part)),
            None => None,
        },
        None => None,
    }
}

/// Everything on the Screen keeps its geometry inside an `i32`.
pub open spec fn screen_ok(desk: Desk, menus: Menus, alert: Option<usize>, w: int, h: int) -> bool {
    &&& desk.ok()
    &&& desk.geom_ok()
    &&& menus.geom_ok()
    &&& screen_fits(w, h)
    &&& minis_fit(desk.wins@)
    &&& alert matches Some(a) ==> alert_fits(desk.win_spec(WinKind::Alert).content_spec(), a as int)
}

/// The control (or window content) under `p`, honoring the Screen's stacking order. `alert`
/// is the number of buttons of the alert panel, when one is up.
pub fn btn_hit(desk: &Desk, menus: &Menus, alert: Option<usize>, w: i32, h: i32, dock_visible: bool, n: usize, p: Pt) -> (r: Target)
    requires
        screen_ok(*desk, *menus, alert, w as int, h as int),
    ensures
        r == target_spec(*desk, *menus, alert, w as int, h as int, dock_visible, n as int, p),
{
    proof {
        lemma_slots(WinKind::Alert);
    }
    if let Some(a) = alert {
        let c = desk.win(WinKind::Alert).content();
        let bs = alert_buttons(c, a);
        let mut i: usize = 0;
        while i < bs.len()
            invariant
                i <= bs@.len() == a,
                alert_fits(c, a as int),
                alert == Some(a),
                c == desk.win_spec(WinKind::Alert).content_spec(),
                forall|j: int| 0 <= j < a ==> #[trigger] bs@[j] == alert_button_spec(c, a as int, j),
                alert_btn_at(c, a as int, p, 0) == alert_btn_at(c, a as int, p, i as int),
            decreases bs@.len() - i,
        {
            if bs[i].contains(p) {
                assert(alert_btn_at(c, a as int, p, i as int) == Some(i));
                return Target::Btn(Btn::AlertBtn(i));
            }
            i += 1;
        }
        return Target::Nothing;
    }
    proof {
        lemma_hit_from_index(menus.menus@, p, menus.menus@.len() as int);
    }
    if let Some((i, part)) = menus.menu_hit(p) {
        let id = menus.menus[i].id;
        return match part {
            MenuPart::Close => Target::Btn(Btn::MenuClose(id)),
            MenuPart::Item(j) => Target::Btn(Btn::MenuItem(id, j)),
            MenuPart::Title => Target::Nothing,
        };
    }
    if let Some(b) = tile_btn(desk, w, h, dock_visible, n, p) {
        return Target::Btn(b);
    }
    match desk.win_hit(p) {
        Some((k, WinPart::MiniBtn)) => Target::Btn(Btn::WinMini(k)),
        Some((k, WinPart::CloseBtn)) => Target::Btn(Btn::WinClose(k)),
        Some((k, WinPart::Content)) => Target::Content(k),
        _ => Target::Nothing,
    }
}

/// What is left to do once a press of the mouse has been taken.
pub enum Down {
    Done,
    /// The pointer is captured until it is let go.
    Capture(Capture),
    /// The submenu under item `1` of menu `0` opens (at the width its items need).
    OpenSubmenu(u64, usize),
    /// The Workspace menu pops up at the pointer (at the width its items need).
    Popup,
    /// A press in the content of window `k`, which the window handles.
    Content(WinKind),
}

/// How long two presses on a miniwindow may lie apart to count as a double-click, in ms.
pub const DOUBLE_MS: u64 = 400;

/// Where `p` lies from `o`.
pub open spec fn offset(p: Pt, o: Pt) -> Pt {
    Pt { x: (p.x - o.x) as i32, y: (p.y - o.y) as i32 }
}

/// The pointer at `p` lies within an `i32` of every window's and menu's corner.
pub open spec fn grabs_fit(desk: Desk, menus: Menus, p: Pt) -> bool {
    &&& forall|i: int| 0 <= i < desk.wins@.len() ==> fits(p.x - (#[trigger] desk.wins@[i]).r.x) && fits(p.y - desk.wins@[i].r.y)
    &&& forall|i: int| 0 <= i < menus.menus@.len() ==> fits(p.x - (#[trigger] menus.menus@[i]).pos.x) && fits(p.y - menus.menus@[i].pos.y)
}

/// The menu whose title a press lands on, if it lands on one.
pub open spec fn title_pressed(hit: Option<(int, MenuPart)>) -> Option<int> {
    match hit {
        Some((i, MenuPart::Title)) => Some(i),
        _ => None,
    }
}

/// The miniwindow a press lands on, if it lands on one.
pub open spec fn mini_pressed(t: Option<Btn>) -> Option<WinKind> {
    match t {
        Some(Btn::Miniwin(k)) => Some(k),
        _ => None,
    }
}

/// A second press on miniwindow `k` at `now` (ms), soon after a first one recorded in `last`.
pub open spec fn double_click(last: Option<(WinKind, u64)>, k: WinKind, now: u64) -> bool {
    last matches Some((j, t)) && j == k && (if now >= t { now - t } else { 0 }) < DOUBLE_MS
}

/// What a press of button `b` at `p` comes to, by what lies under it (see `target_spec`): with
/// an alert up, only its buttons and title bar; then the menus (the left button only; a
/// disabled item does nothing); then, for the right button, the Workspace menu where neither a
/// tile nor a window is under the pointer; then tiles and miniwindows, and windows.
pub open spec fn down_spec(desk: Desk, menus: Menus, captured: bool, demo: bool, alert: Option<usize>, cx: ItemContext, w: int, h: int, dock_visible: bool, n: int, b: Button, p: Pt) -> Down {
    if captured || demo {
        Down::Done
    } else if alert is Some {
        let aw = desk.win_spec(WinKind::Alert);
        match alert_btn_at(aw.content_spec(), alert->0 as int, p, 0) {
            Some(i) => Down::Capture(Capture::Press(Btn::AlertBtn(i))),
            None => if aw.title_bar_spec().has(p) {
                Down::Capture(Capture::WinMove { k: WinKind::Alert, grab: offset(p, Pt { x: aw.r.x, y: aw.r.y }) })
            } else {
                Down::Done
            },
        }
    } else if hit_from(menus.menus@, p, menus.menus@.len() as int) is Some {
        let (i, part) = hit_from(menus.menus@, p, menus.menus@.len() as int)->0;
        let m = menus.menus@[i];
        if b != Button::Left {
            Down::Done
        } else {
            match part {
                MenuPart::Close => Down::Capture(Capture::Press(Btn::MenuClose(m.id))),
                MenuPart::Title => Down::Capture(Capture::MenuDrag { m: m.id, grab: offset(p, m.pos), moved: false }),
                MenuPart::Item(j) => if item_state_spec(m.items@[j as int].act, cx).0 {
                    Down::Done
                } else if m.items@[j as int].sub is Some {
                    Down::OpenSubmenu(m.id, j)
                } else {
                    Down::Capture(Capture::Press(Btn::MenuItem(m.id, j)))
                },
            }
        }
    } else if b == Button::Right {
        if tile_btn_spec(desk.wins@, w, h, dock_visible, n, p) is None && win_at(desk.wins@, p) is None {
            Down::Popup
        } else {
            Down::Done
        }
    } else if b != Button::Left {
        Down::Done
    } else if tile_btn_spec(desk.wins@, w, h, dock_visible, n, p) is Some {
        match tile_btn_spec(desk.wins@, w, h, dock_visible, n, p)->0 {
            Btn::Tile(TileId::App(i)) => Down::Capture(Capture::TilePress { idx: i, start: p, dx: 0, dy: 0 }),
            Btn::Miniwin(_) => Down::Done,
            t => Down::Capture(Capture::Press(t)),
        }
    } else if win_at(desk.wins@, p) is Some {
        let (k, part) = win_at(desk.wins@, p)->0;
        let win = desk.win_spec(k);
        match part {
            WinPart::MiniBtn => Down::Capture(Capture::Press(Btn::WinMini(k))),
            WinPart::CloseBtn => Down::Capture(Capture::Press(Btn::WinClose(k))),
            WinPart::Title => Down::Capture(Capture::WinMove { k, grab: offset(p, Pt { x: win.r.x, y: win.r.y }) }),
            WinPart::Resize(region) => Down::Capture(Capture::WinResize { k, start: p, orig: win.r, region }),
            WinPart::Content => Down::Content(k),
        }
    } else {
        Down::Done
    }
}

/// Whether a press reaches the menus, the tiles and the windows (nothing captures the pointer,
/// no demo runs, no alert is up) and misses every menu, so that open submenus close.
pub open spec fn reaches_screen(menus: Menus, captured: bool, demo: bool, alert: Option<usize>, p: Pt) -> bool {
    !captured && !demo && alert is None && hit_from(menus.menus@, p, menus.menus@.len() as int) is None
}

/// Takes a press of button `b` at `p` (at `now`, in ms): a menu whose title is pressed comes to
/// the front, open submenus close when the press misses the menus, a window pressed with the
/// left button becomes key, and a second press on a miniwindow soon after the first restores
/// its window. Says what is left to do.
pub fn mouse_down(
    desk: &mut Desk,
    menus: &mut Menus,
    last_mini: &mut Option<(WinKind, u64)>,
    captured: bool,
    demo: bool,
    alert: Option<usize>,
    cx: &ItemContext,
    w: i32,
    h: i32,
    dock_visible: bool,
    n: usize,
    b: Button,
    p: Pt,
    now: u64,
) -> (r: Down)
    requires
        screen_ok(*old(desk), *old(menus), alert, w as int, h as int),
        old(menus).wf(),
        old(desk).zc < u32::MAX,
        grabs_fit(*old(desk), *old(menus), p),
    ensures
        r == down_spec(*old(desk), *old(menus), captured, demo, alert, *cx, w as int, h as int, dock_visible, n as int, b, p),
        final(menus).wf(),
        final(menus).seq == old(menus).seq,
        ({
            let ms = old(menus).menus@;
            let hit = hit_from(ms, p, ms.len() as int);
            if reaches_screen(*old(menus), captured, demo, alert, p) {
                final(menus).menus@ == settled_upto(ms, ms.len() as int)
            } else if !captured && !demo && alert is None && b == Button::Left && title_pressed(hit) is Some {
                final(menus).menus@ == ms.remove(title_pressed(hit)->0).push(ms[title_pressed(hit)->0])
            } else {
                final(menus).menus@ == ms
            }
        }),
        ({
            let tb = tile_btn_spec(old(desk).wins@, w as int, h as int, dock_visible, n as int, p);
            if reaches_screen(*old(menus), captured, demo, alert, p) && b == Button::Left && mini_pressed(tb) is Some {
                let k = mini_pressed(tb)->0;
                if double_click(*old(last_mini), k, now) {
                    &&& *final(last_mini) == None::<(WinKind, u64)>
                    &&& final(desk).ok()
                    &&& old(desk).win_spec(k).mini is None ==> *final(desk) == *old(desk)
                    &&& old(desk).win_spec(k).mini is Some ==> {
                        let back = repacked(old(desk).wins@.update(slot_of(k), Win { mini: None::<usize>, ..old(desk).win_spec(k) }));
                        &&& final(desk).wins@ == back.update(slot_of(k), Win { z: final(desk).zc, ..back[slot_of(k)] })
                        &&& final(desk).key == Some(k)
                        &&& final(desk).zc == old(desk).zc + 1
                        &&& final(desk).activations@ == old(desk).activations@.filter(|x: WinKind| x != k).push(k)
                    }
                } else {
                    *final(last_mini) == Some((k, now)) && *final(desk) == *old(desk)
                }
            } else if reaches_screen(*old(menus), captured, demo, alert, p) && b == Button::Left && tb is None && win_at(old(desk).wins@, p) is Some {
                let (k, _) = win_at(old(desk).wins@, p)->0;
                let i = slot_of(k);
                &&& final(desk).ok()
                &&& final(desk).key == Some(k)
                &&& final(desk).zc == old(desk).zc + 1
                &&& final(desk).wins@ == old(desk).wins@.update(i, Win { z: final(desk).zc, ..old(desk).wins@[i] })
                &&& final(desk).activations == old(desk).activations
                &&& *final(last_mini) == *old(last_mini)
            } else {
                *final(desk) == *old(desk) && *final(last_mini) == *old(last_mini)
            }
        }),
{
    if captured || demo {
        return Down::Done;
    }
    proof {
        lemma_slots(WinKind::Alert);
    }
    if let Some(a) = alert {
        match btn_hit(desk, menus, alert, w, h, dock_visible, n, p) {
            Target::Btn(Btn::AlertBtn(i)) => return Down::Capture(Capture::Press(Btn::AlertBtn(i))),
            _ => {},
        }
        let aw = desk.win(WinKind::Alert);
        if aw.title_bar().contains(p) {
            return Down::Capture(Capture::WinMove { k: WinKind::Alert, grab: pt(p.x - aw.r.x, p.y - aw.r.y) });
        }
        return Down::Done;
    }
    proof {
        lemma_hit_from_index(menus.menus@, p, menus.menus@.len() as int);
    }
    if let Some((i, part)) = menus.menu_hit(p) {
        if b != Button::Left {
            return Down::Done;
        }
        let id = menus.menus[i].id;
        match part {
            MenuPart::Close => return Down::Capture(Capture::Press(Btn::MenuClose(id))),
            MenuPart::Title => {
                let pos = menus.menus[i].pos;
                menus.raise(i);
                return Down::Capture(Capture::MenuDrag { m: id, grab: pt(p.x - pos.x, p.y - pos.y), moved: false });
            },
            MenuPart::Item(j) => {
                proof {
                    law_menu_hit_item_contains(menus.menus@[i as int], p, j);
                }
                let it = menus.menus[i].items[j];
                let (disabled, _) = item_state(it.act, cx);
                if disabled {
                    return Down::Done;
                }
                return if it.sub.is_some() {
                    Down::OpenSubmenu(id, j)
                } else {
                    Down::Capture(Capture::Press(Btn::MenuItem(id, j)))
                };
            },
        }
    }
    menus.close_submenus();
    if b == Button::Right {
        let t = tile_btn(desk, w, h, dock_visible, n, p);
        if t.is_none() && desk.win_hit(p).is_none() {
            return Down::Popup;
        }
        return Down::Done;
    }
    if b != Button::Left {
        return Down::Done;
    }
    if let Some(t) = tile_btn(desk, w, h, dock_visible, n, p) {
        return match t {
            Btn::Tile(TileId::App(i)) => Down::Capture(Capture::TilePress { idx: i, start: p, dx: 0, dy: 0 }),
            Btn::Miniwin(k) => {
                let again = match *last_mini {
                    Some((j, t0)) => j == k && (if now >= t0 { now - t0 } else { 0 }) < DOUBLE_MS,
                    None => false,
                };
                if again {
                    *last_mini = None;
                    proof {
                        lemma_mini_kind(desk.wins@, h as int, p, 0);
                    }
                    desk.restore(k);
                } else {
                    *last_mini = Some((k, now));
                }
                Down::Done
            },
            t => Down::Capture(Capture::Press(t)),
        };
    }
    match desk.win_hit(p) {
        Some((k, part)) => {
            proof {
                lemma_hit_kind(desk.wins@, p, desk.wins@.len() as int);
                crate::workspace::lemma_slots(k);
            }
            let r0 = desk.win(k).r;
            desk.make_key(k);
            match part {
                WinPart::MiniBtn => Down::Capture(Capture::Press(Btn::WinMini(k))),
                WinPart::CloseBtn => Down::Capture(Capture::Press(Btn::WinClose(k))),
                WinPart::Title => Down::Capture(Capture::WinMove { k, grab: pt(p.x - r0.x, p.y - r0.y) }),
                WinPart::Resize(region) => Down::Capture(Capture::WinResize { k, start: p, orig: r0, region }),
                WinPart::Content => Down::Content(k),
            }
        },
        None => Down::Done,
    }
}

/// A window that a miniwindow belongs to has a slot.
proof fn lemma_mini_kind(wins: Seq<Win>, h: int, p: Pt, i: int)
    requires
        wins.len() == kinds().len(),
        forall|j: int| 0 <= j < kinds().len() ==> (#[trigger] wins[j]).kind == kinds()[j],
        0 <= i,
    ensures
        mini_at(wins, h, p, i) matches Some(k) ==> kinds().contains(k) && wins[slot_of(k)].kind == k,
    decreases wins.len() - i,
{
    if i < wins.len() {
        lemma_mini_kind(wins, h, p, i + 1);
        if let Some(k) = mini_at(wins, h, p, i) {
            assert(kinds().contains(k) && wins[slot_of(k)].kind == k) by {
                if wins[i].kind == k {
                    assert(kinds()[i] == k);
                    lemma_slots(k);
                }
            }
        }
    }
}

/// The window a press lands on has a slot, and it is the slot of its kind.
proof fn lemma_hit_kind(wins: Seq<Win>, p: Pt, n: int)
    requires
        wins.len() == kinds().len(),
        forall|j: int| 0 <= j < kinds().len() ==> (#[trigger] wins[j]).kind == kinds()[j],
        0 <= n <= wins.len(),
    ensures
        hit_upto(wins, p, n) matches Some(i) ==> 0 <= i < n && kinds().contains(wins[i].kind) && slot_of(wins[i].kind) == i,
    decreases n,
{
    if n > 0 {
        lemma_hit_kind(wins, p, n - 1);
    }
    if let Some(i) = hit_upto(wins, p, n) {
        if 0 <= i < wins.len() {
            assert(wins[i].kind == kinds()[i]);
            lemma_slots(wins[i].kind);
        }
    }
}

/// What is left to do once the pointer has moved while captured.
pub enum Moved {
    Nothing,
    /// Window `k` took a new size (the Shell fits its grid to it).
    Resized(WinKind),
    /// The knob of scroller `id`, grabbed at `start` while the scroller stood at `start_pos`,
    /// follows the pointer.
    Knob { id: ScrollId, start: Pt, start_pos: i32 },
    /// A press on a file in column `col` became a drag of the selection.
    DragFiles { col: usize },
    /// A press on shelf slot `idx` became a drag of its path.
    DragShelf { idx: usize },
    /// The Mandelbrot view is dragged from `start`.
    Mandel { start: Pt },
}

/// The menu list once menu `i` has moved so that its title's point `grab` is under `p`.
pub open spec fn menu_to(ms: Seq<MenuInst>, i: int, grab: Pt, p: Pt) -> Seq<MenuInst> {
    torn_off(ms, i).update(i, MenuInst { pos: offset(p, grab), ..torn_off(ms, i)[i] })
}

/// What the capture `cap` asks of the Screen's geometry to follow the pointer to `p`.
pub open spec fn move_fits(desk: Desk, menus: Menus, cap: Capture, p: Pt, sw: int, sh: int) -> bool {
    match cap {
        Capture::WinMove { k, grab } => kinds().contains(k) && fits(p.x - grab.x) && fits(p.y - grab.y)
            && desk.win_spec(k).clamp_fits(sw, sh),
        Capture::WinResize { k, start, orig, .. } => kinds().contains(k) && fits(p.x - start.x) && fits(p.y - start.y)
            && resize_fits(orig, p.x - start.x, p.y - start.y, desk.win_spec(k).min_w as int, desk.win_spec(k).min_h as int),
        Capture::MenuDrag { m, grab, .. } => fits(p.x - grab.x) && fits(p.y - grab.y) && forall|k: int|
            0 <= k < menus.menus@.len() && (#[trigger] menus.menus@[k]).id == m ==> attach_fits(menu_to(menus.menus@, k, grab, p), k),
        Capture::TilePress { start, .. } => fits(p.x - start.x) && fits(p.y - start.y),
        _ => true,
    }
}

/// The pointer moved to `p` while captured by `cap`: a moved window follows it (its title bar
/// kept on a `sw`×`sh` Screen), a resized one takes the new size, a dragged menu follows once
/// it has moved more than 4 pixels, and a press on a file or a shelf slot becomes a drag once
/// the pointer is more than 4 pixels away. Gives the capture that goes on, if one does, and
/// what is left to do.
pub fn mouse_move(desk: &mut Desk, menus: &mut Menus, torn: &mut Vec<TornMenu>, cap: Capture, p: Pt, sw: i32, sh: i32) -> (r: (Option<Capture>, Moved))
    requires
        old(desk).ok(),
        old(menus).wf(),
        move_fits(*old(desk), *old(menus), cap, p, sw as int, sh as int),
    ensures
        final(desk).ok(),
        final(menus).wf(),
        final(desk).key == old(desk).key,
        final(desk).zc == old(desk).zc,
        final(desk).activations == old(desk).activations,
        !(cap is WinMove || cap is WinResize) ==> *final(desk) == *old(desk),
        !(cap is MenuDrag) ==> final(menus).menus@ == old(menus).menus@ && final(torn)@ == old(torn)@,
        final(menus).seq == old(menus).seq,
        match cap {
            Capture::WinMove { k, grab } => r == (Some(Capture::WinMove { k, grab }), Moved::Nothing)
                && final(desk).wins@ == old(desk).wins@.update(slot_of(k), Win {
                    r: Win::clamped(Rect { x: (p.x - grab.x) as i32, y: (p.y - grab.y) as i32, ..old(desk).win_spec(k).r }, sw as int, sh as int),
                    ..old(desk).win_spec(k)
                }),
            Capture::WinResize { k, start, orig, region } => r == (Some(Capture::WinResize { k, start, orig, region }), Moved::Resized(k))
                && final(desk).wins@ == old(desk).wins@.update(slot_of(k), Win {
                    r: resized(orig, p.x - start.x, p.y - start.y, region, old(desk).win_spec(k).min_w as int, old(desk).win_spec(k).min_h as int),
                    ..old(desk).win_spec(k)
                }),
            Capture::MenuDrag { m, grab, moved } => {
                let ms = old(menus).menus@;
                match find_id(ms, m) {
                    None => r == (None::<Capture>, Moved::Nothing) && final(menus).menus@ == ms && final(torn)@ == old(torn)@,
                    Some(k) => {
                        let now = moved || moved_spec(ms[k].pos, offset(p, grab));
                        &&& r == (Some(Capture::MenuDrag { m, grab, moved: now }), Moved::Nothing)
                        &&& !now ==> final(menus).menus@ == ms && final(torn)@ == old(torn)@
                        &&& now ==> placed(menu_to(ms, k, grab, p), k, final(menus).menus@)
                    },
                }
            },
            Capture::Knob { id, start, start_pos } => r == (Some(Capture::Knob { id, start, start_pos }), Moved::Knob { id, start, start_pos }),
            Capture::CellPress { col, idx, start } => if dragged_spec(start, p) {
                r == (None::<Capture>, Moved::DragFiles { col })
            } else {
                r == (Some(Capture::CellPress { col, idx, start }), Moved::Nothing)
            },
            Capture::ShelfPress { idx, start } => if dragged_spec(start, p) {
                r == (None::<Capture>, Moved::DragShelf { idx })
            } else {
                r == (Some(Capture::ShelfPress { idx, start }), Moved::Nothing)
            },
            Capture::TilePress { idx, start, .. } => r == (
                Some(Capture::TilePress { idx, start, dx: (p.x - start.x) as i32, dy: (p.y - start.y) as i32 }),
                Moved::Nothing,
            ),
            Capture::MandelDrag { start } => r == (Some(Capture::MandelDrag { start }), Moved::Mandel { start }),
            Capture::Press(b) => r == (Some(Capture::Press(b)), Moved::Nothing),
            Capture::FileDrag { paths, icon, from_shelf } => r == (Some(Capture::FileDrag { paths, icon, from_shelf }), Moved::Nothing),
        },
{
    match cap {
        Capture::WinMove { k, grab } => {
            desk.drag_win(k, p, grab, sw, sh);
            (Some(Capture::WinMove { k, grab }), Moved::Nothing)
        },
        Capture::WinResize { k, start, orig, region } => {
            desk.resize_win(k, start, p, orig, region);
            (Some(Capture::WinResize { k, start, orig, region }), Moved::Resized(k))
        },
        Capture::MenuDrag { m, grab, moved } => {
            match menus.menu_drag(m, grab, p, moved, torn) {
                Some(now) => (Some(Capture::MenuDrag { m, grab, moved: now }), Moved::Nothing),
                None => (None, Moved::Nothing),
            }
        },
        Capture::Knob { id, start, start_pos } => (Some(Capture::Knob { id, start, start_pos }), Moved::Knob { id, start, start_pos }),
        Capture::CellPress { col, idx, start } => {
            if dragged(start, p) {
                (None, Moved::DragFiles { col })
            } else {
                (Some(Capture::CellPress { col, idx, start }), Moved::Nothing)
            }
        },
        Capture::ShelfPress { idx, start } => {
            if dragged(start, p) {
                (None, Moved::DragShelf { idx })
            } else {
                (Some(Capture::ShelfPress { idx, start }), Moved::Nothing)
            }
        },
        Capture::TilePress { idx, start, .. } => (
            Some(Capture::TilePress { idx, start, dx: p.x - start.x, dy: p.y - start.y }),
            Moved::Nothing,
        ),
        Capture::MandelDrag { start } => (Some(Capture::MandelDrag { start }), Moved::Mandel { start }),
        Capture::Press(b) => (Some(Capture::Press(b)), Moved::Nothing),
        Capture::FileDrag { paths, icon, from_shelf } => (Some(Capture::FileDrag { paths, icon, from_shelf }), Moved::Nothing),
    }
}

/// What letting go of the mouse does, by what it was doing since the press.
pub enum Release {
    Nothing,
    /// A pressed control let go over itself.
    Activate(Btn),
    /// A window was moved or resized: its frame goes to the saved state.
    SyncWin(WinKind),
    /// A menu was dragged: it may tear off or reattach.
    MenuMoved(u64),
    /// Files dragged from the File Viewer (or a shelf slot) are dropped at the pointer.
    Drop { paths: Vec<String>, from_shelf: Option<usize> },
    /// A Dock tile let go after moving by (`dx`, `dy`).
    TileRelease { idx: usize, dx: i32, dy: i32 },
    /// The end of a drag in the Mandelbrot view that began at `start`.
    MandelRelease { start: Pt },
}

/// What letting go does after the capture `cap`, with `hit` the control now under the pointer:
/// a press activates its control only when let go over it; a menu drag counts only once it
/// moved; a press on a file or a slider knob ends with nothing more.
pub open spec fn release_spec(cap: Capture, hit: Option<Btn>) -> Release {
    match cap {
        Capture::Press(b) => if hit == Some(b) { Release::Activate(b) } else { Release::Nothing },
        Capture::WinMove { k, .. } => Release::SyncWin(k),
        Capture::WinResize { k, .. } => Release::SyncWin(k),
        Capture::MenuDrag { m, moved, .. } => if moved { Release::MenuMoved(m) } else { Release::Nothing },
        Capture::CellPress { .. } => Release::Nothing,
        Capture::Knob { .. } => Release::Nothing,
        Capture::ShelfPress { idx, .. } => if hit == Some(Btn::Shelf(idx)) {
            Release::Activate(Btn::Shelf(idx))
        } else {
            Release::Nothing
        },
        Capture::FileDrag { paths, from_shelf, .. } => Release::Drop { paths, from_shelf },
        Capture::TilePress { idx, dx, dy, .. } => Release::TileRelease { idx, dx, dy },
        Capture::MandelDrag { start } => Release::MandelRelease { start },
    }
}

/// What letting go of the mouse does after the capture `cap`.
pub fn release(cap: Capture, hit: Option<Btn>) -> (r: Release)
    ensures
        r == release_spec(cap, hit),
{
    match cap {
        Capture::Press(b) => if hit == Some(b) {
            Release::Activate(b)
        } else {
            Release::Nothing
        },
        Capture::WinMove { k, .. } => Release::SyncWin(k),
        Capture::WinResize { k, .. } => Release::SyncWin(k),
        Capture::MenuDrag { m, moved, .. } => if moved {
            Release::MenuMoved(m)
        } else {
            Release::Nothing
        },
        Capture::CellPress { .. } => Release::Nothing,
        Capture::Knob { .. } => Release::Nothing,
        Capture::ShelfPress { idx, .. } => if hit == Some(Btn::Shelf(idx)) {
            Release::Activate(Btn::Shelf(idx))
        } else {
            Release::Nothing
        },
        Capture::FileDrag { paths, from_shelf, .. } => Release::Drop { paths, from_shelf },
        Capture::TilePress { idx, dx, dy, .. } => Release::TileRelease { idx, dx, dy },
        Capture::MandelDrag { start } => Release::MandelRelease { start },
    }
}


/// What closing a surface from outside (the OS's close command) comes to: the same operation as
/// the Workspace's own controls.
#[derive(Clone, Copy, PartialEq, Eq, Debug, Structural)]
pub enum CloseDo {
    /// The alert's first button is pressed.
    AlertButton0,
    CloseWin(WinKind),
    Quit,
    CloseTorn(u64),
    CloseSubmenus,
    HideBackdrop,
    HideDock,
    HideRecycler,
    Nothing,
}

pub open spec fn close_route_spec(ms: Seq<MenuInst>, id: SurfaceId) -> CloseDo {
    match id {
        SurfaceId::Win(WinKind::Alert) => CloseDo::AlertButton0,
        SurfaceId::Win(k) => CloseDo::CloseWin(k),
        SurfaceId::Miniwin(k) => CloseDo::CloseWin(k),
        SurfaceId::Menu(m) => match find_id(ms, m) {
            Some(i) => match ms[i].kind {
                MenuKind::Main => CloseDo::Quit,
                MenuKind::Torn => CloseDo::CloseTorn(m),
                _ => CloseDo::CloseSubmenus,
            },
            None => CloseDo::Nothing,
        },
        SurfaceId::AppTile => CloseDo::Quit,
        SurfaceId::Backdrop => CloseDo::HideBackdrop,
        SurfaceId::Dock => CloseDo::HideDock,
        SurfaceId::Recycler => CloseDo::HideRecycler,
        SurfaceId::DragIcon => CloseDo::Nothing,
    }
}

/// Routes the OS's close of surface `id`: the alert presses its first button, a window or
/// miniwindow closes, the main menu and the application tile quit, a torn-off menu closes,
/// another menu closes its submenus, and the backdrop, the Dock and the Recycler tile are hidden.
pub fn close_route(menus: &Menus, id: SurfaceId) -> (r: CloseDo)
    ensures
        r == close_route_spec(menus.menus@, id),
{
    match id {
        SurfaceId::Win(WinKind::Alert) => CloseDo::AlertButton0,
        SurfaceId::Win(k) => CloseDo::CloseWin(k),
        SurfaceId::Miniwin(k) => CloseDo::CloseWin(k),
        SurfaceId::Menu(m) => match menus.index_of(m) {
            Some(i) => match menus.menus[i].kind {
                MenuKind::Main => CloseDo::Quit,
                MenuKind::Torn => CloseDo::CloseTorn(m),
                _ => CloseDo::CloseSubmenus,
            },
            None => CloseDo::Nothing,
        },
        SurfaceId::AppTile => CloseDo::Quit,
        SurfaceId::Backdrop => CloseDo::HideBackdrop,
        SurfaceId::Dock => CloseDo::HideDock,
        SurfaceId::Recycler => CloseDo::HideRecycler,
        SurfaceId::DragIcon => CloseDo::Nothing,
    }
}

} // verus!
