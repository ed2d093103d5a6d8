//! The Workspace as a whole: the results background jobs hand back, modal alerts, the controls and
//! surfaces of the Screen, the window slots, and the clock the Console stamps its lines with.
use vstd::prelude::*;
use crate::chrome::{tdiv, WinKind};
use crate::dock::TileId;
use crate::files::{Entry, Meta};
use crate::geom::{Pt, Rect};
use crate::inspector::{padded, padded_string, rem_euclid};
use crate::mandel::MBtn;
use crate::text::push_str;

verus! {

/// Background job results, delivered on the UI thread.
#[derive(Debug)]
pub enum Job {
    Listed { col_id: u64, seq: u64, result: Result<Vec<Entry>, String>, quiet: bool },
    Meta { path: String, result: Result<Meta, String> },
    Text { path: String, result: Result<String, String> },
    ImageBytes { path: String, result: Result<Vec<u8>, String> },
    DirSize { path: String, result: Result<u64, String> },
    AppIcon { app: String, result: Result<Vec<u8>, String> },
    TrashState(Result<bool, String>),
    TrashList { seq: u64, result: Result<Vec<Entry>, String> },
    Done { what: String, result: Result<(), String> },
    NewFolder(Result<String, String>),
    Mandel { seq: u64, iters: Vec<u16>, ms: u32 },
    TermWake,
    TermTitle(String),
    TermWrite(String),
    TermExit,
}

/// What a modal alert does when its confirming (rightmost) button is pressed.
#[derive(Clone, Debug)]
pub enum Pending {
    Nothing,
    Trash(Vec<String>),
    Destroy(Vec<String>),
    EmptyTrash,
}

pub struct Alert {
    pub message: String,
    pub detail: String,
    pub buttons: Vec<String>,
    pub pending: Pending,
    pub prev_key: Option<WinKind>,
}

#[derive(Clone, Copy, PartialEq, Eq, Debug, Structural)]
pub enum ScrollId {
    Col(u64),
    Browser,
    Console,
    InspText,
    Recycler,
    Shell,
}

/// Every press-and-release control on the Screen.
#[derive(Clone, Copy, PartialEq, Eq, Debug, Structural)]
pub enum Btn {
    WinMini(WinKind),
    WinClose(WinKind),
    MenuClose(u64),
    MenuItem(u64, usize),
    AlertBtn(usize),
    Tile(TileId),
    Miniwin(WinKind),
    ScrollArrow(ScrollId, i8),
    Shelf(usize),
    PathItem(usize),
    InspPopup,
    InspRow(usize),
    InspCompute,
    RecBtn,
    Cell(usize, usize),
    Mandel(MBtn),
}

/// What the mouse is doing between a press and its release.
pub enum Capture {
    Press(Btn),
    WinMove { k: WinKind, grab: Pt },
    WinResize { k: WinKind, start: Pt, orig: Rect, region: i8 },
    MenuDrag { m: u64, grab: Pt, moved: bool },
    Knob { id: ScrollId, start: Pt, start_pos: i32 },
    CellPress { col: usize, idx: usize, start: Pt },
    ShelfPress { idx: usize, start: Pt },
    FileDrag { paths: Vec<String>, icon: &'static str, from_shelf: Option<usize> },
    TilePress { idx: usize, start: Pt, dx: i32, dy: i32 },
    MandelDrag { start: Pt },
}

/// One real OS window in multi-window mode (or one layer of the headless composite).
#[derive(Clone, Copy, PartialEq, Eq, Hash, Debug, Structural)]
pub enum SurfaceId {
    Backdrop,
    Win(WinKind),
    Menu(u64),
    Dock,
    Recycler,
    AppTile,
    Miniwin(WinKind),
    DragIcon,
}

#[derive(Clone, Copy, PartialEq, Eq, Debug, Structural)]
pub enum Level {
    Bottom,
    Normal,
    Top,
}

pub struct SurfaceInfo {
    pub id: SurfaceId,
    pub r: Rect,
    pub level: Level,
    pub title: String,
}

/// Every kind of window, in the order of their slots on the desk.
pub open spec fn kinds() -> Seq<WinKind> {
    seq![
        WinKind::FileViewer,
        WinKind::Inspector,
        WinKind::Console,
        WinKind::Info,
        WinKind::Recycler,
        WinKind::Mandelbrot,
        WinKind::Shell,
        WinKind::Alert,
        WinKind::Improv,
        WinKind::Concurrence,
        WinKind::Librarian,
        WinKind::Preferences,
        WinKind::Help,
    ]
}

/// The slot of a window kind that has one.
pub open spec fn slot_of(k: WinKind) -> int {
    match k {
        WinKind::FileViewer => 0,
        WinKind::Inspector => 1,
        WinKind::Console => 2,
        WinKind::Info => 3,
        WinKind::Recycler => 4,
        WinKind::Mandelbrot => 5,
        WinKind::Shell => 6,
        WinKind::Alert => 7,
        WinKind::Improv => 8,
        WinKind::Concurrence => 9,
        WinKind::Librarian => 10,
        WinKind::Preferences => 11,
        WinKind::Help => 12,
    }
}

pub proof fn lemma_slots(k: WinKind)
    ensures
        kinds().contains(k),
        kinds().contains(k) <==> slot_of(k) >= 0,
        slot_of(k) >= 0 ==> slot_of(k) < kinds().len() && kinds()[slot_of(k)] == k,
        forall|i: int| 0 <= i < kinds().len() ==> slot_of(#[trigger] kinds()[i]) == i,
{
    assert(kinds()[slot_of(k)] == k);
}

/// The slot of window kind `k`.
pub fn wi(k: WinKind) -> (i: usize)
    ensures
        i < kinds().len(),
        kinds()[i as int] == k,
        i == slot_of(k),
{
    match k {
        WinKind::FileViewer => 0,
        WinKind::Inspector => 1,
        WinKind::Console => 2,
        WinKind::Info => 3,
        WinKind::Recycler => 4,
        WinKind::Mandelbrot => 5,
        WinKind::Shell => 6,
        WinKind::Alert => 7,
        WinKind::Improv => 8,
        WinKind::Concurrence => 9,
        WinKind::Librarian => 10,
        WinKind::Preferences => 11,
        WinKind::Help => 12,
    }
}

/// The clock as `hh:mm:ss` for `local` seconds since the epoch in local time. The hours and
/// minutes are taken from Rust's truncating division, then brought into range.
pub open spec fn clock_spec(local: int) -> Seq<char> {
    padded(tdiv(local, 3600) % 24, 2) + ":"@ + padded(tdiv(local, 60) % 60, 2) + ":"@ + padded(local % 60, 2)
}

fn div_toward_zero(a: i64, b: i64) -> (q: i64)
    requires
        a > i64::MIN,
        b > 0,
    ensures
        q == tdiv(a as int, b as int),
{
    if a >= 0 {
        a / b
    } else {
        -((-a) / b)
    }
}

/// The time stamp of a Console line: `secs` since the epoch, shifted by the local zone's `offset`
/// from UTC.
pub fn ts(secs: u64, offset: i64) -> (r: String)
    requires
        secs <= i64::MAX,
        i64::MIN < secs + offset <= i64::MAX,
    ensures
        r@ == clock_spec(secs + offset),
{
    let local: i64 = secs as i64 + offset;
    let hq = div_toward_zero(local, 3600);
    let mq = div_toward_zero(local, 60);
    let h = rem_euclid(hq, 24);
    let m = rem_euclid(mq, 60);
    let s = rem_euclid(local, 60);
    let mut out = padded_string(h, 2);
    push_str(&mut out, ":");
    push_str(&mut out, padded_string(m, 2).as_str());
    push_str(&mut out, ":");
    push_str(&mut out, padded_string(s, 2).as_str());
    out
}

} // verus!
