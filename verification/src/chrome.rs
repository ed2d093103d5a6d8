//! Window chrome, scrollers and menus: their geometry and hit-testing, as measured from NeXTSTEP.
use vstd::prelude::*;
use crate::geom::{fits, larger, smaller, rect, Pt, Rect};
use crate::text::{chars_of, same};

verus! {

pub const TITLE_H: i32 = 22;

pub const RESIZE_H: i32 = 8;

pub const MENU_ITEM_H: i32 = 20;

pub const MENU_TITLE_H: i32 = 22;

pub const SCROLL_W: i32 = 21;

pub const BTN_H: i32 = 24;

// ---- windows -------------------------------------------------------------------------------

#[derive(Clone, Copy, PartialEq, Eq, Debug, Hash, Structural)]
pub enum WinKind {
    FileViewer,
    Inspector,
    Console,
    Info,
    Recycler,
    Mandelbrot,
    Improv,
    Shell,
    Concurrence,
    Alert,
    Librarian,
    Preferences,
    Help,
}

#[derive(Clone, Copy, PartialEq, Eq, Debug, Structural)]
pub enum WinPart {
    Title,
    MiniBtn,
    CloseBtn,
    Resize(i8),
    Content,
}

pub struct Win {
    pub kind: WinKind,
    pub r: Rect,
    pub title: String,
    pub min_w: i32,
    pub min_h: i32,
    pub resizable: bool,
    pub mini_btn: bool,
    pub close_btn: bool,
    pub chrome: bool,
    pub visible: bool,
    pub mini: Option<usize>,
    pub icon: &'static str,
    pub z: u32,
}

/// A rectangle given as a spec value.
pub open spec fn rc(x: int, y: int, w: int, h: int) -> Rect {
    Rect { x: x as i32, y: y as i32, w: w as i32, h: h as i32 }
}

impl Win {
    /// Every sum the window's geometry computes fits in an `i32`.
    pub open spec fn geom_fits(&self) -> bool {
        let r = self.r;
        &&& r.edges_fit()
        &&& fits(r.x + r.w - 29)
        &&& fits(r.y + r.h - RESIZE_H)
        &&& fits(r.h - TITLE_H - RESIZE_H)
        &&& fits(r.y + TITLE_H)
        &&& fits(r.x + 29)
        &&& fits(r.x + r.w - 17)
        &&& fits(r.x + 3)
        &&& fits(r.y + 3)
    }

    pub open spec fn title_h(&self) -> int {
        if self.chrome { TITLE_H as int } else { 0 }
    }

    pub open spec fn title_bar_spec(&self) -> Rect {
        rc(self.r.x as int, self.r.y as int, self.r.w as int, self.title_h())
    }

    pub open spec fn content_spec(&self) -> Rect {
        let t = self.title_h();
        rc(
            self.r.x as int,
            self.r.y + t,
            self.r.w as int,
            self.r.h - t - if self.resizable { RESIZE_H as int } else { 0 },
        )
    }

    pub open spec fn resize_bar_spec(&self) -> Option<Rect> {
        if self.resizable {
            Some(rc(self.r.x as int, self.r.y + self.r.h - RESIZE_H, self.r.w as int, RESIZE_H as int))
        } else {
            None
        }
    }

    pub open spec fn mini_rect_spec(&self) -> Option<Rect> {
        if self.mini_btn && self.chrome {
            Some(rc(self.r.x + 3, self.r.y + 3, 14, 14))
        } else {
            None
        }
    }

    pub open spec fn close_rect_spec(&self) -> Option<Rect> {
        if self.close_btn && self.chrome {
            Some(rc(self.r.x + self.r.w - 17, self.r.y + 3, 14, 14))
        } else {
            None
        }
    }

    pub open spec fn in_opt(o: Option<Rect>, p: Pt) -> bool {
        match o {
            Some(r) => r.has(p),
            None => false,
        }
    }

    /// Which part of the window is under `p`: buttons first, then the title bar, the resize bar
    /// (its outer 29 px are the corner grips) and otherwise the content.
    pub open spec fn hit_spec(&self, p: Pt) -> Option<WinPart> {
        if !self.r.has(p) {
            None
        } else if Self::in_opt(self.mini_rect_spec(), p) {
            Some(WinPart::MiniBtn)
        } else if Self::in_opt(self.close_rect_spec(), p) {
            Some(WinPart::CloseBtn)
        } else if self.title_bar_spec().has(p) {
            Some(WinPart::Title)
        } else if Self::in_opt(self.resize_bar_spec(), p) {
            let rb = self.resize_bar_spec().unwrap();
            Some(
                WinPart::Resize(
                    if p.x < rb.x + 29 {
                        -1i8
                    } else if p.x >= rb.x + rb.w - 29 {
                        1i8
                    } else {
                        0i8
                    },
                ),
            )
        } else {
            Some(WinPart::Content)
        }
    }

    pub fn new(kind: WinKind, r: Rect, title: &str, icon: &'static str) -> (w: Win)
        ensures
            w.kind == kind,
            w.r == r,
            w.title@ == title@,
            w.icon == icon,
            w.min_w == 120 && w.min_h == 60,
            w.resizable && w.mini_btn && w.close_btn && w.chrome,
            !w.visible,
            w.mini is None,
            w.z == 0,
    {
        Win {
            kind,
            r,
            title: String::from_str(title),
            min_w: 120,
            min_h: 60,
            resizable: true,
            mini_btn: true,
            close_btn: true,
            chrome: true,
            visible: false,
            mini: None,
            icon,
            z: 0,
        }
    }

    /// A window without chrome (the Concurrence show) is all content.
    pub fn title_bar(&self) -> (t: Rect)
        ensures
            t == self.title_bar_spec(),
    {
        rect(self.r.x, self.r.y, self.r.w, if self.chrome { TITLE_H } else { 0 })
    }

    pub fn content(&self) -> (c: Rect)
        requires
            self.geom_fits(),
        ensures
            c == self.content_spec(),
    {
        let t = self.title_bar().h;
        rect(self.r.x, self.r.y + t, self.r.w, self.r.h - t - if self.resizable { RESIZE_H } else { 0 })
    }

    pub fn resize_bar(&self) -> (b: Option<Rect>)
        requires
            self.geom_fits(),
        ensures
            b == self.resize_bar_spec(),
    {
        if self.resizable {
            Some(rect(self.r.x, self.r.bottom() - RESIZE_H, self.r.w, RESIZE_H))
        } else {
            None
        }
    }

    pub fn mini_rect(&self) -> (b: Option<Rect>)
        requires
            self.geom_fits(),
        ensures
            b == self.mini_rect_spec(),
    {
        if self.mini_btn && self.chrome {
            Some(rect(self.r.x + 3, self.r.y + 3, 14, 14))
        } else {
            None
        }
    }

    pub fn close_rect(&self) -> (b: Option<Rect>)
        requires
            self.geom_fits(),
        ensures
            b == self.close_rect_spec(),
    {
        if self.close_btn && self.chrome {
            Some(rect(self.r.right() - 17, self.r.y + 3, 14, 14))
        } else {
            None
        }
    }

    pub fn shown(&self) -> (b: bool)
        ensures
            b == (self.visible && self.mini is None),
    {
        self.visible && self.mini.is_none()
    }

    pub fn hit(&self, p: Pt) -> (h: Option<WinPart>)
        requires
            self.geom_fits(),
        ensures
            h == self.hit_spec(p),
    {
        if !self.r.contains(p) {
            return None;
        }
        if let Some(b) = self.mini_rect() {
            if b.contains(p) {
                return Some(WinPart::MiniBtn);
            }
        }
        if let Some(b) = self.close_rect() {
            if b.contains(p) {
                return Some(WinPart::CloseBtn);
            }
        }
        if self.title_bar().contains(p) {
            return Some(WinPart::Title);
        }
        if let Some(rb) = self.resize_bar() {
            if rb.contains(p) {
                let region: i8 = if p.x < rb.x + 29 {
                    -1
                } else if p.x >= rb.right() - 29 {
                    1
                } else {
                    0
                };
                return Some(WinPart::Resize(region));
            }
        }
        Some(WinPart::Content)
    }

    pub open spec fn clamp_fits(&self, sw: int, sh: int) -> bool {
        fits(20 - self.r.w) && fits(sw - 20) && fits(sh - 20)
    }

    /// The title bar must stay at least 20 px inside the Screen on every side.
    pub open spec fn clamped(r: Rect, sw: int, sh: int) -> Rect {
        Rect {
            x: smaller(larger(r.x as int, 20 - r.w), sw - 20) as i32,
            y: smaller(larger(r.y as int, 20 - TITLE_H), sh - 20) as i32,
            w: r.w,
            h: r.h,
        }
    }

    pub fn clamp(&mut self, sw: i32, sh: i32)
        requires
            old(self).clamp_fits(sw as int, sh as int),
        ensures
            *final(self) == (Win { r: Self::clamped(old(self).r, sw as int, sh as int), ..*old(self) }),
            final(self).r == Self::clamped(old(self).r, sw as int, sh as int),
            final(self).kind == old(self).kind,
            final(self).title == old(self).title,
            final(self).resizable == old(self).resizable,
            final(self).chrome == old(self).chrome,
            final(self).visible == old(self).visible,
            final(self).mini == old(self).mini,
            final(self).z == old(self).z,
    {
        let lo = 20 - self.r.w;
        let hi = sw - 20;
        let x = if self.r.x >= lo { self.r.x } else { lo };
        self.r.x = if x <= hi { x } else { hi };
        let lo = 20 - TITLE_H;
        let hi = sh - 20;
        let y = if self.r.y >= lo { self.r.y } else { lo };
        self.r.y = if y <= hi { y } else { hi };
    }
}

/// Clamping keeps at least 20 px of the title bar on the Screen, whenever the Screen is big enough
/// for that to be possible, and clamping again changes nothing.
pub proof fn law_clamp_keeps_title_on_screen(r: Rect, sw: int, sh: int)
    requires
        fits(20 - r.w),
        fits(sw - 20),
        fits(sh - 20),
        20 - r.w <= sw - 20,
        20 - TITLE_H <= sh - 20,
    ensures
        ({
            let c = Win::clamped(r, sw, sh);
            &&& c.x + c.w >= 20
            &&& c.x <= sw - 20
            &&& c.y + TITLE_H >= 20
            &&& c.y <= sh - 20
            &&& Win::clamped(c, sw, sh) == c
        }),
{
}

/// Clamping is settled after once: a clamped frame clamps to itself, whatever the Screen size.
pub proof fn law_clamp_settles(r: Rect, sw: int, sh: int)
    requires
        fits(20 - r.w),
        fits(sw - 20),
        fits(sh - 20),
    ensures
        Win::clamped(Win::clamped(r, sw, sh), sw, sh) == Win::clamped(r, sw, sh),
        Win::clamped(r, sw, sh).w == r.w && Win::clamped(r, sw, sh).h == r.h,
{
}

/// A scroller whose content fits has nowhere to scroll: its largest position is 0, and it shows
/// no knob and no arrows, so no press on it lands on a part.
pub proof fn law_fitting_scroller_is_only_its_slot(s: Scroller, p: Pt)
    ensures
        s.max_pos_spec() == if s.total >= s.visible { s.total - s.visible } else { 0 },
        s.fits_spec() <==> s.max_pos_spec() == 0,
        s.fits_spec() ==> s.knob_spec() is None && s.hit_spec(p) is None,
{
}

/// Miniwindow tile for `slot`, in a row along the bottom of the Screen.
pub fn miniwindow_rect(slot: usize, sh: i32) -> (r: Rect)
    requires
        64 * (slot + 1) <= i32::MAX,
        fits(sh - 64),
    ensures
        r == rc(64 * (slot + 1), sh - 64, 64, 64),
{
    rect(64 * (slot as i32 + 1), sh - 64, 64, 64)
}

// ---- scroller -----------------------------------------------------------------------------

#[derive(Clone, Copy, PartialEq, Eq, Debug, Structural)]
pub enum ScrollHit {
    ArrowA,
    ArrowB,
    PageBack,
    PageFwd,
    Knob,
}

/// Rust's division, which truncates toward zero.
pub open spec fn tdiv(a: int, b: int) -> int {
    if a >= 0 { a / b } else { -((-a) / b) }
}

#[derive(Clone, Copy, Debug)]
pub struct Scroller {
    pub r: Rect,
    pub vertical: bool,
    pub frame: bool,
    pub arrows: bool,
    pub total: i32,
    pub visible: i32,
    pub pos: i32,
}

impl Scroller {
    pub open spec fn max_pos_spec(&self) -> int {
        larger(self.total - self.visible, 0)
    }

    pub open spec fn fits_spec(&self) -> bool {
        self.total <= self.visible
    }

    pub open spec fn len_spec(&self) -> int {
        if self.vertical { self.r.h as int } else { self.r.w as int }
    }

    pub open spec fn inset_spec(&self) -> int {
        if self.frame { 3 } else { 1 }
    }

    pub open spec fn show_arrows_spec(&self) -> bool {
        self.arrows && !self.fits_spec()
    }

    pub open spec fn tail_spec(&self) -> int {
        if self.show_arrows_spec() { 35 } else { 1 }
    }

    pub open spec fn track_len_spec(&self) -> int {
        self.len_spec() - self.inset_spec() - self.tail_spec()
    }

    pub open spec fn knob_len_spec(&self) -> int {
        let tl = self.track_len_spec();
        smaller(larger(tdiv(tl * self.visible, larger(self.total as int, 1)), 16), tl)
    }

    pub open spec fn arrow_a_spec(&self) -> Rect {
        let o = self.inset_spec();
        if self.vertical {
            rc(self.r.x + o, self.r.y + self.r.h - 34, 15, 15)
        } else {
            rc(self.r.x + self.r.w - 34, self.r.y + o, 15, 15)
        }
    }

    pub open spec fn arrow_b_spec(&self) -> Rect {
        let o = self.inset_spec();
        if self.vertical {
            rc(self.r.x + o, self.r.y + self.r.h - 17, 15, 15)
        } else {
            rc(self.r.x + self.r.w - 17, self.r.y + o, 15, 15)
        }
    }

    pub open spec fn knob_spec(&self) -> Option<Rect> {
        if self.fits_spec() {
            None
        } else {
            let tl = self.track_len_spec();
            let kl = self.knob_len_spec();
            let m = self.max_pos_spec();
            let off = if m == 0 {
                0
            } else {
                tdiv((tl - kl) * smaller(larger(self.pos as int, 0), m), m)
            };
            let o = self.inset_spec();
            Some(
                if self.vertical {
                    rc(self.r.x + o, self.r.y + o + off, 15, kl - 1)
                } else {
                    rc(self.r.x + o + off, self.r.y + o, kl - 1, 15)
                },
            )
        }
    }

    /// Every sum the geometry computes fits in an `i32`.
    pub open spec fn well_sized(&self) -> bool {
        &&& self.r.edges_fit()
        &&& fits(self.r.x + 3)
        &&& fits(self.r.y + 3)
        &&& fits(self.r.x + self.r.w + 3)
        &&& fits(self.r.y + self.r.h + 3)
        &&& fits(self.r.x + 18)
        &&& fits(self.r.y + 18)
        &&& fits(self.r.x + self.r.w - 40)
        &&& fits(self.r.y + self.r.h - 40)
        &&& fits(self.r.w - 39)
        &&& fits(self.r.h - 39)
        &&& 0 <= self.visible
        &&& fits(self.total - self.visible)
    }

    pub fn framed(r: Rect, vertical: bool, total: i32, visible: i32, pos: i32) -> (s: Scroller)
        ensures
            s == (Scroller { r, vertical, frame: true, arrows: true, total, visible, pos }),
    {
        Scroller { r, vertical, frame: true, arrows: true, total, visible, pos }
    }

    pub fn max_pos(&self) -> (m: i32)
        requires
            fits(self.total - self.visible),
        ensures
            m == self.max_pos_spec(),
    {
        let d = self.total - self.visible;
        if d >= 0 {
            d
        } else {
            0
        }
    }

    pub fn fits(&self) -> (b: bool)
        ensures
            b == self.fits_spec(),
    {
        self.total <= self.visible
    }

    fn len(&self) -> (l: i32)
        ensures
            l == self.len_spec(),
    {
        if self.vertical {
            self.r.h
        } else {
            self.r.w
        }
    }

    /// Faces start after the frame (dark, black) and a 1 px light margin.
    fn inset(&self) -> (i: i32)
        ensures
            i == self.inset_spec(),
    {
        if self.frame {
            3
        } else {
            1
        }
    }

    /// Knob and arrows are hidden when everything is visible.
    fn show_arrows(&self) -> (b: bool)
        ensures
            b == self.show_arrows_spec(),
    {
        self.arrows && !self.fits()
    }

    fn tail(&self) -> (t: i32)
        ensures
            t == self.tail_spec(),
    {
        if self.show_arrows() {
            35
        } else {
            1
        }
    }

    fn track_len(&self) -> (t: i32)
        requires
            self.well_sized(),
        ensures
            t == self.track_len_spec(),
    {
        self.len() - self.inset() - self.tail()
    }

    pub fn arrow_a(&self) -> (a: Rect)
        requires
            self.well_sized(),
        ensures
            a == self.arrow_a_spec(),
    {
        let o = self.inset();
        if self.vertical {
            rect(self.r.x + o, self.r.bottom() - 34, 15, 15)
        } else {
            rect(self.r.right() - 34, self.r.y + o, 15, 15)
        }
    }

    pub fn arrow_b(&self) -> (b: Rect)
        requires
            self.well_sized(),
        ensures
            b == self.arrow_b_spec(),
    {
        let o = self.inset();
        if self.vertical {
            rect(self.r.x + o, self.r.bottom() - 17, 15, 15)
        } else {
            rect(self.r.right() - 17, self.r.y + o, 15, 15)
        }
    }

    fn knob_len(&self) -> (k: i32)
        requires
            self.well_sized(),
        ensures
            k == self.knob_len_spec(),
    {
        let tl = self.track_len();
        let t: i64 = if self.total >= 1 {
            self.total as i64
        } else {
            1
        };
        assert(-0x80000000 * 0x80000000 <= tl as i64 * self.visible as i64 <= 0x80000000 * 0x80000000)
            by (nonlinear_arith)
            requires
                -0x80000000 <= tl <= 0x7fffffff,
                0 <= self.visible <= 0x7fffffff,
        ;
        let q: i64 = (tl as i64 * self.visible as i64) / t;
        let a: i64 = if q >= 16 {
            q
        } else {
            16
        };
        let b: i64 = if a <= tl as i64 {
            a
        } else {
            tl as i64
        };
        b as i32
    }

    /// Knob face (its shadow is drawn outside, like every raised control).
    pub fn knob(&self) -> (k: Option<Rect>)
        requires
            self.well_sized(),
        ensures
            k == self.knob_spec(),
    {
        if self.fits() {
            return None;
        }
        let tl = self.track_len();
        let kl = self.knob_len();
        let m = self.max_pos();
        let off: i32 = if m == 0 {
            0
        } else {
            let c: i32 = if self.pos < 0 {
                0
            } else if self.pos > m {
                m
            } else {
                self.pos
            };
            assert(0 <= tl - kl <= 0x7fffffff);
            assert(0 <= (tl - kl) as i64 * c as i64 <= 0x7fffffff * 0x80000000) by (nonlinear_arith)
                requires
                    0 <= tl - kl <= 0x7fffffff,
                    0 <= c <= 0x7fffffff,
            ;
            let q = ((tl - kl) as i64 * c as i64) / m as i64;
            assert(q <= tl - kl) by (nonlinear_arith)
                requires
                    0 <= tl - kl,
                    0 <= c <= m,
                    m > 0,
                    q == ((tl - kl) as int * c as int) / (m as int),
            ;
            q as i32
        };
        let o = self.inset();
        Some(
            if self.vertical {
                rect(self.r.x + o, self.r.y + o + off, 15, kl - 1)
            } else {
                rect(self.r.x + o + off, self.r.y + o, kl - 1, 15)
            },
        )
    }

    pub open spec fn drag_spec(&self, start_pos: int, delta: int) -> int {
        let free = self.track_len_spec() - self.knob_len_spec();
        if free <= 0 {
            start_pos
        } else {
            smaller(
                larger(start_pos + tdiv(delta * self.max_pos_spec(), free), 0),
                self.max_pos_spec(),
            )
        }
    }

    /// The position after dragging the knob by `delta` pixels from `start_pos`.
    pub fn drag_pos(&self, start_pos: i32, delta: i32) -> (p: i32)
        requires
            self.well_sized(),
            fits(start_pos + tdiv(delta * self.max_pos_spec(), self.track_len_spec() - self.knob_len_spec())),
        ensures
            p == self.drag_spec(start_pos as int, delta as int),
    {
        let free = self.track_len() - self.knob_len();
        if free <= 0 {
            return start_pos;
        }
        let m = self.max_pos();
        assert(-0x80000000 * 0x80000000 <= delta as i64 * m as i64 <= 0x80000000 * 0x80000000)
            by (nonlinear_arith)
            requires
                -0x80000000 <= delta <= 0x7fffffff,
                0 <= m <= 0x7fffffff,
        ;
        let q: i64 = (delta as i64 * m as i64) / free as i64;
        let v = start_pos as i64 + q;
        let c = if v < 0 {
            0
        } else if v > m as i64 {
            m as i64
        } else {
            v
        };
        c as i32
    }

    pub open spec fn hit_spec(&self, p: Pt) -> Option<ScrollHit> {
        if !self.r.has(p) {
            None
        } else if self.show_arrows_spec() && self.arrow_a_spec().has(p) {
            Some(ScrollHit::ArrowA)
        } else if self.show_arrows_spec() && self.arrow_b_spec().has(p) {
            Some(ScrollHit::ArrowB)
        } else {
            match self.knob_spec() {
                None => None,
                Some(k) => if k.has(p) {
                    Some(ScrollHit::Knob)
                } else if (if self.vertical { p.y < k.y } else { p.x < k.x }) {
                    Some(ScrollHit::PageBack)
                } else {
                    Some(ScrollHit::PageFwd)
                },
            }
        }
    }

    proof fn lemma_knob_small(&self)
        requires
            self.well_sized(),
        ensures
            self.knob_spec() matches Some(k) ==> k.edges_fit(),
    {
        if !self.fits_spec() {
            let tl = self.track_len_spec();
            let kl = self.knob_len_spec();
            let m = self.max_pos_spec();
            if m != 0 {
                let c = smaller(larger(self.pos as int, 0), m);
                assert(0 <= tdiv((tl - kl) * c, m) <= tl - kl) by (nonlinear_arith)
                    requires
                        0 <= tl - kl,
                        0 <= c <= m,
                        m > 0,
                ;
            }
        }
    }

    pub fn hit(&self, p: Pt) -> (h: Option<ScrollHit>)
        requires
            self.well_sized(),
        ensures
            h == self.hit_spec(p),
    {
        if !self.r.contains(p) {
            return None;
        }
        if self.show_arrows() {
            if self.arrow_a().contains(p) {
                return Some(ScrollHit::ArrowA);
            }
            if self.arrow_b().contains(p) {
                return Some(ScrollHit::ArrowB);
            }
        }
        proof {
            self.lemma_knob_small();
        }
        let k = match self.knob() {
            Some(k) => k,
            None => return None,
        };
        if k.contains(p) {
            return Some(ScrollHit::Knob);
        }
        let before = if self.vertical {
            p.y < k.y
        } else {
            p.x < k.x
        };
        Some(
            if before {
                ScrollHit::PageBack
            } else {
                ScrollHit::PageFwd
            },
        )
    }
}


// ---- menus ------------------------------------------------------------------------------------

#[derive(Clone, Copy, PartialEq, Eq, Debug, Structural)]
pub enum Act {
    Nothing,
    Disabled,
    InfoPanel,
    Open,
    NewFolder,
    Duplicate,
    Destroy,
    EmptyRecycler,
    Copy,
    Paste,
    SelectAll,
    CheckDisks,
    ViewBrowser,
    Scale1,
    Scale15,
    Scale2,
    ShowHidden,
    Backdrop,
    ShowDock,
    ShowMiniwindows,
    ShowRecycler,
    Inspector,
    ConsoleWin,
    Mandelbrot,
    Improv,
    ShellWin,
    Concurrence,
    FileViewerWin,
    RecyclerWin,
    ArrangeFront,
    Miniaturize,
    CloseWin,
    Hide,
    Quit,
}

/// The menus of the Workspace; a submenu item names the menu it opens.
#[derive(Clone, Copy, PartialEq, Eq, Debug, Structural)]
pub enum MenuId {
    Main,
    Info,
    File,
    Edit,
    Disk,
    View,
    Scale,
    Tools,
    Windows,
    Services,
}

#[derive(Clone, Copy, Debug)]
pub struct ItemDef {
    pub label: &'static str,
    pub key: Option<char>,
    pub sub: Option<MenuId>,
    pub act: Act,
}

/// The items of each menu, top to bottom.
pub open spec fn menu_spec(m: MenuId) -> Seq<ItemDef> {
    match m {
        MenuId::Main => seq![
            ItemDef { label: "Info", key: None, sub: Some(MenuId::Info), act: Act::Nothing },
            ItemDef { label: "File", key: None, sub: Some(MenuId::File), act: Act::Nothing },
            ItemDef { label: "Edit", key: None, sub: Some(MenuId::Edit), act: Act::Nothing },
            ItemDef { label: "Disk", key: None, sub: Some(MenuId::Disk), act: Act::Nothing },
            ItemDef { label: "View", key: None, sub: Some(MenuId::View), act: Act::Nothing },
            ItemDef { label: "Tools", key: None, sub: Some(MenuId::Tools), act: Act::Nothing },
            ItemDef { label: "Windows", key: None, sub: Some(MenuId::Windows), act: Act::Nothing },
            ItemDef { label: "Services", key: None, sub: Some(MenuId::Services), act: Act::Nothing },
            ItemDef { label: "Hide", key: Some('h'), sub: None, act: Act::Hide },
            ItemDef { label: "Quit", key: Some('q'), sub: None, act: Act::Quit },
        ],
        MenuId::Info => seq![
            ItemDef { label: "Info Panel…", key: None, sub: None, act: Act::InfoPanel },
            ItemDef { label: "Preferences…", key: None, sub: None, act: Act::Disabled },
            ItemDef { label: "Help…", key: None, sub: None, act: Act::Disabled },
        ],
        MenuId::File => seq![
            ItemDef { label: "Open", key: Some('o'), sub: None, act: Act::Open },
            ItemDef { label: "Open as Folder", key: Some('O'), sub: None, act: Act::Disabled },
            ItemDef { label: "New Folder", key: Some('n'), sub: None, act: Act::NewFolder },
            ItemDef { label: "Duplicate", key: Some('d'), sub: None, act: Act::Duplicate },
            ItemDef { label: "Compress", key: None, sub: None, act: Act::Disabled },
            ItemDef { label: "Destroy", key: Some('r'), sub: None, act: Act::Destroy },
            ItemDef { label: "Empty Recycler", key: None, sub: None, act: Act::EmptyRecycler },
        ],
        MenuId::Edit => seq![
            ItemDef { label: "Cut", key: Some('x'), sub: None, act: Act::Disabled },
            ItemDef { label: "Copy", key: Some('c'), sub: None, act: Act::Copy },
            ItemDef { label: "Paste", key: Some('v'), sub: None, act: Act::Paste },
            ItemDef { label: "Select All", key: Some('a'), sub: None, act: Act::SelectAll },
        ],
        MenuId::Disk => seq![
            ItemDef { label: "Check for Disks", key: None, sub: None, act: Act::CheckDisks },
            ItemDef { label: "Eject", key: None, sub: None, act: Act::Disabled },
        ],
        MenuId::View => seq![
            ItemDef { label: "Browser", key: None, sub: None, act: Act::ViewBrowser },
            ItemDef { label: "Icon", key: None, sub: None, act: Act::Disabled },
            ItemDef { label: "Listing", key: None, sub: None, act: Act::Disabled },
            ItemDef { label: "Scale", key: None, sub: Some(MenuId::Scale), act: Act::Nothing },
            ItemDef { label: "Show Hidden Files", key: None, sub: None, act: Act::ShowHidden },
            ItemDef { label: "Show Dock", key: None, sub: None, act: Act::ShowDock },
            ItemDef { label: "Show Miniwindows", key: None, sub: None, act: Act::ShowMiniwindows },
            ItemDef { label: "Show Recycler Tile", key: None, sub: None, act: Act::ShowRecycler },
            ItemDef { label: "Screen Backdrop", key: None, sub: None, act: Act::Backdrop },
        ],
        MenuId::Scale => seq![
            ItemDef { label: "1×", key: None, sub: None, act: Act::Scale1 },
            ItemDef { label: "1.5×", key: None, sub: None, act: Act::Scale15 },
            ItemDef { label: "2×", key: None, sub: None, act: Act::Scale2 },
        ],
        MenuId::Tools => seq![
            ItemDef { label: "Inspector…", key: Some('i'), sub: None, act: Act::Inspector },
            ItemDef { label: "Finder…", key: None, sub: None, act: Act::Disabled },
            ItemDef { label: "Processes…", key: None, sub: None, act: Act::Disabled },
            ItemDef { label: "Console…", key: None, sub: None, act: Act::ConsoleWin },
            ItemDef { label: "Shell…", key: Some('t'), sub: None, act: Act::ShellWin },
            ItemDef { label: "Concurrence…", key: None, sub: None, act: Act::Concurrence },
            ItemDef { label: "Mandelbrot…", key: None, sub: None, act: Act::Mandelbrot },
            ItemDef { label: "Improv…", key: None, sub: None, act: Act::Improv },
        ],
        MenuId::Windows => seq![
            ItemDef { label: "File Viewer", key: None, sub: None, act: Act::FileViewerWin },
            ItemDef { label: "Recycler", key: None, sub: None, act: Act::RecyclerWin },
            ItemDef { label: "Arrange in Front", key: None, sub: None, act: Act::ArrangeFront },
            ItemDef { label: "Miniaturize Window", key: Some('m'), sub: None, act: Act::Miniaturize },
            ItemDef { label: "Close Window", key: Some('w'), sub: None, act: Act::CloseWin },
        ],
        MenuId::Services => seq![
            ItemDef { label: "No Services Available", key: None, sub: None, act: Act::Disabled },
        ],
    }
}

/// The wording of each command on its menu item.
pub open spec fn act_label(a: Act) -> Seq<char> {
    match a {
        Act::InfoPanel => "Info Panel…"@,
        Act::Open => "Open"@,
        Act::NewFolder => "New Folder"@,
        Act::Duplicate => "Duplicate"@,
        Act::Destroy => "Destroy"@,
        Act::EmptyRecycler => "Empty Recycler"@,
        Act::Copy => "Copy"@,
        Act::Paste => "Paste"@,
        Act::SelectAll => "Select All"@,
        Act::CheckDisks => "Check for Disks"@,
        Act::ViewBrowser => "Browser"@,
        Act::Scale1 => "1×"@,
        Act::Scale15 => "1.5×"@,
        Act::Scale2 => "2×"@,
        Act::ShowHidden => "Show Hidden Files"@,
        Act::Backdrop => "Screen Backdrop"@,
        Act::ShowDock => "Show Dock"@,
        Act::ShowMiniwindows => "Show Miniwindows"@,
        Act::ShowRecycler => "Show Recycler Tile"@,
        Act::Inspector => "Inspector…"@,
        Act::ConsoleWin => "Console…"@,
        Act::Mandelbrot => "Mandelbrot…"@,
        Act::Improv => "Improv…"@,
        Act::ShellWin => "Shell…"@,
        Act::Concurrence => "Concurrence…"@,
        Act::FileViewerWin => "File Viewer"@,
        Act::RecyclerWin => "Recycler"@,
        Act::ArrangeFront => "Arrange in Front"@,
        Act::Miniaturize => "Miniaturize Window"@,
        Act::CloseWin => "Close Window"@,
        Act::Hide => "Hide"@,
        Act::Quit => "Quit"@,
        _ => Seq::empty(),
    }
}

/// `a` is a command, not a submenu title or a disabled item.
pub open spec fn is_command(a: Act) -> bool {
    a != Act::Nothing && a != Act::Disabled
}

/// Item `i` of menu `m` is there and runs command `a` under the command's own wording.
pub open spec fn offers(m: MenuId, i: int, a: Act) -> bool {
    0 <= i < menu_spec(m).len() && menu_spec(m)[i].act == a && menu_spec(m)[i].sub is None
        && menu_spec(m)[i].label@ == act_label(a)
}

/// Every menu item that runs a command is worded as that command, and every command has such an
/// item: Copy is offered as "Copy", Quit as "Quit", and so on; an item can be disabled, but it
/// cannot run a command other than the one its wording names.
pub proof fn law_menu_items_do_what_they_say()
    ensures
        forall|m: MenuId, i: int|
            0 <= i < menu_spec(m).len() && (#[trigger] menu_spec(m)[i]).sub is None && menu_spec(m)[i].act
                != Act::Disabled ==> menu_spec(m)[i].label@ == act_label(menu_spec(m)[i].act),
        forall|a: Act| #[trigger] is_command(a) ==> exists|m: MenuId, i: int| #[trigger] offers(m, i, a),
{
    assert forall|m: MenuId, i: int|
        0 <= i < menu_spec(m).len() && (#[trigger] menu_spec(m)[i]).sub is None && menu_spec(m)[i].act
            != Act::Disabled implies menu_spec(m)[i].label@ == act_label(menu_spec(m)[i].act) by {
        match m {
            MenuId::Main => {
                assert(i == 0 || i == 1 || i == 2 || i == 3 || i == 4 || i == 5 || i == 6 || i == 7 || i == 8 || i == 9);
            },
            MenuId::Info => {
                assert(i == 0 || i == 1 || i == 2);
            },
            MenuId::File => {
                assert(i == 0 || i == 1 || i == 2 || i == 3 || i == 4 || i == 5 || i == 6);
            },
            MenuId::Edit => {
                assert(i == 0 || i == 1 || i == 2 || i == 3);
            },
            MenuId::Disk => {
                assert(i == 0 || i == 1);
            },
            MenuId::View => {
                assert(i == 0 || i == 1 || i == 2 || i == 3 || i == 4 || i == 5 || i == 6 || i == 7 || i == 8);
            },
            MenuId::Scale => {
                assert(i == 0 || i == 1 || i == 2);
            },
            MenuId::Tools => {
                assert(i == 0 || i == 1 || i == 2 || i == 3 || i == 4 || i == 5 || i == 6 || i == 7);
            },
            MenuId::Windows => {
                assert(i == 0 || i == 1 || i == 2 || i == 3 || i == 4);
            },
            MenuId::Services => {
                assert(i == 0);
            },
        }
    }
    assert forall|a: Act| #[trigger] is_command(a) implies exists|m: MenuId, i: int| #[trigger] offers(m, i, a) by {
        match a {
            Act::InfoPanel => assert(offers(MenuId::Info, 0, a)),
            Act::Open => assert(offers(MenuId::File, 0, a)),
            Act::NewFolder => assert(offers(MenuId::File, 2, a)),
            Act::Duplicate => assert(offers(MenuId::File, 3, a)),
            Act::Destroy => assert(offers(MenuId::File, 5, a)),
            Act::EmptyRecycler => assert(offers(MenuId::File, 6, a)),
            Act::Copy => assert(offers(MenuId::Edit, 1, a)),
            Act::Paste => assert(offers(MenuId::Edit, 2, a)),
            Act::SelectAll => assert(offers(MenuId::Edit, 3, a)),
            Act::CheckDisks => assert(offers(MenuId::Disk, 0, a)),
            Act::ViewBrowser => assert(offers(MenuId::View, 0, a)),
            Act::Scale1 => assert(offers(MenuId::Scale, 0, a)),
            Act::Scale15 => assert(offers(MenuId::Scale, 1, a)),
            Act::Scale2 => assert(offers(MenuId::Scale, 2, a)),
            Act::ShowHidden => assert(offers(MenuId::View, 4, a)),
            Act::Backdrop => assert(offers(MenuId::View, 8, a)),
            Act::ShowDock => assert(offers(MenuId::View, 5, a)),
            Act::ShowMiniwindows => assert(offers(MenuId::View, 6, a)),
            Act::ShowRecycler => assert(offers(MenuId::View, 7, a)),
            Act::Inspector => assert(offers(MenuId::Tools, 0, a)),
            Act::ConsoleWin => assert(offers(MenuId::Tools, 3, a)),
            Act::Mandelbrot => assert(offers(MenuId::Tools, 6, a)),
            Act::Improv => assert(offers(MenuId::Tools, 7, a)),
            Act::ShellWin => assert(offers(MenuId::Tools, 4, a)),
            Act::Concurrence => assert(offers(MenuId::Tools, 5, a)),
            Act::FileViewerWin => assert(offers(MenuId::Windows, 0, a)),
            Act::RecyclerWin => assert(offers(MenuId::Windows, 1, a)),
            Act::ArrangeFront => assert(offers(MenuId::Windows, 2, a)),
            Act::Miniaturize => assert(offers(MenuId::Windows, 3, a)),
            Act::CloseWin => assert(offers(MenuId::Windows, 4, a)),
            Act::Hide => assert(offers(MenuId::Main, 8, a)),
            Act::Quit => assert(offers(MenuId::Main, 9, a)),
            _ => {},
        }
    }
}

/// The command an item runs, if there is an item.
pub open spec fn act_of(it: Option<ItemDef>) -> Option<Act> {
    match it {
        Some(it) => Some(it.act),
        None => None,
    }
}

/// The Workspace's Command-key equivalents: h Hide, q Quit, o Open, n New Folder, d Duplicate,
/// r Destroy, c Copy, v Paste, a Select All, i Inspector, t Shell, m Miniaturize, w Close Window;
/// O (Open as Folder) and x (Cut) are there but disabled.
pub open spec fn command_key(c: char) -> Option<Act> {
    if c == 'h' {
        Some(Act::Hide)
    } else if c == 'q' {
        Some(Act::Quit)
    } else if c == 'o' {
        Some(Act::Open)
    } else if c == 'O' {
        Some(Act::Disabled)
    } else if c == 'n' {
        Some(Act::NewFolder)
    } else if c == 'd' {
        Some(Act::Duplicate)
    } else if c == 'r' {
        Some(Act::Destroy)
    } else if c == 'x' {
        Some(Act::Disabled)
    } else if c == 'c' {
        Some(Act::Copy)
    } else if c == 'v' {
        Some(Act::Paste)
    } else if c == 'a' {
        Some(Act::SelectAll)
    } else if c == 'i' {
        Some(Act::Inspector)
    } else if c == 't' {
        Some(Act::ShellWin)
    } else if c == 'm' {
        Some(Act::Miniaturize)
    } else if c == 'w' {
        Some(Act::CloseWin)
    } else {
        None
    }
}

/// Command-`c` runs the command of the standard key equivalent `c`, searching every menu and
/// submenu; any other key runs nothing.
pub proof fn law_command_keys(c: char)
    ensures
        act_of(find_key_from(MenuId::Main, c, 0)) == command_key(c),
{
    assert(act_of(find_key_from(MenuId::Info, c, 3)) == None::<Act>);
    assert(act_of(find_key_from(MenuId::Info, c, 2)) == None::<Act>);
    assert(act_of(find_key_from(MenuId::Info, c, 1)) == None::<Act>);
    assert(act_of(find_key_from(MenuId::Info, c, 0)) == None::<Act>);
    assert(act_of(find_key_from(MenuId::File, c, 7)) == None::<Act>);
    assert(act_of(find_key_from(MenuId::File, c, 6)) == None::<Act>);
    assert(act_of(find_key_from(MenuId::File, c, 5)) == (if c == 'r' { Some(Act::Destroy) } else { None::<Act> }));
    assert(act_of(find_key_from(MenuId::File, c, 4)) == (if c == 'r' { Some(Act::Destroy) } else { None::<Act> }));
    assert(act_of(find_key_from(MenuId::File, c, 3)) == (if c == 'd' { Some(Act::Duplicate) } else { if c == 'r' { Some(Act::Destroy) } else { None::<Act> } }));
    assert(act_of(find_key_from(MenuId::File, c, 2)) == (if c == 'n' { Some(Act::NewFolder) } else { if c == 'd' { Some(Act::Duplicate) } else { if c == 'r' { Some(Act::Destroy) } else { None::<Act> } } }));
    assert(act_of(find_key_from(MenuId::File, c, 1)) == (if c == 'O' { Some(Act::Disabled) } else { if c == 'n' { Some(Act::NewFolder) } else { if c == 'd' { Some(Act::Duplicate) } else { if c == 'r' { Some(Act::Destroy) } else { None::<Act> } } } }));
    assert(act_of(find_key_from(MenuId::File, c, 0)) == (if c == 'o' { Some(Act::Open) } else { if c == 'O' { Some(Act::Disabled) } else { if c == 'n' { Some(Act::NewFolder) } else { if c == 'd' { Some(Act::Duplicate) } else { if c == 'r' { Some(Act::Destroy) } else { None::<Act> } } } } }));
    assert(act_of(find_key_from(MenuId::Edit, c, 4)) == None::<Act>);
    assert(act_of(find_key_from(MenuId::Edit, c, 3)) == (if c == 'a' { Some(Act::SelectAll) } else { None::<Act> }));
    assert(act_of(find_key_from(MenuId::Edit, c, 2)) == (if c == 'v' { Some(Act::Paste) } else { if c == 'a' { Some(Act::SelectAll) } else { None::<Act> } }));
    assert(act_of(find_key_from(MenuId::Edit, c, 1)) == (if c == 'c' { Some(Act::Copy) } else { if c == 'v' { Some(Act::Paste) } else { if c == 'a' { Some(Act::SelectAll) } else { None::<Act> } } }));
    assert(act_of(find_key_from(MenuId::Edit, c, 0)) == (if c == 'x' { Some(Act::Disabled) } else { if c == 'c' { Some(Act::Copy) } else { if c == 'v' { Some(Act::Paste) } else { if c == 'a' { Some(Act::SelectAll) } else { None::<Act> } } } }));
    assert(act_of(find_key_from(MenuId::Disk, c, 2)) == None::<Act>);
    assert(act_of(find_key_from(MenuId::Disk, c, 1)) == None::<Act>);
    assert(act_of(find_key_from(MenuId::Disk, c, 0)) == None::<Act>);
    assert(act_of(find_key_from(MenuId::Scale, c, 3)) == None::<Act>);
    assert(act_of(find_key_from(MenuId::Scale, c, 2)) == None::<Act>);
    assert(act_of(find_key_from(MenuId::Scale, c, 1)) == None::<Act>);
    assert(act_of(find_key_from(MenuId::Scale, c, 0)) == None::<Act>);
    assert(act_of(find_key_from(MenuId::Tools, c, 8)) == None::<Act>);
    assert(act_of(find_key_from(MenuId::Tools, c, 7)) == None::<Act>);
    assert(act_of(find_key_from(MenuId::Tools, c, 6)) == None::<Act>);
    assert(act_of(find_key_from(MenuId::Tools, c, 5)) == None::<Act>);
    assert(act_of(find_key_from(MenuId::Tools, c, 4)) == (if c == 't' { Some(Act::ShellWin) } else { None::<Act> }));
    assert(act_of(find_key_from(MenuId::Tools, c, 3)) == (if c == 't' { Some(Act::ShellWin) } else { None::<Act> }));
    assert(act_of(find_key_from(MenuId::Tools, c, 2)) == (if c == 't' { Some(Act::ShellWin) } else { None::<Act> }));
    assert(act_of(find_key_from(MenuId::Tools, c, 1)) == (if c == 't' { Some(Act::ShellWin) } else { None::<Act> }));
    assert(act_of(find_key_from(MenuId::Tools, c, 0)) == (if c == 'i' { Some(Act::Inspector) } else { if c == 't' { Some(Act::ShellWin) } else { None::<Act> } }));
    assert(act_of(find_key_from(MenuId::Windows, c, 5)) == None::<Act>);
    assert(act_of(find_key_from(MenuId::Windows, c, 4)) == (if c == 'w' { Some(Act::CloseWin) } else { None::<Act> }));
    assert(act_of(find_key_from(MenuId::Windows, c, 3)) == (if c == 'm' { Some(Act::Miniaturize) } else { if c == 'w' { Some(Act::CloseWin) } else { None::<Act> } }));
    assert(act_of(find_key_from(MenuId::Windows, c, 2)) == (if c == 'm' { Some(Act::Miniaturize) } else { if c == 'w' { Some(Act::CloseWin) } else { None::<Act> } }));
    assert(act_of(find_key_from(MenuId::Windows, c, 1)) == (if c == 'm' { Some(Act::Miniaturize) } else { if c == 'w' { Some(Act::CloseWin) } else { None::<Act> } }));
    assert(act_of(find_key_from(MenuId::Windows, c, 0)) == (if c == 'm' { Some(Act::Miniaturize) } else { if c == 'w' { Some(Act::CloseWin) } else { None::<Act> } }));
    assert(act_of(find_key_from(MenuId::Services, c, 1)) == None::<Act>);
    assert(act_of(find_key_from(MenuId::Services, c, 0)) == None::<Act>);
    assert(act_of(find_key_from(MenuId::View, c, 9)) == None::<Act>);
    assert(act_of(find_key_from(MenuId::View, c, 8)) == None::<Act>);
    assert(act_of(find_key_from(MenuId::View, c, 7)) == None::<Act>);
    assert(act_of(find_key_from(MenuId::View, c, 6)) == None::<Act>);
    assert(act_of(find_key_from(MenuId::View, c, 5)) == None::<Act>);
    assert(act_of(find_key_from(MenuId::View, c, 4)) == None::<Act>);
    assert(act_of(find_key_from(MenuId::View, c, 3)) == None::<Act>);
    assert(act_of(find_key_from(MenuId::View, c, 2)) == None::<Act>);
    assert(act_of(find_key_from(MenuId::View, c, 1)) == None::<Act>);
    assert(act_of(find_key_from(MenuId::View, c, 0)) == None::<Act>);
    assert(act_of(find_key_from(MenuId::Main, c, 10)) == None::<Act>);
    assert(act_of(find_key_from(MenuId::Main, c, 9)) == (if c == 'q' { Some(Act::Quit) } else { None::<Act> }));
    assert(act_of(find_key_from(MenuId::Main, c, 8)) == (if c == 'h' { Some(Act::Hide) } else { if c == 'q' { Some(Act::Quit) } else { None::<Act> } }));
    assert(act_of(find_key_from(MenuId::Main, c, 7)) == (if c == 'h' { Some(Act::Hide) } else { if c == 'q' { Some(Act::Quit) } else { None::<Act> } }));
    assert(act_of(find_key_from(MenuId::Main, c, 6)) == (if c == 'm' { Some(Act::Miniaturize) } else { if c == 'w' { Some(Act::CloseWin) } else { if c == 'h' { Some(Act::Hide) } else { if c == 'q' { Some(Act::Quit) } else { None::<Act> } } } }));
    assert(act_of(find_key_from(MenuId::Main, c, 5)) == (if c == 'i' { Some(Act::Inspector) } else { if c == 't' { Some(Act::ShellWin) } else { if c == 'm' { Some(Act::Miniaturize) } else { if c == 'w' { Some(Act::CloseWin) } else { if c == 'h' { Some(Act::Hide) } else { if c == 'q' { Some(Act::Quit) } else { None::<Act> } } } } } }));
    assert(act_of(find_key_from(MenuId::Main, c, 4)) == (if c == 'i' { Some(Act::Inspector) } else { if c == 't' { Some(Act::ShellWin) } else { if c == 'm' { Some(Act::Miniaturize) } else { if c == 'w' { Some(Act::CloseWin) } else { if c == 'h' { Some(Act::Hide) } else { if c == 'q' { Some(Act::Quit) } else { None::<Act> } } } } } }));
    assert(act_of(find_key_from(MenuId::Main, c, 3)) == (if c == 'i' { Some(Act::Inspector) } else { if c == 't' { Some(Act::ShellWin) } else { if c == 'm' { Some(Act::Miniaturize) } else { if c == 'w' { Some(Act::CloseWin) } else { if c == 'h' { Some(Act::Hide) } else { if c == 'q' { Some(Act::Quit) } else { None::<Act> } } } } } }));
    assert(act_of(find_key_from(MenuId::Main, c, 2)) == (if c == 'x' { Some(Act::Disabled) } else { if c == 'c' { Some(Act::Copy) } else { if c == 'v' { Some(Act::Paste) } else { if c == 'a' { Some(Act::SelectAll) } else { if c == 'i' { Some(Act::Inspector) } else { if c == 't' { Some(Act::ShellWin) } else { if c == 'm' { Some(Act::Miniaturize) } else { if c == 'w' { Some(Act::CloseWin) } else { if c == 'h' { Some(Act::Hide) } else { if c == 'q' { Some(Act::Quit) } else { None::<Act> } } } } } } } } } }));
    assert(act_of(find_key_from(MenuId::Main, c, 1)) == (if c == 'o' { Some(Act::Open) } else { if c == 'O' { Some(Act::Disabled) } else { if c == 'n' { Some(Act::NewFolder) } else { if c == 'd' { Some(Act::Duplicate) } else { if c == 'r' { Some(Act::Destroy) } else { if c == 'x' { Some(Act::Disabled) } else { if c == 'c' { Some(Act::Copy) } else { if c == 'v' { Some(Act::Paste) } else { if c == 'a' { Some(Act::SelectAll) } else { if c == 'i' { Some(Act::Inspector) } else { if c == 't' { Some(Act::ShellWin) } else { if c == 'm' { Some(Act::Miniaturize) } else { if c == 'w' { Some(Act::CloseWin) } else { if c == 'h' { Some(Act::Hide) } else { if c == 'q' { Some(Act::Quit) } else { None::<Act> } } } } } } } } } } } } } } }));
    assert(act_of(find_key_from(MenuId::Main, c, 0)) == (if c == 'o' { Some(Act::Open) } else { if c == 'O' { Some(Act::Disabled) } else { if c == 'n' { Some(Act::NewFolder) } else { if c == 'd' { Some(Act::Duplicate) } else { if c == 'r' { Some(Act::Destroy) } else { if c == 'x' { Some(Act::Disabled) } else { if c == 'c' { Some(Act::Copy) } else { if c == 'v' { Some(Act::Paste) } else { if c == 'a' { Some(Act::SelectAll) } else { if c == 'i' { Some(Act::Inspector) } else { if c == 't' { Some(Act::ShellWin) } else { if c == 'm' { Some(Act::Miniaturize) } else { if c == 'w' { Some(Act::CloseWin) } else { if c == 'h' { Some(Act::Hide) } else { if c == 'q' { Some(Act::Quit) } else { None::<Act> } } } } } } } } } } } } } } }));
}

/// The title of each submenu.
pub open spec fn submenu_title(m: MenuId) -> Seq<char> {
    match m {
        MenuId::Main => "Workspace"@,
        MenuId::Info => "Info"@,
        MenuId::File => "File"@,
        MenuId::Edit => "Edit"@,
        MenuId::Disk => "Disk"@,
        MenuId::View => "View"@,
        MenuId::Scale => "Scale"@,
        MenuId::Tools => "Tools"@,
        MenuId::Windows => "Windows"@,
        MenuId::Services => "Services"@,
    }
}

/// An item that opens a submenu runs no command and is worded as the submenu's title: File
/// opens the File menu, Edit the Edit menu, Scale the Scale menu, and so on.
pub proof fn law_submenu_items(m: MenuId, i: int)
    requires
        0 <= i < menu_spec(m).len(),
    ensures
        menu_spec(m)[i].sub matches Some(s) ==> menu_spec(m)[i].label@ == submenu_title(s) && menu_spec(m)[i].act
            == Act::Nothing && menu_spec(m)[i].key is None,
{
    match m {
        MenuId::Main => assert(i == 0 || i == 1 || i == 2 || i == 3 || i == 4 || i == 5 || i == 6 || i == 7 || i == 8 || i == 9),
        MenuId::Info => assert(i == 0 || i == 1 || i == 2),
        MenuId::File => assert(i == 0 || i == 1 || i == 2 || i == 3 || i == 4 || i == 5 || i == 6),
        MenuId::Edit => assert(i == 0 || i == 1 || i == 2 || i == 3),
        MenuId::Disk => assert(i == 0 || i == 1),
        MenuId::View => assert(i == 0 || i == 1 || i == 2 || i == 3 || i == 4 || i == 5 || i == 6 || i == 7 || i == 8),
        MenuId::Scale => assert(i == 0 || i == 1 || i == 2),
        MenuId::Tools => assert(i == 0 || i == 1 || i == 2 || i == 3 || i == 4 || i == 5 || i == 6 || i == 7),
        MenuId::Windows => assert(i == 0 || i == 1 || i == 2 || i == 3 || i == 4),
        MenuId::Services => assert(i == 0),
    }
}

pub fn menu_items(m: MenuId) -> (v: Vec<ItemDef>)
    ensures
        v@ == menu_spec(m),
{
    match m {
        MenuId::Main => vec![
            ItemDef { label: "Info", key: None, sub: Some(MenuId::Info), act: Act::Nothing },
            ItemDef { label: "File", key: None, sub: Some(MenuId::File), act: Act::Nothing },
            ItemDef { label: "Edit", key: None, sub: Some(MenuId::Edit), act: Act::Nothing },
            ItemDef { label: "Disk", key: None, sub: Some(MenuId::Disk), act: Act::Nothing },
            ItemDef { label: "View", key: None, sub: Some(MenuId::View), act: Act::Nothing },
            ItemDef { label: "Tools", key: None, sub: Some(MenuId::Tools), act: Act::Nothing },
            ItemDef { label: "Windows", key: None, sub: Some(MenuId::Windows), act: Act::Nothing },
            ItemDef { label: "Services", key: None, sub: Some(MenuId::Services), act: Act::Nothing },
            ItemDef { label: "Hide", key: Some('h'), sub: None, act: Act::Hide },
            ItemDef { label: "Quit", key: Some('q'), sub: None, act: Act::Quit },
        ],
        MenuId::Info => vec![
            ItemDef { label: "Info Panel…", key: None, sub: None, act: Act::InfoPanel },
            ItemDef { label: "Preferences…", key: None, sub: None, act: Act::Disabled },
            ItemDef { label: "Help…", key: None, sub: None, act: Act::Disabled },
        ],
        MenuId::File => vec![
            ItemDef { label: "Open", key: Some('o'), sub: None, act: Act::Open },
            ItemDef { label: "Open as Folder", key: Some('O'), sub: None, act: Act::Disabled },
            ItemDef { label: "New Folder", key: Some('n'), sub: None, act: Act::NewFolder },
            ItemDef { label: "Duplicate", key: Some('d'), sub: None, act: Act::Duplicate },
            ItemDef { label: "Compress", key: None, sub: None, act: Act::Disabled },
            ItemDef { label: "Destroy", key: Some('r'), sub: None, act: Act::Destroy },
            ItemDef { label: "Empty Recycler", key: None, sub: None, act: Act::EmptyRecycler },
        ],
        MenuId::Edit => vec![
            ItemDef { label: "Cut", key: Some('x'), sub: None, act: Act::Disabled },
            ItemDef { label: "Copy", key: Some('c'), sub: None, act: Act::Copy },
            ItemDef { label: "Paste", key: Some('v'), sub: None, act: Act::Paste },
            ItemDef { label: "Select All", key: Some('a'), sub: None, act: Act::SelectAll },
        ],
        MenuId::Disk => vec![
            ItemDef { label: "Check for Disks", key: None, sub: None, act: Act::CheckDisks },
            ItemDef { label: "Eject", key: None, sub: None, act: Act::Disabled },
        ],
        MenuId::View => vec![
            ItemDef { label: "Browser", key: None, sub: None, act: Act::ViewBrowser },
            ItemDef { label: "Icon", key: None, sub: None, act: Act::Disabled },
            ItemDef { label: "Listing", key: None, sub: None, act: Act::Disabled },
            ItemDef { label: "Scale", key: None, sub: Some(MenuId::Scale), act: Act::Nothing },
            ItemDef { label: "Show Hidden Files", key: None, sub: None, act: Act::ShowHidden },
            ItemDef { label: "Show Dock", key: None, sub: None, act: Act::ShowDock },
            ItemDef { label: "Show Miniwindows", key: None, sub: None, act: Act::ShowMiniwindows },
            ItemDef { label: "Show Recycler Tile", key: None, sub: None, act: Act::ShowRecycler },
            ItemDef { label: "Screen Backdrop", key: None, sub: None, act: Act::Backdrop },
        ],
        MenuId::Scale => vec![
            ItemDef { label: "1×", key: None, sub: None, act: Act::Scale1 },
            ItemDef { label: "1.5×", key: None, sub: None, act: Act::Scale15 },
            ItemDef { label: "2×", key: None, sub: None, act: Act::Scale2 },
        ],
        MenuId::Tools => vec![
            ItemDef { label: "Inspector…", key: Some('i'), sub: None, act: Act::Inspector },
            ItemDef { label: "Finder…", key: None, sub: None, act: Act::Disabled },
            ItemDef { label: "Processes…", key: None, sub: None, act: Act::Disabled },
            ItemDef { label: "Console…", key: None, sub: None, act: Act::ConsoleWin },
            ItemDef { label: "Shell…", key: Some('t'), sub: None, act: Act::ShellWin },
            ItemDef { label: "Concurrence…", key: None, sub: None, act: Act::Concurrence },
            ItemDef { label: "Mandelbrot…", key: None, sub: None, act: Act::Mandelbrot },
            ItemDef { label: "Improv…", key: None, sub: None, act: Act::Improv },
        ],
        MenuId::Windows => vec![
            ItemDef { label: "File Viewer", key: None, sub: None, act: Act::FileViewerWin },
            ItemDef { label: "Recycler", key: None, sub: None, act: Act::RecyclerWin },
            ItemDef { label: "Arrange in Front", key: None, sub: None, act: Act::ArrangeFront },
            ItemDef { label: "Miniaturize Window", key: Some('m'), sub: None, act: Act::Miniaturize },
            ItemDef { label: "Close Window", key: Some('w'), sub: None, act: Act::CloseWin },
        ],
        MenuId::Services => vec![
            ItemDef { label: "No Services Available", key: None, sub: None, act: Act::Disabled },
        ],
    }
}


/// Depth of a menu in the menu tree: leaves 0, View 1, the main menu 2.
pub open spec fn rank(m: MenuId) -> int {
    match m {
        MenuId::Main => 2,
        MenuId::View => 1,
        _ => 0,
    }
}

proof fn lemma_subs_rank(m: MenuId)
    ensures
        forall|i: int|
            0 <= i < menu_spec(m).len() ==> ((#[trigger] menu_spec(m)[i]).sub matches Some(s) ==> rank(
                s,
            ) < rank(m)),
{
}

/// Index of the first item labelled `l`, scanning from `i`; -1 when there is none.
pub open spec fn find_label_from(items: Seq<ItemDef>, l: Seq<char>, i: int) -> int
    decreases items.len() - i,
{
    if i < 0 || i >= items.len() {
        -1
    } else if items[i].label@ == l {
        i
    } else {
        find_label_from(items, l, i + 1)
    }
}

/// The menu reached from `m` by following the submenu items labelled `path`, in order.
pub open spec fn resolve_from(m: MenuId, path: Seq<Seq<char>>) -> Option<MenuId>
    decreases path.len(),
{
    if path.len() == 0 {
        Some(m)
    } else {
        let i = find_label_from(menu_spec(m), path[0], 0);
        if i < 0 {
            None
        } else {
            match menu_spec(m)[i].sub {
                Some(s) => resolve_from(s, path.drop_first()),
                None => None,
            }
        }
    }
}

pub open spec fn string_views(v: Seq<String>) -> Seq<Seq<char>> {
    v.map_values(|s: String| s@)
}

fn find_label(items: &Vec<ItemDef>, l: &str) -> (r: Option<usize>)
    ensures
        r matches Some(i) ==> i == find_label_from(items@, l@, 0) && i < items@.len(),
        r is None ==> find_label_from(items@, l@, 0) == -1,
{
    let mut i: usize = 0;
    while i < items.len()
        invariant
            i <= items@.len(),
            find_label_from(items@, l@, 0) == find_label_from(items@, l@, i as int),
        decreases items@.len() - i,
    {
        let lc = chars_of(items[i].label);
        if same(&lc, l) {
            return Some(i);
        }
        i += 1;
    }
    None
}

/// The menu that the labels in `path` lead to from the main menu.
pub fn resolve_path(path: &[String]) -> (r: Option<MenuId>)
    ensures
        r == resolve_from(MenuId::Main, string_views(path@)),
{
    let mut m = MenuId::Main;
    let mut k: usize = 0;
    assert(string_views(path@).skip(0) == string_views(path@));
    while k < path.len()
        invariant
            k <= path@.len(),
            resolve_from(MenuId::Main, string_views(path@)) == resolve_from(
                m,
                string_views(path@).skip(k as int),
            ),
        decreases path@.len() - k,
    {
        let ghost rest = string_views(path@).skip(k as int);
        assert(rest[0] == path@[k as int]@);
        assert(rest.drop_first() == string_views(path@).skip(k + 1));
        let items = menu_items(m);
        match find_label(&items, path[k].as_str()) {
            None => return None,
            Some(i) => match items[i].sub {
                Some(s) => {
                    m = s;
                },
                None => return None,
            },
        }
        k += 1;
    }
    assert(string_views(path@).skip(k as int).len() == 0);
    Some(m)
}

/// The first item with key equivalent `c` in a depth-first walk of `m` from item `i` on.
pub open spec fn find_key_from(m: MenuId, c: char, i: int) -> Option<ItemDef>
    decreases rank(m), menu_spec(m).len() - i,
{
    if i < 0 || i >= menu_spec(m).len() {
        None
    } else {
        let it = menu_spec(m)[i];
        let here = match it.sub {
            Some(s) => if rank(s) < rank(m) {
                find_key_from(s, c, 0)
            } else {
                None
            },
            None => if it.key == Some(c) {
                Some(it)
            } else {
                None
            },
        };
        if here is Some {
            here
        } else {
            find_key_from(m, c, i + 1)
        }
    }
}

/// The item whose key equivalent is `c`, searching submenus in place of their items.
pub fn find_key(items: MenuId, c: char) -> (r: Option<ItemDef>)
    ensures
        r == find_key_from(items, c, 0),
    decreases rank(items),
{
    let v = menu_items(items);
    proof {
        lemma_subs_rank(items);
    }
    let mut i: usize = 0;
    while i < v.len()
        invariant
            i <= v@.len(),
            v@ == menu_spec(items),
            forall|j: int|
                0 <= j < menu_spec(items).len() ==> ((#[trigger] menu_spec(items)[j]).sub matches Some(
                    s,
                ) ==> rank(s) < rank(items)),
            find_key_from(items, c, 0) == find_key_from(items, c, i as int),
        decreases v@.len() - i,
    {
        let it = v[i];
        assert(it == menu_spec(items)[i as int]);
        match it.sub {
            Some(s) => {
                let r = find_key(s, c);
                if r.is_some() {
                    return r;
                }
            },
            None => {
                if it.key == Some(c) {
                    return Some(it);
                }
            },
        }
        i += 1;
    }
    None
}

#[derive(Clone, Copy, PartialEq, Eq, Debug, Structural)]
pub enum MenuKind {
    Main,
    Popup,
    Sub { parent: u64, item: usize },
    Torn,
}

#[derive(Clone, Copy, PartialEq, Eq, Debug, Structural)]
pub enum MenuPart {
    Title,
    Close,
    Item(usize),
}

pub struct MenuInst {
    pub id: u64,
    pub title: String,
    pub items: Vec<ItemDef>,
    pub path: Vec<String>,
    pub pos: Pt,
    pub w: i32,
    pub kind: MenuKind,
    pub open_item: Option<usize>,
}

impl MenuInst {
    pub open spec fn height_spec(&self) -> int {
        MENU_TITLE_H + self.items@.len() * MENU_ITEM_H
    }

    /// Every sum the menu's geometry computes fits in an `i32`.
    pub open spec fn geom_fits(&self) -> bool {
        &&& fits(self.height_spec())
        &&& fits(self.pos.y + self.height_spec())
        &&& fits(self.pos.x + self.w)
        &&& fits(self.pos.x + self.w - 17)
        &&& fits(self.pos.y + 3)
    }

    pub open spec fn rect_spec(&self) -> Rect {
        rc(self.pos.x as int, self.pos.y as int, self.w as int, self.height_spec())
    }

    pub open spec fn title_rect_spec(&self) -> Rect {
        rc(self.pos.x as int, self.pos.y as int, self.w as int, MENU_TITLE_H as int)
    }

    pub open spec fn close_rect_spec(&self) -> Option<Rect> {
        if self.kind == MenuKind::Torn {
            Some(rc(self.pos.x + self.w - 17, self.pos.y + 3, 14, 14))
        } else {
            None
        }
    }

    pub open spec fn item_rect_spec(&self, idx: int) -> Rect {
        rc(self.pos.x as int, self.pos.y + MENU_TITLE_H + idx * MENU_ITEM_H, self.w as int, MENU_ITEM_H as int)
    }

    /// The title, the close button of a torn-off menu, or the item under `p`.
    pub open spec fn hit_spec(&self, p: Pt) -> Option<MenuPart> {
        if !self.rect_spec().has(p) {
            None
        } else if Win::in_opt(self.close_rect_spec(), p) {
            Some(MenuPart::Close)
        } else if self.title_rect_spec().has(p) {
            Some(MenuPart::Title)
        } else {
            self.item_hit_from(p, 0)
        }
    }

    pub open spec fn item_hit_from(&self, p: Pt, i: int) -> Option<MenuPart>
        decreases self.items@.len() - i,
    {
        if i < 0 || i >= self.items@.len() {
            None
        } else if self.item_rect_spec(i).has(p) {
            Some(MenuPart::Item(i as usize))
        } else {
            self.item_hit_from(p, i + 1)
        }
    }

    pub fn height(&self) -> (h: i32)
        requires
            self.geom_fits(),
        ensures
            h == self.height_spec(),
    {
        MENU_TITLE_H + self.items.len() as i32 * MENU_ITEM_H
    }

    /// Face rectangle (the black shadow column lies just outside it, on the right).
    pub fn rect(&self) -> (r: Rect)
        requires
            self.geom_fits(),
        ensures
            r == self.rect_spec(),
    {
        rect(self.pos.x, self.pos.y, self.w, self.height())
    }

    pub fn title_rect(&self) -> (r: Rect)
        ensures
            r == self.title_rect_spec(),
    {
        rect(self.pos.x, self.pos.y, self.w, MENU_TITLE_H)
    }

    pub fn close_rect(&self) -> (r: Option<Rect>)
        requires
            self.geom_fits(),
        ensures
            r == self.close_rect_spec(),
    {
        if self.kind == MenuKind::Torn {
            Some(rect(self.pos.x + self.w - 17, self.pos.y + 3, 14, 14))
        } else {
            None
        }
    }

    pub fn item_rect(&self, idx: usize) -> (r: Rect)
        requires
            self.geom_fits(),
            idx < self.items@.len(),
        ensures
            r == self.item_rect_spec(idx as int),
    {
        rect(self.pos.x, self.pos.y + MENU_TITLE_H + idx as i32 * MENU_ITEM_H, self.w, MENU_ITEM_H)
    }

    pub fn hit(&self, p: Pt) -> (h: Option<MenuPart>)
        requires
            self.geom_fits(),
        ensures
            h == self.hit_spec(p),
    {
        if !self.rect().contains(p) {
            return None;
        }
        if let Some(r) = self.close_rect() {
            if r.contains(p) {
                return Some(MenuPart::Close);
            }
        }
        if self.title_rect().contains(p) {
            return Some(MenuPart::Title);
        }
        let mut i: usize = 0;
        while i < self.items.len()
            invariant
                self.geom_fits(),
                i <= self.items@.len(),
                self.item_hit_from(p, 0) == self.item_hit_from(p, i as int),
            decreases self.items@.len() - i,
        {
            if self.item_rect(i).contains(p) {
                return Some(MenuPart::Item(i));
            }
            i += 1;
        }
        None
    }
}

/// Every part of a menu that `hit` reports lies under the point: an item's rectangle contains it.
pub proof fn law_menu_hit_item_contains(m: MenuInst, p: Pt, i: usize)
    requires
        m.geom_fits(),
        m.hit_spec(p) == Some(MenuPart::Item(i)),
    ensures
        i < m.items@.len(),
        m.item_rect_spec(i as int).has(p),
{
    lemma_item_hit(m, p, 0);
}

proof fn lemma_item_hit(m: MenuInst, p: Pt, k: int)
    requires
        0 <= k,
        m.geom_fits(),
    ensures
        m.item_hit_from(p, k) matches Some(MenuPart::Item(i)) ==> k <= i < m.items@.len()
            && m.item_rect_spec(i as int).has(p),
        m.item_hit_from(p, k) is Some ==> m.item_hit_from(p, k) matches Some(MenuPart::Item(_)),
    decreases m.items@.len() - k,
{
    if k < m.items@.len() {
        if !m.item_rect_spec(k).has(p) {
            lemma_item_hit(m, p, k + 1);
        } else {
            assert((k as usize) as int == k);
        }
    }
}


/// What a menu item's look depends on.
#[derive(Clone, Copy, Debug)]
pub struct ItemContext {
    pub clipboard_empty: bool,
    /// Running on macOS, the one platform with a Recycler to empty and an application to hide.
    pub mac: bool,
    /// The scale item that matches the current scale, if one does.
    pub scale: Option<Act>,
    pub show_hidden: bool,
    pub backdrop: bool,
    pub dock_visible: bool,
    pub miniwindows_visible: bool,
    pub recycler_visible: bool,
}

/// Whether a menu item is disabled, and whether it shows a check mark.
pub open spec fn item_state_spec(act: Act, cx: ItemContext) -> (bool, bool) {
    match act {
        Act::Disabled => (true, false),
        Act::Paste => (cx.clipboard_empty, false),
        Act::EmptyRecycler => (!cx.mac, false),
        Act::Hide => (!cx.mac, false),
        Act::ViewBrowser => (false, true),
        Act::Scale1 | Act::Scale15 | Act::Scale2 => (false, cx.scale == Some(act)),
        Act::ShowHidden => (false, cx.show_hidden),
        Act::Backdrop => (false, cx.backdrop),
        Act::ShowDock => (false, cx.dock_visible),
        Act::ShowMiniwindows => (false, cx.miniwindows_visible),
        Act::ShowRecycler => (false, cx.recycler_visible),
        _ => (false, false),
    }
}

pub fn item_state(act: Act, cx: &ItemContext) -> (r: (bool, bool))
    ensures
        r == item_state_spec(act, *cx),
{
    match act {
        Act::Disabled => (true, false),
        Act::Paste => (cx.clipboard_empty, false),
        Act::EmptyRecycler => (!cx.mac, false),
        Act::Hide => (!cx.mac, false),
        Act::ViewBrowser => (false, true),
        Act::Scale1 | Act::Scale15 | Act::Scale2 => (false, cx.scale == Some(act)),
        Act::ShowHidden => (false, cx.show_hidden),
        Act::Backdrop => (false, cx.backdrop),
        Act::ShowDock => (false, cx.dock_visible),
        Act::ShowMiniwindows => (false, cx.miniwindows_visible),
        Act::ShowRecycler => (false, cx.recycler_visible),
        _ => (false, false),
    }
}


/// Where a key goes.
#[derive(Clone, Copy, PartialEq, Eq, Debug, Structural)]
pub enum KeyRoute {
    /// The alert is up: Return presses its last button, Escape its first.
    AlertButton(usize),
    /// The Shell is key and takes every key.
    Shell,
    /// A Command key equivalent: the menus close and the item's action runs.
    Menu(Act),
    /// The File Viewer is key.
    FileViewer,
    Nothing,
}

pub open spec fn route_key_spec(
    alert_buttons: Option<usize>,
    key: Option<WinKind>,
    shell_shown: bool,
    fv_shown: bool,
    cx: ItemContext,
    k: crate::events::Key,
    mods: crate::events::Mods,
) -> KeyRoute {
    match alert_buttons {
        Some(n) => match k {
            crate::events::Key::Enter => KeyRoute::AlertButton(if n > 0 { (n - 1) as usize } else { 0 }),
            crate::events::Key::Escape => KeyRoute::AlertButton(0),
            _ => KeyRoute::Nothing,
        },
        None => if key == Some(WinKind::Shell) && shell_shown && !(cx.mac && mods.cmd) {
            KeyRoute::Shell
        } else if mods.cmd {
            match k {
                crate::events::Key::Char(c) => match find_key_from(MenuId::Main, c, 0) {
                    Some(it) => if !item_state_spec(it.act, cx).0 { KeyRoute::Menu(it.act) } else { KeyRoute::Nothing },
                    None => KeyRoute::Nothing,
                },
                _ => KeyRoute::Nothing,
            }
        } else if key == Some(WinKind::FileViewer) && fv_shown {
            KeyRoute::FileViewer
        } else {
            KeyRoute::Nothing
        },
    }
}

/// Where a key goes: to the alert while it is up, to the Shell when it is key (Command
/// shortcuts on macOS still reach the menus), to an enabled menu item by its Command key, or to
/// the File Viewer when it is key.
pub fn route_key(
    alert_buttons: Option<usize>,
    key: Option<WinKind>,
    shell_shown: bool,
    fv_shown: bool,
    cx: &ItemContext,
    k: crate::events::Key,
    mods: crate::events::Mods,
) -> (r: KeyRoute)
    ensures
        r == route_key_spec(alert_buttons, key, shell_shown, fv_shown, *cx, k, mods),
{
    if let Some(n) = alert_buttons {
        return match k {
            crate::events::Key::Enter => KeyRoute::AlertButton(if n > 0 { n - 1 } else { 0 }),
            crate::events::Key::Escape => KeyRoute::AlertButton(0),
            _ => KeyRoute::Nothing,
        };
    }
    if key == Some(WinKind::Shell) && shell_shown && !(cx.mac && mods.cmd) {
        return KeyRoute::Shell;
    }
    if mods.cmd {
        return match k {
            crate::events::Key::Char(c) => match find_key(MenuId::Main, c) {
                Some(it) => if !item_state(it.act, cx).0 { KeyRoute::Menu(it.act) } else { KeyRoute::Nothing },
                None => KeyRoute::Nothing,
            },
            _ => KeyRoute::Nothing,
        };
    }
    if key == Some(WinKind::FileViewer) && fv_shown {
        KeyRoute::FileViewer
    } else {
        KeyRoute::Nothing
    }
}

} // verus!
