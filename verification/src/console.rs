//! The Console window: the log, which sticks to its newest line until scrolled back.
use vstd::prelude::*;
use crate::chrome::{Scroller, SCROLL_W};
use crate::geom::{fits, larger, rect, smaller, Rect};

verus! {

/// One log line.
pub const LINE_H: i32 = 13;

/// The log's scroll state: a position, and whether it follows the newest line.
pub struct ConsoleView {
    pub scroll: i32,
    pub stick: bool,
}

/// How tall `n` lines of log are, with the margin.
pub open spec fn log_height(n: int) -> int {
    n * LINE_H + 4
}

/// Where the log shows from: its bottom when it sticks there, else the position it was left
/// at, never past the bottom.
pub open spec fn shown_pos(v: ConsoleView, n: int, visible: int) -> int {
    let bottom = larger(log_height(n) - visible, 0);
    if v.stick { bottom } else { smaller(v.scroll as int, bottom) }
}

/// The log's height, and how far it reaches past the content `c`, fit in an `i32`.
pub open spec fn console_fits(c: Rect, n: int) -> bool {
    &&& 0 <= n
    &&& log_height(n) <= i32::MAX
    &&& fits(log_height(n) - c.h)
}

impl ConsoleView {
    /// The position is never above the top: it is only ever set kept in range.
    pub open spec fn ok(&self) -> bool {
        self.scroll >= 0
    }

    /// The scroller down the left edge of the content `c`, over a log of `n` lines.
    pub fn scroller(&self, c: Rect, n: usize) -> (s: Scroller)
        requires
            console_fits(c, n as int),
        ensures
            s == (Scroller {
                r: Rect { x: c.x, y: c.y, w: SCROLL_W, h: c.h },
                vertical: true,
                frame: true,
                arrows: true,
                total: log_height(n as int) as i32,
                visible: c.h,
                pos: shown_pos(*self, n as int, c.h as int) as i32,
            }),
    {
        let total = (n as i32) * LINE_H + 4;
        let d = total - c.h;
        let bottom = if d > 0 { d } else { 0 };
        let pos = if self.stick {
            bottom
        } else if self.scroll < bottom {
            self.scroll
        } else {
            bottom
        };
        Scroller::framed(rect(c.x, c.y, SCROLL_W, c.h), true, total, c.h, pos)
    }

    /// Scrolls the log by `d` pixels from where it shows: kept between the top and the bottom,
    /// and sticking to the bottom again once it reaches it.
    pub fn scroll_by(&mut self, d: i32, c: Rect, n: usize)
        requires
            old(self).ok(),
            console_fits(c, n as int),
            fits(shown_pos(*old(self), n as int, c.h as int) + d),
        ensures
            final(self).ok(),
            ({
                let bottom = larger(log_height(n as int) - c.h, 0);
                let v = shown_pos(*old(self), n as int, c.h as int) + d;
                let to = if v < 0 { 0 } else if v > bottom { bottom } else { v };
                &&& final(self).scroll == to
                &&& final(self).stick == (to >= bottom)
            }),
    {
        let s = self.scroller(c, n);
        let max = s.max_pos();
        let v = s.pos + d;
        let to = if v < 0 {
            0
        } else if v > max {
            max
        } else {
            v
        };
        self.scroll = to;
        self.stick = to >= max;
    }
}

} // verus!
