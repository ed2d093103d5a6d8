//! Integer points and rectangles in logical Screen pixels.
use vstd::prelude::*;

verus! {

/// Whether an integer fits in an `i32`.
pub open spec fn fits(v: int) -> bool {
    i32::MIN <= v <= i32::MAX
}

#[derive(Clone, Copy, Debug, PartialEq, Eq, Default, Structural)]
pub struct Pt {
    pub x: i32,
    pub y: i32,
}

pub fn pt(x: i32, y: i32) -> (p: Pt)
    ensures
        p.x == x,
        p.y == y,
{
    Pt { x, y }
}

#[derive(Clone, Copy, Debug, PartialEq, Eq, Default, Structural)]
pub struct Rect {
    pub x: i32,
    pub y: i32,
    pub w: i32,
    pub h: i32,
}

pub fn rect(x: i32, y: i32, w: i32, h: i32) -> (r: Rect)
    ensures
        r == (Rect { x, y, w, h }),
{
    Rect { x, y, w, h }
}

pub(crate) fn div2(v: i32) -> (q: i32)
    ensures
        v >= 0 ==> q == v / 2,
        v < 0 ==> q == -((-v) / 2),
{
    if v >= 0 {
        v / 2
    } else {
        let m: i64 = -(v as i64);
        let q: i64 = m / 2;
        -(q as i32)
    }
}

pub open spec fn larger(a: int, b: int) -> int {
    if a >= b { a } else { b }
}

pub open spec fn smaller(a: int, b: int) -> int {
    if a <= b { a } else { b }
}

/// Rust's division by two, which rounds toward zero.
pub open spec fn half(v: int) -> int {
    if v >= 0 { v / 2 } else { -((-v) / 2) }
}

impl Rect {
    pub open spec fn right_spec(self) -> int {
        self.x + self.w
    }

    pub open spec fn bottom_spec(self) -> int {
        self.y + self.h
    }

    /// The right and bottom edges fit in an `i32`.
    pub open spec fn edges_fit(self) -> bool {
        fits(self.right_spec()) && fits(self.bottom_spec())
    }

    pub open spec fn has(self, p: Pt) -> bool {
        p.x >= self.x && p.y >= self.y && p.x < self.right_spec() && p.y < self.bottom_spec()
    }

    pub open spec fn empty_spec(self) -> bool {
        self.w <= 0 || self.h <= 0
    }

    pub open spec fn moved(self, dx: int, dy: int) -> Rect {
        Rect { x: (self.x + dx) as i32, y: (self.y + dy) as i32, w: self.w, h: self.h }
    }

    pub open spec fn can_move(self, dx: int, dy: int) -> bool {
        fits(self.x + dx) && fits(self.y + dy)
    }

    pub open spec fn can_inset(self, n: int) -> bool {
        fits(self.x + n) && fits(self.y + n) && fits(2 * n) && fits(self.w - 2 * n) && fits(self.h - 2
            * n)
    }

    pub open spec fn inset_spec(self, n: int) -> Rect {
        Rect {
            x: (self.x + n) as i32,
            y: (self.y + n) as i32,
            w: (self.w - 2 * n) as i32,
            h: (self.h - 2 * n) as i32,
        }
    }

    pub open spec fn can_intersect(self, o: Rect) -> bool {
        self.edges_fit() && o.edges_fit() && fits(smaller(self.right_spec(), o.right_spec()) - larger(
            self.x as int,
            o.x as int,
        )) && fits(smaller(self.bottom_spec(), o.bottom_spec()) - larger(self.y as int, o.y as int))
    }

    pub open spec fn intersect_spec(self, o: Rect) -> Rect {
        let x0 = larger(self.x as int, o.x as int);
        let y0 = larger(self.y as int, o.y as int);
        let x1 = smaller(self.right_spec(), o.right_spec());
        let y1 = smaller(self.bottom_spec(), o.bottom_spec());
        Rect { x: x0 as i32, y: y0 as i32, w: larger(x1 - x0, 0) as i32, h: larger(y1 - y0, 0) as i32 }
    }

    pub fn right(&self) -> (r: i32)
        requires
            fits(self.right_spec()),
        ensures
            r == self.right_spec(),
    {
        self.x + self.w
    }

    pub fn bottom(&self) -> (b: i32)
        requires
            fits(self.bottom_spec()),
        ensures
            b == self.bottom_spec(),
    {
        self.y + self.h
    }

    pub fn contains(&self, p: Pt) -> (b: bool)
        requires
            self.edges_fit(),
        ensures
            b == self.has(p),
    {
        p.x >= self.x && p.y >= self.y && p.x < self.right() && p.y < self.bottom()
    }

    pub fn inset(&self, n: i32) -> (r: Rect)
        requires
            self.can_inset(n as int),
        ensures
            r == self.inset_spec(n as int),
    {
        rect(self.x + n, self.y + n, self.w - 2 * n, self.h - 2 * n)
    }

    pub fn at(&self, dx: i32, dy: i32) -> (r: Rect)
        requires
            self.can_move(dx as int, dy as int),
        ensures
            r == self.moved(dx as int, dy as int),
    {
        rect(self.x + dx, self.y + dy, self.w, self.h)
    }

    pub fn intersect(&self, o: Rect) -> (r: Rect)
        requires
            self.can_intersect(o),
        ensures
            r == self.intersect_spec(o),
    {
        let x0 = if self.x >= o.x { self.x } else { o.x };
        let y0 = if self.y >= o.y { self.y } else { o.y };
        let (sr, or) = (self.right(), o.right());
        let (sb, ob) = (self.bottom(), o.bottom());
        let x1 = if sr <= or { sr } else { or };
        let y1 = if sb <= ob { sb } else { ob };
        let dw = x1 - x0;
        let dh = y1 - y0;
        rect(x0, y0, if dw >= 0 { dw } else { 0 }, if dh >= 0 { dh } else { 0 })
    }

    pub fn is_empty(&self) -> (b: bool)
        ensures
            b == self.empty_spec(),
    {
        self.w <= 0 || self.h <= 0
    }

    pub fn center(&self) -> (p: Pt)
        requires
            fits(self.x + half(self.w as int)),
            fits(self.y + half(self.h as int)),
        ensures
            p.x == self.x + half(self.w as int),
            p.y == self.y + half(self.h as int),
    {
        pt(self.x + div2(self.w), self.y + div2(self.h))
    }
}

// ---- laws ----------------------------------------------------------------------------------------

/// A point lies in the intersection of two rectangles exactly when it lies in both.
pub proof fn law_intersect_contains(a: Rect, b: Rect, p: Pt)
    requires
        a.can_intersect(b),
    ensures
        a.intersect_spec(b).has(p) <==> a.has(p) && b.has(p),
{
}

/// Intersecting is symmetric.
pub proof fn law_intersect_commutes(a: Rect, b: Rect)
    requires
        a.can_intersect(b),
    ensures
        b.can_intersect(a),
        a.intersect_spec(b) == b.intersect_spec(a),
{
}

/// An intersection never has a negative width or height.
pub proof fn law_intersect_not_negative(a: Rect, b: Rect)
    requires
        a.can_intersect(b),
    ensures
        a.intersect_spec(b).w >= 0,
        a.intersect_spec(b).h >= 0,
{
}

/// Moving a rectangle and moving it back gives the rectangle again.
pub proof fn law_at_undone(r: Rect, dx: int, dy: int)
    requires
        r.can_move(dx, dy),
    ensures
        r.moved(dx, dy).can_move(-dx, -dy),
        r.moved(dx, dy).moved(-dx, -dy) == r,
{
}

/// Insetting by `n` and then by `-n` gives the rectangle again.
pub proof fn law_inset_undone(r: Rect, n: int)
    requires
        r.can_inset(n),
        fits(-2 * n),
    ensures
        r.inset_spec(n).can_inset(-n),
        r.inset_spec(n).inset_spec(-n) == r,
{
}

/// An empty rectangle contains no point.
pub proof fn law_empty_contains_nothing(r: Rect, p: Pt)
    requires
        r.empty_spec(),
    ensures
        !r.has(p),
{
}

} // verus!
