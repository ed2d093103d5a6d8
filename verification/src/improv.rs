//! Improv's worksheet structure: a cube of named categories, pivoted by putting each category on
//! the row axis or the column axis. This module lays the categories out — which cells exist, how
//! the headers nest, where a cell or a tile sits — and leaves the figures to the sheet.
use vstd::prelude::*;
use crate::geom::{fits, larger, rect, smaller, Pt, Rect};
use crate::chrome::tdiv;
use crate::text::contains_str;
use crate::files::{decimal, decimal_chars};
use crate::text::{chars_of, push_char, push_str, slice_vec, string_of};
use crate::events::Key;

verus! {

/// The tile bar.
pub const TILE_H: i32 = 21;

/// A category tile, which is also one row-header column, so tiles sit over them.
pub const TILE_W: i32 = 86;

/// One column-header row (one per column category: nested headers).
pub const HDR_H: i32 = 17;

pub const ROW_H: i32 = 16;

pub const COL_W: i32 = 74;

/// The most items a category holds: an item index is one byte.
pub const MAX_ITEMS: usize = 256;

/// The most cells a worksheet holds.
pub const MAX_CELLS: usize = 100_000;

#[derive(Clone, Debug)]
pub struct Cat {
    pub name: String,
    pub items: Vec<String>,
    pub col: bool,
}

// ---- the axes ---------------------------------------------------------------------------------

/// The categories on the column axis (`col`) or the row axis, in order.
pub open spec fn axis_upto(cats: Seq<Cat>, col: bool, n: int) -> Seq<usize>
    decreases n,
{
    if n <= 0 {
        seq![]
    } else if cats[n - 1].col == col {
        axis_upto(cats, col, n - 1).push((n - 1) as usize)
    } else {
        axis_upto(cats, col, n - 1)
    }
}

pub open spec fn axis_spec(cats: Seq<Cat>, col: bool) -> Seq<usize> {
    axis_upto(cats, col, cats.len() as int)
}

proof fn lemma_axis_in_range(cats: Seq<Cat>, col: bool, n: int)
    requires
        0 <= n <= cats.len(),
    ensures
        forall|i: int| 0 <= i < axis_upto(cats, col, n).len() ==> #[trigger] axis_upto(cats, col, n)[i] < n,
        axis_upto(cats, col, n).len() <= n,
    decreases n,
{
    if n > 0 {
        lemma_axis_in_range(cats, col, n - 1);
    }
}

pub fn axis(cats: &[Cat], col: bool) -> (v: Vec<usize>)
    ensures
        v@ == axis_spec(cats@, col),
        forall|i: int| 0 <= i < v@.len() ==> #[trigger] v@[i] < cats@.len(),
{
    proof {
        lemma_axis_in_range(cats@, col, cats@.len() as int);
    }
    let mut v: Vec<usize> = Vec::new();
    let mut i: usize = 0;
    while i < cats.len()
        invariant
            i <= cats@.len(),
            v@ == axis_upto(cats@, col, i as int),
        decreases cats@.len() - i,
    {
        if cats[i].col == col {
            v.push(i);
        }
        i += 1;
    }
    v
}

/// The innermost category of an axis: the one whose items the view spends one line on, which a
/// new row (or column) joins.
pub fn inner(cats: &[Cat], col: bool) -> (r: Option<usize>)
    ensures
        r == (if axis_spec(cats@, col).len() == 0 { None } else { Some(axis_spec(cats@, col).last()) }),
{
    let a = axis(cats, col);
    if a.len() == 0 {
        None
    } else {
        Some(a[a.len() - 1])
    }
}

/// The number of items of a category.
pub open spec fn n_items(cats: Seq<Cat>, c: int) -> int {
    cats[c].items@.len() as int
}

/// An axis whose categories exist and have between one and 256 items.
pub open spec fn axis_ok(cats: Seq<Cat>, axis: Seq<usize>) -> bool {
    forall|i: int| 0 <= i < axis.len() ==> #[trigger] axis[i] < cats.len() && 1 <= n_items(cats, axis[i] as int) <= MAX_ITEMS
}

/// How many lines an axis has: the product of its categories' item counts.
pub open spec fn lines(cats: Seq<Cat>, axis: Seq<usize>) -> int
    decreases axis.len(),
{
    if axis.len() == 0 {
        1
    } else {
        lines(cats, axis.drop_last()) * n_items(cats, axis.last() as int)
    }
}

proof fn lemma_axis_ok_prefix(cats: Seq<Cat>, axis: Seq<usize>, a: int)
    requires
        axis_ok(cats, axis),
        0 <= a <= axis.len(),
    ensures
        axis_ok(cats, axis.take(a)),
{
    assert forall|i: int| 0 <= i < axis.take(a).len() implies #[trigger] axis.take(a)[i] < cats.len()
        && 1 <= n_items(cats, axis.take(a)[i] as int) <= MAX_ITEMS by {
        assert(axis.take(a)[i] == axis[i]);
    }
}

proof fn lemma_lines_grow(cats: Seq<Cat>, axis: Seq<usize>, a: int)
    requires
        axis_ok(cats, axis),
        0 <= a <= axis.len(),
    ensures
        1 <= lines(cats, axis.take(a)) <= lines(cats, axis),
    decreases axis.len() - a,
{
    lemma_axis_ok_prefix(cats, axis, a);
    lemma_lines_pos(cats, axis.take(a));
    if a < axis.len() {
        lemma_lines_grow(cats, axis, a + 1);
        let t = axis.take(a + 1);
        assert(t.drop_last() =~= axis.take(a));
        assert(t.last() == axis[a]);
        let m = n_items(cats, axis[a] as int);
        let l = lines(cats, axis.take(a));
        assert(l <= l * m) by (nonlinear_arith)
            requires
                l >= 1,
                m >= 1,
        ;
    } else {
        assert(axis.take(a) =~= axis);
    }
}

proof fn lemma_lines_pos(cats: Seq<Cat>, axis: Seq<usize>)
    requires
        axis_ok(cats, axis),
    ensures
        lines(cats, axis) >= 1,
    decreases axis.len(),
{
    if axis.len() > 0 {
        assert(axis_ok(cats, axis.drop_last())) by {
            assert forall|i: int| 0 <= i < axis.drop_last().len() implies #[trigger] axis.drop_last()[i] < cats.len()
                && 1 <= n_items(cats, axis.drop_last()[i] as int) <= MAX_ITEMS by {
                assert(axis.drop_last()[i] == axis[i]);
            }
        }
        lemma_lines_pos(cats, axis.drop_last());
        let l = lines(cats, axis.drop_last());
        let m = n_items(cats, axis.last() as int);
        assert(l * m >= 1) by (nonlinear_arith)
            requires
                l >= 1,
                m >= 1,
        ;
    }
}

/// Every combination of the items of `axis`, in nesting order (outermost first): the item of the
/// innermost category changes fastest.
pub open spec fn tuples_spec(cats: Seq<Cat>, axis: Seq<usize>) -> Seq<Seq<u8>>
    decreases axis.len(),
{
    if axis.len() == 0 {
        seq![seq![]]
    } else {
        let prev = tuples_spec(cats, axis.drop_last());
        let n = n_items(cats, axis.last() as int);
        Seq::new((prev.len() * n) as nat, |k: int| prev[k / n].push((k % n) as u8))
    }
}

proof fn lemma_tuples_len(cats: Seq<Cat>, axis: Seq<usize>)
    requires
        axis_ok(cats, axis),
    ensures
        tuples_spec(cats, axis).len() == lines(cats, axis),
    decreases axis.len(),
{
    if axis.len() > 0 {
        assert(axis_ok(cats, axis.drop_last())) by {
            assert forall|i: int| 0 <= i < axis.drop_last().len() implies #[trigger] axis.drop_last()[i] < cats.len()
                && 1 <= n_items(cats, axis.drop_last()[i] as int) <= MAX_ITEMS by {
                assert(axis.drop_last()[i] == axis[i]);
            }
        }
        lemma_tuples_len(cats, axis.drop_last());
        lemma_lines_pos(cats, axis.drop_last());
        let l = lines(cats, axis.drop_last());
        let m = n_items(cats, axis.last() as int);
        assert(l * m >= 0) by (nonlinear_arith)
            requires
                l >= 1,
                m >= 1,
        ;
    }
}

proof fn lemma_split(j: int, i: int, n: int)
    requires
        0 <= j,
        0 <= i < n,
    ensures
        (j * n + i) / n == j,
        (j * n + i) % n == i,
{
    vstd::arithmetic::div_mod::lemma_fundamental_div_mod_converse(j * n + i, n, j, i);
}

/// The contents of each vector of `v`.
pub open spec fn views(v: Seq<Vec<u8>>) -> Seq<Seq<u8>> {
    Seq::new(v.len(), |i: int| v[i]@)
}

/// Every combination of the items of `axis`: one line of the sheet each.
pub fn tuples(cats: &[Cat], axis: &[usize]) -> (out: Vec<Vec<u8>>)
    requires
        axis_ok(cats@, axis@),
        lines(cats@, axis@) <= MAX_CELLS,
    ensures
        views(out@) == tuples_spec(cats@, axis@),
{
    let mut out: Vec<Vec<u8>> = Vec::new();
    out.push(Vec::new());
    assert(axis@.take(0) =~= Seq::<usize>::empty());
    assert(views(out@)[0] =~= Seq::<u8>::empty());
    assert(views(out@) =~= tuples_spec(cats@, axis@.take(0)));
    let mut a: usize = 0;
    while a < axis.len()
        invariant
            a <= axis@.len(),
            axis_ok(cats@, axis@),
            lines(cats@, axis@) <= MAX_CELLS,
            views(out@) == tuples_spec(cats@, axis@.take(a as int)),
        decreases axis@.len() - a,
    {
        let c = axis[a];
        let n = cats[c].items.len();
        let ghost prev = views(out@);
        proof {
            let t = axis@.take(a + 1);
            assert(t.drop_last() =~= axis@.take(a as int));
            assert(t.last() == axis@[a as int]);
            lemma_axis_ok_prefix(cats@, axis@, a + 1);
            lemma_axis_ok_prefix(cats@, axis@, a as int);
            lemma_tuples_len(cats@, axis@.take(a + 1));
            lemma_tuples_len(cats@, axis@.take(a as int));
            lemma_lines_grow(cats@, axis@, a + 1);
        }
        let ghost total = (prev.len() * n) as int;
        assert(total <= MAX_CELLS);
        let mut next: Vec<Vec<u8>> = Vec::new();
        let mut j: usize = 0;
        while j < out.len()
            invariant
                j <= prev.len(),
                prev == views(out@),
                1 <= n <= MAX_ITEMS,
                total == prev.len() * n,
                total <= MAX_CELLS,
                views(next@) =~= Seq::new((j * n) as nat, |k: int| prev[k / (n as int)].push((k % (n as int)) as u8)),
            decreases prev.len() - j,
        {
            assert(j * n + n <= total) by (nonlinear_arith)
                requires
                    j < prev.len(),
                    total == prev.len() * n,
            ;
            let mut i: usize = 0;
            while i < n
                invariant
                    j < prev.len(),
                    i <= n,
                    prev == views(out@),
                    1 <= n <= MAX_ITEMS,
                    j * n + n <= total,
                    total <= MAX_CELLS,
                    views(next@) =~= Seq::new((j * n + i) as nat, |k: int| prev[k / (n as int)].push((k % (n as int)) as u8)),
                decreases n - i,
            {
                let mut t = out[j].clone();
                assert(t@ =~= prev[j as int]);
                t.push(i as u8);
                let ghost before = views(next@);
                next.push(t);
                proof {
                    lemma_split(j as int, i as int, n as int);
                    assert(views(next@) =~= before.push(prev[j as int].push(i as u8)));
                }
                i += 1;
            }
            assert((j + 1) * n == j * n + n) by (nonlinear_arith);
            j += 1;
        }
        out = next;
        a += 1;
    }
    assert(axis@.take(axis@.len() as int) =~= axis@);
    out
}

/// How many leaf lines one header cell at `level` of `axis` spans: the product of the item counts
/// of the categories nested inside it.
pub open spec fn span_spec(cats: Seq<Cat>, axis: Seq<usize>, level: int) -> int {
    lines(cats, axis.skip(level + 1))
}

pub fn span(cats: &[Cat], axis: &[usize], level: usize) -> (s: usize)
    requires
        level < axis@.len(),
        axis_ok(cats@, axis@),
        lines(cats@, axis@) <= MAX_CELLS,
    ensures
        s == span_spec(cats@, axis@, level as int),
{
    proof {
        lemma_lines_suffix(cats@, axis@, level + 1);
        lemma_lines_from_pos(cats@, axis@, level + 1);
    }
    let mut s: usize = 1;
    let mut k: usize = axis.len();
    while k > level + 1
        invariant
            level + 1 <= k <= axis@.len(),
            axis_ok(cats@, axis@),
            lines_from(cats@, axis@, level + 1) <= MAX_CELLS,
            s == lines_from(cats@, axis@, k as int),
        decreases k,
    {
        k -= 1;
        proof {
            lemma_lines_from_grow(cats@, axis@, level + 1, k as int);
        }
        s = cats[axis[k]].items.len() * s;
    }
    s
}

/// The product of the item counts of `axis[k..]`.
pub open spec fn lines_from(cats: Seq<Cat>, axis: Seq<usize>, k: int) -> int
    decreases axis.len() - k,
{
    if k >= axis.len() {
        1
    } else {
        n_items(cats, axis[k] as int) * lines_from(cats, axis, k + 1)
    }
}

proof fn lemma_lines_from_grow(cats: Seq<Cat>, axis: Seq<usize>, lo: int, k: int)
    requires
        axis_ok(cats, axis),
        0 <= lo <= k < axis.len(),
    ensures
        1 <= lines_from(cats, axis, k + 1),
        lines_from(cats, axis, k) <= lines_from(cats, axis, lo),
    decreases k - lo,
{
    lemma_lines_from_pos(cats, axis, k + 1);
    let m = n_items(cats, axis[k] as int);
    let l = lines_from(cats, axis, k + 1);
    assert(m * l >= l) by (nonlinear_arith)
        requires
            m >= 1,
            l >= 1,
    ;
    if k > lo {
        lemma_lines_from_grow(cats, axis, lo, k - 1);
        lemma_lines_from_pos(cats, axis, k);
        let m2 = n_items(cats, axis[k - 1] as int);
        let l2 = lines_from(cats, axis, k);
        assert(m2 * l2 >= l2) by (nonlinear_arith)
            requires
                m2 >= 1,
                l2 >= 1,
        ;
    }
}

proof fn lemma_lines_from_pos(cats: Seq<Cat>, axis: Seq<usize>, k: int)
    requires
        axis_ok(cats, axis),
        0 <= k,
    ensures
        lines_from(cats, axis, k) >= 1,
    decreases axis.len() - k,
{
    if k < axis.len() {
        lemma_lines_from_pos(cats, axis, k + 1);
        let m = n_items(cats, axis[k] as int);
        let l = lines_from(cats, axis, k + 1);
        assert(m * l >= 1) by (nonlinear_arith)
            requires
                m >= 1,
                l >= 1,
        ;
    }
}

/// `lines` of the suffix of `axis` from `k` is `lines_from(k)`, and no more than `lines` of the
/// whole axis.
proof fn lemma_lines_suffix(cats: Seq<Cat>, axis: Seq<usize>, k: int)
    requires
        axis_ok(cats, axis),
        0 <= k <= axis.len(),
    ensures
        lines(cats, axis.skip(k)) == lines_from(cats, axis, k),
        lines(cats, axis.subrange(k, axis.len() as int)) == lines_from(cats, axis, k),
        lines_from(cats, axis, k) <= lines(cats, axis),
{
    lemma_lines_equiv(cats, axis.skip(k), axis, k);
    assert(axis.skip(k) =~= axis.subrange(k, axis.len() as int));
    lemma_lines_equiv(cats, axis, axis, 0);
    if k > 0 {
        lemma_lines_from_grow(cats, axis, 0, k - 1);
        lemma_lines_from_pos(cats, axis, k);
        let m = n_items(cats, axis[k - 1] as int);
        let l = lines_from(cats, axis, k);
        assert(m * l >= l) by (nonlinear_arith)
            requires
                m >= 1,
                l >= 1,
        ;
    }
}

/// `lines` of `s`, where `s` is `axis[k..]`, multiplies the same item counts as `lines_from`.
proof fn lemma_lines_equiv(cats: Seq<Cat>, s: Seq<usize>, axis: Seq<usize>, k: int)
    requires
        0 <= k <= axis.len(),
        s =~= axis.skip(k),
    ensures
        lines(cats, s) == lines_from(cats, axis, k),
    decreases s.len(),
{
    if s.len() > 0 {
        let t = axis.take(axis.len() - 1);
        lemma_lines_equiv(cats, s.drop_last(), t, k);
        lemma_lines_from_last(cats, axis, k);
        vstd::arithmetic::mul::lemma_mul_is_commutative(
            lines(cats, s.drop_last()),
            n_items(cats, s.last() as int),
        );
    }
}

/// Dropping the last category of `axis` divides `lines_from` by its item count.
proof fn lemma_lines_from_last(cats: Seq<Cat>, axis: Seq<usize>, k: int)
    requires
        0 <= k < axis.len(),
    ensures
        lines_from(cats, axis, k) == lines_from(cats, axis.take(axis.len() - 1), k) * n_items(cats, axis.last() as int),
    decreases axis.len() - k,
{
    let t = axis.take(axis.len() - 1);
    let m = n_items(cats, axis.last() as int);
    if k == axis.len() - 1 {
        assert(lines_from(cats, t, k) == 1);
        assert(lines_from(cats, axis, k + 1) == 1);
    } else {
        lemma_lines_from_last(cats, axis, k + 1);
        assert(t[k] == axis[k]);
        let a = n_items(cats, axis[k] as int);
        let b = lines_from(cats, t, k + 1);
        assert(a * (b * m) == (a * b) * m) by (nonlinear_arith);
    }
}

// ---- layout -------------------------------------------------------------------------------------

/// Where the worksheet's parts sit in its window.
pub struct Lay {
    pub c: Rect,
    pub rows: Vec<usize>,
    pub cols: Vec<usize>,
    pub rt: Vec<Vec<u8>>,
    pub ct: Vec<Vec<u8>>,
    pub head_w: i32,
    pub head_h: i32,
    /// The left edge of the sheet: the vertical scroller has the strip before it.
    pub sx: i32,
    /// How far the sheet is scrolled under its headers.
    pub off: Pt,
    pub grid: Rect,
    pub pane: Rect,
    pub vbar: Rect,
    pub hbar: Rect,
}

/// The lines of the layout in every coordinate it computes stay well inside an `i32`.
pub open spec fn small(v: int) -> bool {
    -0x100000 <= v <= 0x100000
}

/// Writes `vals[i]` into slot `cats[i]` of `k`, for `i` in `0..m`, in order.
pub open spec fn fill(k: Seq<u8>, cats: Seq<usize>, vals: Seq<u8>, m: int) -> Seq<u8>
    decreases m,
{
    if m <= 0 {
        k
    } else {
        fill(k, cats, vals, m - 1).update(cats[m - 1] as int, vals[m - 1])
    }
}

impl Lay {
    pub open spec fn divider_spec(&self) -> int {
        self.sx + self.head_w
    }

    pub open spec fn tile_spec(&self, col: bool, i: int) -> Rect {
        let x = (if col { self.divider_spec() } else { self.sx as int }) + i * TILE_W;
        Rect { x: (x + 1) as i32, y: (self.c.y + 2) as i32, w: (TILE_W - 3) as i32, h: (TILE_H - 4) as i32 }
    }

    pub open spec fn cell_spec(&self, r: int, c: int) -> Rect {
        Rect {
            x: (self.grid.x - self.off.x + c * COL_W) as i32,
            y: (self.grid.y - self.off.y + r * ROW_H) as i32,
            w: COL_W,
            h: ROW_H,
        }
    }

    /// The coordinate of the cell at row line `r` and column line `c`: each row category takes the
    /// item of that row line, each column category that of the column line, and the others the
    /// first item.
    pub open spec fn coord_spec(&self, n: int, r: int, c: int) -> Seq<u8> {
        let k0 = Seq::new(n as nat, |i: int| 0u8);
        let k1 = fill(k0, self.rows@, self.rt@[r]@, self.rows@.len() as int);
        fill(k1, self.cols@, self.ct@[c]@, self.cols@.len() as int)
    }

    /// The row line `r` and column line `c` exist, and the categories they name are among `n`.
    pub open spec fn coord_ok(&self, n: int, r: int, c: int) -> bool {
        &&& 0 <= r < self.rt@.len()
        &&& 0 <= c < self.ct@.len()
        &&& self.rt@[r]@.len() == self.rows@.len()
        &&& self.ct@[c]@.len() == self.cols@.len()
        &&& forall|i: int| 0 <= i < self.rows@.len() ==> #[trigger] self.rows@[i] < n
        &&& forall|i: int| 0 <= i < self.cols@.len() ==> #[trigger] self.cols@[i] < n
    }

    /// The divider between the row zone and the column zone of the tile bar.
    pub fn divider(&self) -> (d: i32)
        requires
            fits(self.sx + self.head_w),
        ensures
            d == self.divider_spec(),
    {
        self.sx + self.head_w
    }

    /// Tile `i` of the column zone (`col`) or the row zone.
    pub fn tile(&self, col: bool, i: usize) -> (r: Rect)
        requires
            fits(self.sx + self.head_w),
            i <= i32::MAX,
            fits(i * TILE_W),
            fits((if col { self.divider_spec() } else { self.sx as int }) + i * TILE_W),
            fits((if col { self.divider_spec() } else { self.sx as int }) + i * TILE_W + 1),
            fits(self.c.y + 2),
        ensures
            r == self.tile_spec(col, i as int),
    {
        let x = if col {
            self.divider()
        } else {
            self.sx
        } + i as i32 * TILE_W;
        rect(x + 1, self.c.y + 2, TILE_W - 3, TILE_H - 4)
    }

    /// The cell at row line `r` and column line `c`.
    pub fn cell(&self, r: usize, c: usize) -> (x: Rect)
        requires
            r <= i32::MAX,
            c <= i32::MAX,
            fits(self.grid.x - self.off.x),
            fits(self.grid.y - self.off.y),
            fits(c * COL_W),
            fits(r * ROW_H),
            fits(self.grid.x - self.off.x + c * COL_W),
            fits(self.grid.y - self.off.y + r * ROW_H),
        ensures
            x == self.cell_spec(r as int, c as int),
    {
        rect(self.grid.x - self.off.x + c as i32 * COL_W, self.grid.y - self.off.y + r as i32 * ROW_H, COL_W, ROW_H)
    }

    /// The row line and column line at `p`, as Rust's division (rounding toward zero) and a cast
    /// to `usize` find them; for a point at or below and right of the grid's scrolled origin these
    /// are the plain quotients.
    pub fn at(&self, p: Pt) -> (rc: (usize, usize))
        requires
            fits(p.x - self.grid.x + self.off.x),
            fits(p.y - self.grid.y + self.off.y),
        ensures
            rc.0 == tdiv(p.y - self.grid.y + self.off.y, ROW_H as int) as usize,
            rc.1 == tdiv(p.x - self.grid.x + self.off.x, COL_W as int) as usize,
            p.y - self.grid.y + self.off.y >= 0 ==> rc.0 == (p.y - self.grid.y + self.off.y) / (ROW_H as int),
            p.x - self.grid.x + self.off.x >= 0 ==> rc.1 == (p.x - self.grid.x + self.off.x) / (COL_W as int),
    {
        let ny: i64 = p.y as i64 - self.grid.y as i64 + self.off.y as i64;
        let nx: i64 = p.x as i64 - self.grid.x as i64 + self.off.x as i64;
        let qy: i64 = if ny >= 0 { ny / (ROW_H as i64) } else { -((-ny) / (ROW_H as i64)) };
        let qx: i64 = if nx >= 0 { nx / (COL_W as i64) } else { -((-nx) / (COL_W as i64)) };
        (qy as usize, qx as usize)
    }

    /// The full coordinate of the cell at row line `r`, column line `c`.
    pub fn coord(&self, n: usize, r: usize, c: usize) -> (k: Vec<u8>)
        requires
            self.coord_ok(n as int, r as int, c as int),
        ensures
            k@ == self.coord_spec(n as int, r as int, c as int),
    {
        let mut k: Vec<u8> = Vec::new();
        let mut i: usize = 0;
        while i < n
            invariant
                i <= n,
                k@ =~= Seq::new(i as nat, |j: int| 0u8),
            decreases n - i,
        {
            k.push(0);
            i += 1;
        }
        let ghost k0 = k@;
        let rt = &self.rt[r];
        let mut i: usize = 0;
        while i < self.rows.len()
            invariant
                self.coord_ok(n as int, r as int, c as int),
                rt@ == self.rt@[r as int]@,
                i <= self.rows@.len(),
                k@.len() == n,
                k@ == fill(k0, self.rows@, rt@, i as int),
            decreases self.rows@.len() - i,
        {
            k.set(self.rows[i], rt[i]);
            i += 1;
        }
        let ghost k1 = k@;
        let ct = &self.ct[c];
        let mut i: usize = 0;
        while i < self.cols.len()
            invariant
                self.coord_ok(n as int, r as int, c as int),
                ct@ == self.ct@[c as int]@,
                i <= self.cols@.len(),
                k@.len() == n,
                k@ == fill(k1, self.cols@, ct@, i as int),
            decreases self.cols@.len() - i,
        {
            k.set(self.cols[i], ct[i]);
            i += 1;
        }
        k
    }
}

// ---- editing the categories ---------------------------------------------------------------------

/// `Item n`, the name a new item gets.
pub open spec fn item_name(n: nat) -> Seq<char> {
    "Item "@ + decimal(n)
}

fn item_name_string(n: u64) -> (s: String)
    ensures
        s@ == item_name(n as nat),
{
    let mut s = String::from_str("Item ");
    let d = decimal_chars(n);
    push_str(&mut s, string_of(d.as_slice()).as_str());
    s
}

proof fn lemma_item_names_differ(a: nat, b: nat)
    requires
        a != b,
    ensures
        item_name(a) != item_name(b),
{
    reveal_strlit("Item ");
    if item_name(a) == item_name(b) {
        assert(item_name(a).skip(5) =~= decimal(a));
        assert(item_name(b).skip(5) =~= decimal(b));
        crate::files::lemma_decimal_injective(a, b);
    }
}

/// One of `items` is called `Item m`.
pub open spec fn has_name(items: Seq<String>, m: nat) -> bool {
    exists|i: int| 0 <= i < items.len() && #[trigger] items[i]@ == item_name(m)
}

/// `at` finds the row and column line of every point of cell (`r`, `c`), however far the sheet
/// is scrolled.
pub proof fn law_at_finds_the_cell(lay: Lay, r: int, c: int, dx: int, dy: int)
    requires
        0 <= r,
        0 <= c,
        0 <= dx < COL_W,
        0 <= dy < ROW_H,
        fits(lay.grid.x - lay.off.x + c * COL_W),
        fits(lay.grid.y - lay.off.y + r * ROW_H),
    ensures
        (lay.cell_spec(r, c).x + dx - lay.grid.x + lay.off.x) / (COL_W as int) == c,
        (lay.cell_spec(r, c).y + dy - lay.grid.y + lay.off.y) / (ROW_H as int) == r,
        tdiv(lay.cell_spec(r, c).x + dx - lay.grid.x + lay.off.x, COL_W as int) == c,
        tdiv(lay.cell_spec(r, c).y + dy - lay.grid.y + lay.off.y, ROW_H as int) == r,
{
    let q = lay.cell_spec(r, c);
    assert(q.x + dx - lay.grid.x + lay.off.x == c * COL_W + dx);
    assert(q.y + dy - lay.grid.y + lay.off.y == r * ROW_H + dy);
    assert((c * COL_W + dx) / (COL_W as int) == c) by (nonlinear_arith)
        requires
            0 <= c,
            0 <= dx < COL_W,
    ;
    assert((r * ROW_H + dy) / (ROW_H as int) == r) by (nonlinear_arith)
        requires
            0 <= r,
            0 <= dy < ROW_H,
    ;
}

/// The name an item added to a category with `items` gets: the first `Item n`, counting from
/// one, that the category does not hold yet.
pub fn new_item_name(items: &[String]) -> (r: String)
    requires
        items@.len() < MAX_ITEMS,
    ensures
        exists|n: nat| 1 <= n <= items@.len() + 1 && r@ == item_name(n)
            && (forall|m: nat| 1 <= m < n ==> #[trigger] has_name(items@, m)),
        forall|i: int| 0 <= i < items@.len() ==> #[trigger] items@[i]@ != r@,
{
    let mut n: u64 = 1;
    loop
        invariant
            1 <= n <= items@.len() + 1,
            items@.len() < MAX_ITEMS,
            forall|m: nat| 1 <= m < n ==> #[trigger] has_name(items@, m),
        decreases items@.len() + 1 - n,
    {
        let name = item_name_string(n);
        if !contains_str(items, name.as_str()) {
            assert(r_witness(items@, name@, n as nat));
            return name;
        }
        assert(has_name(items@, n as nat));
        proof {
            if n == items@.len() + 1 {
                // the names `Item 1` ..= `Item n` differ, so not all of them are items
                lemma_pigeon(items@, n as nat);
            }
        }
        n += 1;
    }
}

/// `r` is `Item n`, and every earlier `Item m` is taken.
spec fn r_witness(items: Seq<String>, r: Seq<char>, n: nat) -> bool {
    1 <= n <= items.len() + 1 && r == item_name(n) && (forall|m: nat| 1 <= m < n ==> #[trigger] has_name(items, m))
}

/// Fewer than `n` items cannot hold all of the `n` different names `Item 1` ..= `Item n`.
proof fn lemma_pigeon(items: Seq<String>, n: nat)
    requires
        n == items.len() + 1,
    ensures
        exists|m: nat| 1 <= m <= n && !#[trigger] has_name(items, m),
{
    if forall|m: nat| 1 <= m <= n ==> #[trigger] has_name(items, m) {
        let f = |m: nat| choose|i: int| 0 <= i < items.len() && items[i]@ == item_name(m);
        let dom = Set::new(|m: nat| 1 <= m <= n);
        let img = Set::new(|i: int| 0 <= i < items.len());
        assert forall|m: nat| 1 <= m <= n implies 0 <= #[trigger] f(m) < items.len() && items[f(m)]@ == item_name(m) by {
            assert(has_name(items, m));
        }
        lemma_nat_range_len(n);
        vstd::set_lib::lemma_int_range(0, items.len() as int);
        assert(img =~= vstd::set_lib::set_int_range(0, items.len() as int));
        let mapped = dom.map(f);
        assert(mapped.subset_of(img)) by {
            assert forall|i: int| mapped.contains(i) implies img.contains(i) by {
                let m = choose|m: nat| dom.contains(m) && f(m) == i;
            }
        }
        assert forall|a: nat, b: nat| dom.contains(a) && dom.contains(b) && #[trigger] f(a) == #[trigger] f(b) implies a == b by {
            if a != b {
                lemma_item_names_differ(a, b);
            }
        }
        vstd::set_lib::lemma_map_size(dom, mapped, f);
        vstd::set_lib::lemma_len_subset(mapped, img);
    }
}

proof fn lemma_nat_range_len(n: nat)
    ensures
        Set::new(|m: nat| 1 <= m <= n).finite(),
        Set::new(|m: nat| 1 <= m <= n).len() == n,
    decreases n,
{
    if n == 0 {
        assert(Set::new(|m: nat| 1 <= m <= n) =~= Set::<nat>::empty());
    } else {
        lemma_nat_range_len((n - 1) as nat);
        assert(Set::new(|m: nat| 1 <= m <= n) =~= Set::new(|m: nat| 1 <= m <= (n - 1) as nat).insert(n));
    }
}

/// The zone and slot a category tile dropped with its left edge at `x` lands in: the column zone
/// when its middle is past the divider, and the slot its middle is over.
pub fn drop_slot(lay: &Lay, x: i32) -> (r: (bool, usize))
    requires
        fits(lay.sx + lay.head_w),
        fits(x + TILE_W / 2),
        fits(x + TILE_W / 2 - lay.divider_spec()),
        fits(x + TILE_W / 2 - lay.sx),
    ensures
        ({
            let mid = x + TILE_W / 2;
            let to_col = mid >= lay.divider_spec();
            let zone = if to_col { lay.divider_spec() } else { lay.sx as int };
            r == (to_col, (larger(mid - zone, 0) / (TILE_W as int)) as usize)
        }),
{
    let mid = x + TILE_W / 2;
    let to_col = mid >= lay.divider();
    let zone = if to_col {
        lay.divider()
    } else {
        lay.sx
    };
    let d = if mid - zone < 0 {
        0
    } else {
        mid - zone
    };
    (to_col, (d / TILE_W) as usize)
}

/// How far to scroll one axis so that the line at `at` (of `cell` pixels) shows in `vis`
/// pixels: as little as possible from `pos`.
pub fn reveal_axis(pos: i32, at: i32, cell: i32, vis: i32) -> (r: i32)
    requires
        fits(at + cell),
        fits(at + cell - vis),
    ensures
        ({
            let lo = larger(at + cell - vis, 0);
            r == smaller(larger(pos as int, lo), larger(at as int, lo))
        }),
{
    let lo = if at + cell - vis > 0 {
        at + cell - vis
    } else {
        0
    };
    let hi = if at > lo {
        at
    } else {
        lo
    };
    if pos < lo {
        lo
    } else if pos > hi {
        hi
    } else {
        pos
    }
}


// ---- typing into the sheet ----------------------------------------------------------------------

/// What is being typed into the worksheet: a figure into the selected cell (`edit`), a new name
/// for item `1` of category `0` (`hedit`), or formula row `fsel` (`fedit`).
pub struct SheetEdit {
    pub edit: Option<String>,
    pub hedit: Option<(usize, usize, String)>,
    pub fsel: Option<usize>,
    pub fedit: String,
}

/// What is left to do once a key has been typed into the worksheet.
#[derive(Clone, Copy, PartialEq, Eq, Debug, Structural)]
pub enum IvKey {
    /// Only the typing changed, or nothing.
    Nothing,
    /// The item being named takes what is typed.
    CommitName,
    /// The formula row being edited takes what is typed.
    CommitFormula,
    /// In the grid: say that the cell is computed by a formula (where `computed_note`), drop the
    /// cell's figure (where `clear`), enter what is typed into the cell (where `commit`), then
    /// select the cell at row line `r` and column line `c` and bring it into view.
    Cell { computed_note: bool, clear: bool, commit: bool, r: usize, c: usize },
}

/// Typing `ch`, or Backspace / Delete, into text `t`.
pub open spec fn typed(t: Seq<char>, k: Key) -> Seq<char> {
    match k {
        Key::Char(ch) => t.push(ch),
        Key::Backspace | Key::Delete => if t.len() > 0 { t.drop_last() } else { t },
        _ => t,
    }
}

/// The characters that start or extend a figure in a cell.
pub open spec fn figure_char(ch: char) -> bool {
    ('0' <= ch && ch <= '9') || ch == '.' || ch == '-'
}

pub open spec fn opt_view(o: Option<String>) -> Option<Seq<char>> {
    match o {
        Some(s) => Some(s@),
        None => None,
    }
}

pub open spec fn hedit_view(o: Option<(usize, usize, String)>) -> Option<(usize, usize, Seq<char>)> {
    match o {
        Some((c, i, t)) => Some((c, i, t@)),
        None => None,
    }
}

/// The cell selected after key `k`, from row line `r` and column line `c` of `rows`×`cols`.
pub open spec fn moved_to(k: Key, r: int, c: int, rows: int, cols: int) -> (int, int) {
    match k {
        Key::Enter | Key::Down => (smaller(r + 1, rows - 1), c),
        Key::Up => (larger(r - 1, 0), c),
        Key::Left => (r, larger(c - 1, 0)),
        Key::Right | Key::Tab => (r, smaller(c + 1, cols - 1)),
        _ => (r, c),
    }
}

pub open spec fn moves(k: Key) -> bool {
    k == Key::Enter || k == Key::Down || k == Key::Up || k == Key::Left || k == Key::Right || k == Key::Tab
}

fn typed_exec(t: &String, k: Key) -> (r: String)
    ensures
        r@ == typed(t@, k),
{
    match k {
        Key::Char(ch) => {
            let mut r = string_of(chars_of(t.as_str()).as_slice());
            push_char(&mut r, ch);
            r
        },
        Key::Backspace | Key::Delete => {
            let v = chars_of(t.as_str());
            if v.len() > 0 {
                string_of(slice_vec(&v, 0, v.len() - 1).as_slice())
            } else {
                string_of(v.as_slice())
            }
        },
        _ => string_of(chars_of(t.as_str()).as_slice()),
    }
}

impl SheetEdit {
    /// Takes key `k` typed into the worksheet: into the name being typed for an item, else into
    /// the formula row being edited, else into the grid, where the selected cell sits at row line
    /// `r` and column line `c` of `rows`×`cols` and is `computed` by a formula or not.
    pub fn key(&mut self, k: Key, computed: bool, r: usize, c: usize, rows: usize, cols: usize) -> (e: IvKey)
        requires
            rows >= 1,
            cols >= 1,
            r < rows,
            c < cols,
        ensures
            ({
                let o = *old(self);
                let f = *final(self);
                if o.hedit is Some {
                    let (ci, ii, t) = hedit_view(o.hedit)->0;
                    &&& f.fsel == o.fsel && f.fedit@ == o.fedit@ && opt_view(f.edit) == opt_view(o.edit)
                    &&& if k == Key::Escape {
                        e == IvKey::Nothing && f.hedit is None
                    } else if k == Key::Enter || k == Key::Tab {
                        e == IvKey::CommitName && hedit_view(f.hedit) == hedit_view(o.hedit)
                    } else {
                        e == IvKey::Nothing && hedit_view(f.hedit) == Some((ci, ii, typed(t, k)))
                    }
                } else if o.fsel is Some {
                    &&& f.hedit is None && opt_view(f.edit) == opt_view(o.edit)
                    &&& if k == Key::Escape {
                        e == IvKey::Nothing && f.fsel is None && f.fedit@.len() == 0
                    } else if k == Key::Enter || k == Key::Tab {
                        e == IvKey::CommitFormula && f.fsel == o.fsel && f.fedit@ == o.fedit@
                    } else {
                        e == IvKey::Nothing && f.fsel == o.fsel && f.fedit@ == typed(o.fedit@, k)
                    }
                } else {
                    let (nr, nc) = moved_to(k, r as int, c as int, rows as int, cols as int);
                    let fig = k matches Key::Char(ch) && figure_char(ch);
                    &&& f.hedit is None && f.fsel is None && f.fedit@ == o.fedit@
                    &&& e == IvKey::Cell {
                        computed_note: fig && computed,
                        clear: k == Key::Delete && !computed,
                        commit: moves(k),
                        r: nr as usize,
                        c: nc as usize,
                    }
                    &&& opt_view(f.edit) == if fig && !computed {
                        Some(match opt_view(o.edit) { Some(t) => t, None => Seq::<char>::empty() }.push(k->Char_0))
                    } else if k == Key::Backspace {
                        match opt_view(o.edit) { Some(t) => Some(typed(t, k)), None => None }
                    } else if k == Key::Escape || k == Key::Delete {
                        None
                    } else {
                        opt_view(o.edit)
                    }
                }
            }),
    {
        if self.hedit.is_some() {
            let (ci, ii, t) = match self.hedit.take() {
                Some(h) => h,
                None => return IvKey::Nothing,
            };
            if k == Key::Escape {
                return IvKey::Nothing;
            }
            if k == Key::Enter || k == Key::Tab {
                self.hedit = Some((ci, ii, t));
                return IvKey::CommitName;
            }
            let t2 = typed_exec(&t, k);
            self.hedit = Some((ci, ii, t2));
            return IvKey::Nothing;
        }
        if self.fsel.is_some() {
            if k == Key::Escape {
                self.fsel = None;
                self.fedit = String::new();
                return IvKey::Nothing;
            }
            if k == Key::Enter || k == Key::Tab {
                return IvKey::CommitFormula;
            }
            self.fedit = typed_exec(&self.fedit, k);
            return IvKey::Nothing;
        }
        let mut computed_note = false;
        let mut clear = false;
        match k {
            Key::Char(ch) => {
                if ('0' <= ch && ch <= '9') || ch == '.' || ch == '-' {
                    if computed {
                        computed_note = true;
                    } else {
                        let t = match &self.edit {
                            Some(t) => typed_exec(t, k),
                            None => {
                                let mut t = String::new();
                                push_char(&mut t, ch);
                                t
                            },
                        };
                        self.edit = Some(t);
                    }
                }
            },
            Key::Backspace => {
                let t = match &self.edit {
                    Some(t) => Some(typed_exec(t, k)),
                    None => None,
                };
                self.edit = t;
            },
            Key::Escape => {
                self.edit = None;
            },
            Key::Delete => {
                self.edit = None;
                clear = !computed;
            },
            _ => {},
        }
        let commit = k == Key::Enter || k == Key::Down || k == Key::Up || k == Key::Left || k == Key::Right || k == Key::Tab;
        let (nr, nc) = match k {
            Key::Enter | Key::Down => (if r + 1 < rows { r + 1 } else { rows - 1 }, c),
            Key::Up => (if r > 0 { r - 1 } else { 0 }, c),
            Key::Left => (r, if c > 0 { c - 1 } else { 0 }),
            Key::Right | Key::Tab => (r, if c + 1 < cols { c + 1 } else { cols - 1 }),
            _ => (r, c),
        };
        IvKey::Cell { computed_note, clear, commit, r: nr, c: nc }
    }
}


// ---- pressing in the sheet -----------------------------------------------------------------------

/// The height of a formula row in the formula pane.
pub const FROW_H: i32 = 15;

/// What a press in the worksheet (off its scrollers) lands on. What is being typed is entered
/// first: the item name for every press; the formula too for all but a press in the formula
/// pane outside its rows; the figure in the cell too for a header or a cell.
#[derive(Clone, Copy, PartialEq, Eq, Debug, Structural)]
pub enum IvClick {
    /// Category tile `cat` is picked up, grabbed at `grab` from its corner, the pointer at `at`.
    Tile { cat: usize, grab: Pt, at: Pt },
    /// Item `i` of category `c` in a header is picked; or, when it was picked already
    /// (`rename`), its name is opened for typing.
    Header { c: usize, i: usize, rename: bool },
    /// Formula row `i` of the pane (one past the last adds a formula) is opened for typing.
    FormulaRow(usize),
    /// Elsewhere in the formula pane.
    Pane,
    /// The cell at row line `r` and column line `c` is selected.
    Cell(usize, usize),
    /// Anywhere else.
    Elsewhere,
}

/// The layout's lines all stay well inside an `i32`.
pub open spec fn lay_small(lay: Lay) -> bool {
    &&& small(lay.sx as int) && small(lay.head_w as int) && small(lay.head_h as int) && small(lay.c.y as int)
    &&& small(lay.grid.x as int) && small(lay.grid.y as int) && small(lay.grid.w as int) && small(lay.grid.h as int)
    &&& small(lay.pane.x as int) && small(lay.pane.y as int) && small(lay.pane.w as int) && small(lay.pane.h as int)
    &&& 0 <= lay.off.x <= 0x100000 && 0 <= lay.off.y <= 0x100000
}

/// The first tile from `i` on of the categories `axis` on the column zone (`col`) or row zone
/// under `p`.
pub open spec fn tile_at(lay: Lay, axis: Seq<usize>, col: bool, p: Pt, i: int) -> Option<int>
    decreases axis.len() - i,
{
    if i < 0 || i >= axis.len() {
        None
    } else if lay.tile_spec(col, i).has(p) {
        Some(i)
    } else {
        tile_at(lay, axis, col, p, i + 1)
    }
}

/// The (category, item) of the row or column header under `p`.
pub open spec fn header_at(lay: Lay, p: Pt) -> Option<(usize, usize)> {
    if lay.sx <= p.x < lay.grid.x && lay.grid.w > 0 && lay.grid.y <= p.y < lay.grid.y + lay.grid.h {
        let l = (p.x - lay.sx) / (TILE_W as int);
        let r = (p.y - lay.grid.y + lay.off.y) / (ROW_H as int);
        if l < lay.rows@.len() && r < lay.rt@.len() && l < lay.rt@[r]@.len() {
            Some((lay.rows@[l], lay.rt@[r]@[l] as usize))
        } else {
            None
        }
    } else if lay.c.y + TILE_H <= p.y < lay.c.y + lay.head_h && lay.grid.x <= p.x < lay.grid.x + lay.grid.w {
        let l = (p.y - (lay.c.y + TILE_H)) / (HDR_H as int);
        let c = (p.x - lay.grid.x + lay.off.x) / (COL_W as int);
        if l < lay.cols@.len() && c < lay.ct@.len() && l < lay.ct@[c]@.len() {
            Some((lay.cols@[l], lay.ct@[c]@[l] as usize))
        } else {
            None
        }
    } else {
        None
    }
}

/// The list of formulas in the pane.
pub open spec fn flist_spec(lay: Lay) -> Rect {
    Rect { x: (lay.pane.x + 8) as i32, y: (lay.pane.y + 20) as i32, w: (lay.pane.w - 16) as i32, h: (lay.pane.h - 44) as i32 }
}

/// Formula row `i` of the pane.
pub open spec fn frow_spec(lay: Lay, i: int) -> Rect {
    let l = flist_spec(lay);
    Rect { x: (l.x + 2) as i32, y: (l.y + 2 + i * FROW_H) as i32, w: (l.w - 4) as i32, h: FROW_H }
}

/// The first formula row from `i` up to `n` (one past the last formula) under `p`.
pub open spec fn frow_at(lay: Lay, n: int, p: Pt, i: int) -> Option<int>
    decreases n + 1 - i,
{
    if i < 0 || i > n {
        None
    } else if flist_spec(lay).has(p) && frow_spec(lay, i).has(p) {
        Some(i)
    } else {
        frow_at(lay, n, p, i + 1)
    }
}

/// What a press at `p` lands on, with the categories `cats`, the selected coordinate `sel` and
/// `n` formulas: the tiles of the row zone, then of the column zone, then the headers, the
/// formula pane and the cells.
pub open spec fn click_spec(lay: Lay, cats: Seq<Cat>, sel: Seq<u8>, n: int, p: Pt) -> IvClick {
    let rows_axis = axis_spec(cats, false);
    let cols_axis = axis_spec(cats, true);
    if tile_at(lay, rows_axis, false, p, 0) is Some {
        let i = tile_at(lay, rows_axis, false, p, 0)->0;
        let t = lay.tile_spec(false, i);
        IvClick::Tile { cat: rows_axis[i], grab: Pt { x: (p.x - t.x) as i32, y: (p.y - t.y) as i32 }, at: p }
    } else if tile_at(lay, cols_axis, true, p, 0) is Some {
        let i = tile_at(lay, cols_axis, true, p, 0)->0;
        let t = lay.tile_spec(true, i);
        IvClick::Tile { cat: cols_axis[i], grab: Pt { x: (p.x - t.x) as i32, y: (p.y - t.y) as i32 }, at: p }
    } else if header_at(lay, p) is Some {
        let (c, i) = header_at(lay, p)->0;
        IvClick::Header { c, i, rename: sel[c as int] as int == i }
    } else if lay.pane.has(p) {
        match frow_at(lay, n, p, 0) {
            Some(i) => IvClick::FormulaRow(i as usize),
            None => IvClick::Pane,
        }
    } else if lay.grid.has(p) {
        let r = (p.y - lay.grid.y + lay.off.y) / (ROW_H as int);
        let c = (p.x - lay.grid.x + lay.off.x) / (COL_W as int);
        if r < lay.rt@.len() && c < lay.ct@.len() {
            IvClick::Cell(r as usize, c as usize)
        } else {
            IvClick::Elsewhere
        }
    } else {
        IvClick::Elsewhere
    }
}

fn tile_hit_in(lay: &Lay, axis: &Vec<usize>, col: bool, p: Pt) -> (r: Option<usize>)
    requires
        lay_small(*lay),
        axis@.len() <= 0x1000,
    ensures
        r matches Some(i) ==> tile_at(*lay, axis@, col, p, 0) == Some(i as int) && i < axis@.len()
            && lay.tile_spec(col, i as int).has(p),
        r is None ==> tile_at(*lay, axis@, col, p, 0) is None,
{
    let mut i: usize = 0;
    while i < axis.len()
        invariant
            i <= axis@.len() <= 0x1000,
            lay_small(*lay),
            tile_at(*lay, axis@, col, p, 0) == tile_at(*lay, axis@, col, p, i as int),
        decreases axis@.len() - i,
    {
        let t = lay.tile(col, i);
        if t.contains(p) {
            return Some(i);
        }
        i += 1;
    }
    None
}

fn header_hit(lay: &Lay, p: Pt) -> (h: Option<(usize, usize)>)
    requires
        lay_small(*lay),
    ensures
        h == header_at(*lay, p),
{
    if lay.sx <= p.x && p.x < lay.grid.x && lay.grid.w > 0 && lay.grid.y <= p.y && p.y < lay.grid.y + lay.grid.h {
        let l = ((p.x - lay.sx) / TILE_W) as usize;
        let (r, _) = lay.at(Pt { x: lay.grid.x, y: p.y });
        if l < lay.rows.len() && r < lay.rt.len() && l < lay.rt[r].len() {
            return Some((lay.rows[l], lay.rt[r][l] as usize));
        }
        return None;
    }
    if lay.c.y + TILE_H <= p.y && p.y < lay.c.y + lay.head_h && lay.grid.x <= p.x && p.x < lay.grid.x + lay.grid.w {
        let l = ((p.y - (lay.c.y + TILE_H)) / HDR_H) as usize;
        let c = ((p.x - lay.grid.x + lay.off.x) / COL_W) as usize;
        if l < lay.cols.len() && c < lay.ct.len() && l < lay.ct[c].len() {
            return Some((lay.cols[l], lay.ct[c][l] as usize));
        }
        return None;
    }
    None
}

/// What a press at `p` in the worksheet (off its scrollers) lands on, with the categories
/// `cats`, the selected coordinate `sel` (an item index per category) and `n` formulas.
#[verifier::loop_isolation(false)]
pub fn iv_click(lay: &Lay, cats: &Vec<Cat>, sel: &Vec<u8>, n: usize, p: Pt) -> (e: IvClick)
    requires
        lay_small(*lay),
        cats@.len() <= 0x1000,
        n <= 0x1000,
        sel@.len() == cats@.len(),
        forall|i: int| 0 <= i < lay.rows@.len() ==> #[trigger] lay.rows@[i] < cats@.len(),
        forall|i: int| 0 <= i < lay.cols@.len() ==> #[trigger] lay.cols@[i] < cats@.len(),
    ensures
        e == click_spec(*lay, cats@, sel@, n as int, p),
{
    let ra = axis(cats.as_slice(), false);
    let ca = axis(cats.as_slice(), true);
    proof {
        lemma_axis_in_range(cats@, false, cats@.len() as int);
        lemma_axis_in_range(cats@, true, cats@.len() as int);
    }
    if let Some(i) = tile_hit_in(lay, &ra, false, p) {
        let t = lay.tile(false, i);
        return IvClick::Tile { cat: ra[i], grab: Pt { x: p.x - t.x, y: p.y - t.y }, at: p };
    }
    if let Some(i) = tile_hit_in(lay, &ca, true, p) {
        let t = lay.tile(true, i);
        return IvClick::Tile { cat: ca[i], grab: Pt { x: p.x - t.x, y: p.y - t.y }, at: p };
    }
    if let Some((c, i)) = header_hit(lay, p) {
        return IvClick::Header { c, i, rename: sel[c] as usize == i };
    }
    if lay.pane.contains(p) {
        let list = rect(lay.pane.x + 8, lay.pane.y + 20, lay.pane.w - 16, lay.pane.h - 44);
        let mut i: usize = 0;
        while i <= n
            invariant
                i <= n + 1,
                n <= 0x1000,
                lay_small(*lay),
                list == flist_spec(*lay),
                frow_at(*lay, n as int, p, 0) == frow_at(*lay, n as int, p, i as int),
            decreases n + 1 - i,
        {
            let row = rect(list.x + 2, list.y + 2 + i as i32 * FROW_H, list.w - 4, FROW_H);
            assert(row == frow_spec(*lay, i as int));
            if list.contains(p) && row.contains(p) {
                return IvClick::FormulaRow(i);
            }
            i += 1;
        }
        return IvClick::Pane;
    }
    if lay.grid.contains(p) {
        let (r, c) = lay.at(p);
        if r < lay.rt.len() && c < lay.ct.len() {
            return IvClick::Cell(r, c);
        }
    }
    IvClick::Elsewhere
}

} // verus!
