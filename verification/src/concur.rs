//! Concurrence — outline, slide deck and presenter in one window. The outline is a flat list of
//! rows with a level: a subtree is the rows that follow with a greater level, so demote/promote,
//! collapse and "the bullets of this slide" are range operations.
use vstd::prelude::*;
use crate::geom::{fits, larger, smaller, Pt, Rect};
use crate::events::{control_char, is_control, Key, Mods};
use crate::text::{chars_of, string_of};

verus! {

pub const ROW_H: i32 = 18;

pub const MAX_LEVEL: usize = 4;

/// How far a level indents a row.
pub const INDENT: i32 = 18;

pub struct Row {
    pub text: String,
    pub level: usize,
    pub collapsed: bool,
}

/// A row as text, level and collapsed flag.
pub type RowV = (Seq<char>, usize, bool);

impl View for Row {
    type V = RowV;

    open spec fn view(&self) -> RowV {
        (self.text@, self.level, self.collapsed)
    }
}

impl Row {
    pub fn chars_len(&self) -> (n: usize)
        ensures
            n == self.text@.len(),
    {
        self.text.as_str().unicode_len()
    }
}

#[derive(Clone, Copy, PartialEq, Eq, Debug, Structural)]
pub enum CBtn {
    Outline,
    Slide,
    Present,
    Save,
}

pub struct Concur {
    pub rows: Vec<Row>,
    pub sel: usize,
    pub caret: usize,
    /// Slide view instead of Outline view.
    pub slides: bool,
    /// Presenting: index into the slide list.
    pub show: Option<usize>,
    /// The window rectangle from before the show.
    pub saved: Option<Rect>,
    pub scroll: i32,
}

/// The editable part of a Concurrence document: rows, selection, caret and view.
pub struct Outline {
    pub rows: Seq<RowV>,
    pub sel: int,
    pub caret: int,
    pub slides: bool,
}

pub open spec fn rows_view(rows: Seq<Row>) -> Seq<RowV> {
    rows.map_values(|r: Row| r@)
}

// ---- the outline as lines --------------------------------------------------------------------

/// Number of leading tabs of `s`.
pub open spec fn leading_tabs(s: Seq<char>) -> nat
    decreases s.len(),
{
    if s.len() > 0 && s[0] == '\t' {
        1 + leading_tabs(s.drop_first())
    } else {
        0
    }
}

pub open spec fn tabs(n: nat) -> Seq<char> {
    Seq::new(n, |i: int| '\t')
}

/// A stored line as a row: its leading tabs give the level (at most `MAX_LEVEL`), the rest the text.
pub open spec fn row_of_line(l: Seq<char>) -> RowV {
    (
        l.skip(leading_tabs(l) as int),
        if leading_tabs(l) <= MAX_LEVEL {
            leading_tabs(l) as usize
        } else {
            MAX_LEVEL
        },
        false,
    )
}

pub open spec fn line_of_row(r: RowV) -> Seq<char> {
    tabs(r.1 as nat) + r.0
}

/// The deck a fresh installation opens with; it also documents the keys.
pub open spec fn sample_spec() -> Seq<Seq<char>> {
    seq![
        "Concurrence"@,
        "\tOutline, slides and show in one window"@,
        "\tLighthouse Design, 1992"@,
        "Outlining"@,
        "\tTab demotes, Shift-Tab promotes"@,
        "\tReturn starts a new topic"@,
        "\tClick a triangle to collapse"@,
        "Slides"@,
        "\tEvery top-level topic is a slide"@,
        "\tIts children are its bullets"@,
        "\tDrawn in the four NeXT grays"@,
        "Presenting"@,
        "\tPress Present, then Space"@,
        "\tEscape ends the show"@,
    ]
}

fn sample_lines() -> (v: Vec<&'static str>)
    ensures
        v@.map_values(|s: &str| s@) == sample_spec(),
{
    let v = vec![
        "Concurrence",
        "\tOutline, slides and show in one window",
        "\tLighthouse Design, 1992",
        "Outlining",
        "\tTab demotes, Shift-Tab promotes",
        "\tReturn starts a new topic",
        "\tClick a triangle to collapse",
        "Slides",
        "\tEvery top-level topic is a slide",
        "\tIts children are its bullets",
        "\tDrawn in the four NeXT grays",
        "Presenting",
        "\tPress Present, then Space",
        "\tEscape ends the show",
    ];
    assert(v@.map_values(|s: &str| s@) =~= sample_spec());
    v
}

proof fn lemma_leading_tabs(s: Seq<char>)
    ensures
        leading_tabs(s) <= s.len(),
        forall|i: int| 0 <= i < leading_tabs(s) ==> s[i] == '\t',
        leading_tabs(s) < s.len() ==> s[leading_tabs(s) as int] != '\t',
    decreases s.len(),
{
    if s.len() > 0 && s[0] == '\t' {
        lemma_leading_tabs(s.drop_first());
        assert forall|i: int| 0 <= i < leading_tabs(s) implies s[i] == '\t' by {
            if i > 0 {
                assert(s[i] == s.drop_first()[i - 1]);
            }
        }
    }
}

proof fn lemma_leading_tabs_of(n: nat, t: Seq<char>)
    ensures
        leading_tabs(tabs(n) + t) == n + leading_tabs(t),
    decreases n,
{
    if n > 0 {
        assert((tabs(n) + t).drop_first() == tabs((n - 1) as nat) + t);
        lemma_leading_tabs_of((n - 1) as nat, t);
    } else {
        assert(tabs(n) + t == t);
    }
}

fn row_from_line(l: &str) -> (r: Row)
    ensures
        r@ == row_of_line(l@),
{
    let v = chars_of(l);
    proof {
        lemma_leading_tabs(v@);
    }
    let mut n: usize = 0;
    while n < v.len() && v[n] == '\t'
        invariant
            n <= v@.len(),
            n <= leading_tabs(v@),
            leading_tabs(v@) <= v@.len(),
            forall|i: int| 0 <= i < leading_tabs(v@) ==> v@[i] == '\t',
            leading_tabs(v@) < v@.len() ==> v@[leading_tabs(v@) as int] != '\t',
        decreases v@.len() - n,
    {
        n += 1;
    }
    let text = string_of(&crate::text::slice_vec(&v, n, v.len()));
    Row { text, level: if n <= MAX_LEVEL { n } else { MAX_LEVEL }, collapsed: false }
}

fn line_from_row(r: &Row) -> (l: String)
    ensures
        l@ == line_of_row(r@),
{
    let mut v: Vec<char> = Vec::new();
    let mut i: usize = 0;
    while i < r.level
        invariant
            i <= r.level,
            v@ == tabs(i as nat),
        decreases r.level - i,
    {
        v.push('\t');
        assert(v@ =~= tabs((i + 1) as nat));
        i += 1;
    }
    let t = chars_of(r.text.as_str());
    let mut j: usize = 0;
    while j < t.len()
        invariant
            j <= t@.len(),
            t@ == r.text@,
            v@ == tabs(r.level as nat) + t@.take(j as int),
        decreases t@.len() - j,
    {
        v.push(t[j]);
        assert(t@.take(j + 1) == t@.take(j as int).push(t@[j as int]));
        j += 1;
    }
    assert(t@.take(t@.len() as int) == t@);
    string_of(&v)
}

// ---- outline structure -------------------------------------------------------------------------

/// One past the last descendant of row `i`, scanning from `j`.
pub open spec fn end_from(rows: Seq<RowV>, i: int, j: int) -> int
    decreases rows.len() - j,
{
    if j < 0 || j >= rows.len() {
        rows.len() as int
    } else if rows[j].1 <= rows[i].1 {
        j
    } else {
        end_from(rows, i, j + 1)
    }
}

/// One past the last descendant of row `i`: the next row at its level or above, or the end.
pub open spec fn end_spec(rows: Seq<RowV>, i: int) -> int {
    end_from(rows, i, i + 1)
}

proof fn lemma_end_from(rows: Seq<RowV>, i: int, j: int)
    requires
        0 <= i < rows.len(),
        i < j <= rows.len(),
    ensures
        j <= end_from(rows, i, j) <= rows.len(),
        forall|k: int| j <= k < end_from(rows, i, j) ==> rows[k].1 > rows[i].1,
        end_from(rows, i, j) < rows.len() ==> rows[end_from(rows, i, j)].1 <= rows[i].1,
    decreases rows.len() - j,
{
    if j < rows.len() && rows[j].1 > rows[i].1 {
        lemma_end_from(rows, i, j + 1);
    }
}

pub open spec fn has_kids_spec(rows: Seq<RowV>, i: int) -> bool {
    i + 1 < rows.len() && rows[i + 1].1 > rows[i].1
}

/// Rows from `i` on that are not hidden inside a collapsed topic, in order.
pub open spec fn visible_from(rows: Seq<RowV>, i: int) -> Seq<int>
    decreases rows.len() - i,
{
    if i < 0 || i >= rows.len() {
        Seq::empty()
    } else {
        let next = if rows[i].2 {
            end_spec(rows, i)
        } else {
            i + 1
        };
        if i < next <= rows.len() {
            seq![i] + visible_from(rows, next)
        } else {
            seq![i]
        }
    }
}

pub open spec fn visible_spec(rows: Seq<RowV>) -> Seq<int> {
    visible_from(rows, 0)
}

/// Indices below `n` of the top-level rows (the slides), in order.
pub open spec fn slides_upto(rows: Seq<RowV>, n: int) -> Seq<int>
    decreases n,
{
    if n <= 0 {
        Seq::empty()
    } else if rows[n - 1].1 == 0 {
        slides_upto(rows, n - 1).push(n - 1)
    } else {
        slides_upto(rows, n - 1)
    }
}

pub open spec fn slides_spec(rows: Seq<RowV>) -> Seq<int> {
    slides_upto(rows, rows.len() as int)
}

/// The slide that row `row` belongs to: the last top-level row at or above it.
pub open spec fn slide_of_spec(rows: Seq<RowV>, row: int) -> int {
    let n = slides_upto(rows, smaller(row + 1, rows.len() as int)).len();
    if n == 0 {
        0
    } else {
        n - 1
    }
}

proof fn lemma_slides_upto(rows: Seq<RowV>, n: int)
    requires
        0 <= n <= rows.len(),
    ensures
        slides_upto(rows, n).len() <= n,
        forall|k: int|
            0 <= k < slides_upto(rows, n).len() ==> 0 <= #[trigger] slides_upto(rows, n)[k] < n
                && rows[slides_upto(rows, n)[k]].1 == 0,
    decreases n,
{
    if n > 0 {
        lemma_slides_upto(rows, n - 1);
    }
}

impl Concur {
    pub open spec fn outline(&self) -> Outline {
        Outline { rows: rows_view(self.rows@), sel: self.sel as int, caret: self.caret as int, slides: self.slides }
    }

    pub open spec fn rows_v(&self) -> Seq<RowV> {
        rows_view(self.rows@)
    }

    pub open spec fn saved_rect(&self) -> Option<Rect> {
        self.saved
    }

    /// The outline stored in `lines`, or the sample deck when there is none.
    pub fn from_lines(lines: &[String]) -> (c: Concur)
        ensures
            lines@.len() > 0 ==> c.rows_v() == lines@.map_values(|l: String| row_of_line(l@)),
            lines@.len() == 0 ==> c.rows_v() == sample_spec().map_values(|l: Seq<char>| row_of_line(l)),
            c.sel == 0 && c.caret == 0 && !c.slides && c.show is None && c.saved_rect() is None
                && c.scroll == 0,
    {
        let mut rows: Vec<Row> = Vec::new();
        if lines.len() == 0 {
            let src = sample_lines();
            let mut i: usize = 0;
            while i < src.len()
                invariant
                    i <= src@.len(),
                    src@.map_values(|s: &str| s@) == sample_spec(),
                    rows_view(rows@) == sample_spec().take(i as int).map_values(|l: Seq<char>| row_of_line(l)),
                decreases src@.len() - i,
            {
                let r = row_from_line(src[i]);
                let ghost o = rows@;
                rows.push(r);
                assert(rows_view(rows@) =~= rows_view(o).push(rows@[i as int]@));
                assert(sample_spec()[i as int] == src@[i as int]@);
                assert(sample_spec().take(i + 1) == sample_spec().take(i as int).push(sample_spec()[i as int]));
                assert(rows_view(rows@) =~= sample_spec().take(i + 1).map_values(|l: Seq<char>| row_of_line(l)));
                i += 1;
            }
            assert(sample_spec().take(src@.len() as int) == sample_spec());
        } else {
            let mut i: usize = 0;
            while i < lines.len()
                invariant
                    i <= lines@.len(),
                    rows_view(rows@) == lines@.take(i as int).map_values(|l: String| row_of_line(l@)),
                decreases lines@.len() - i,
            {
                let r = row_from_line(lines[i].as_str());
                let ghost o = rows@;
                rows.push(r);
                assert(rows_view(rows@) =~= rows_view(o).push(rows@[i as int]@));
                assert(lines@.take(i + 1) == lines@.take(i as int).push(lines@[i as int]));
                assert(rows_view(rows@) =~= lines@.take(i + 1).map_values(|l: String| row_of_line(l@)));
                i += 1;
            }
            assert(lines@.take(lines@.len() as int) == lines@);
        }
        Concur { rows, sel: 0, caret: 0, slides: false, show: None, saved: None, scroll: 0 }
    }

    /// One tab-indented line per topic.
    pub fn to_lines(&self) -> (v: Vec<String>)
        ensures
            v@.map_values(|l: String| l@) == self.rows_v().map_values(|r: RowV| line_of_row(r)),
    {
        let mut v: Vec<String> = Vec::new();
        let mut i: usize = 0;
        while i < self.rows.len()
            invariant
                i <= self.rows@.len(),
                v@.map_values(|l: String| l@) == self.rows_v().take(i as int).map_values(
                    |r: RowV| line_of_row(r),
                ),
            decreases self.rows@.len() - i,
        {
            let l = line_from_row(&self.rows[i]);
            let ghost o = v@;
            v.push(l);
            assert(v@.map_values(|l: String| l@) =~= o.map_values(|l: String| l@).push(v@[i as int]@));
            assert(self.rows_v().take(i + 1) == self.rows_v().take(i as int).push(self.rows_v()[i as int]));
            assert(v@.map_values(|l: String| l@) =~= self.rows_v().take(i + 1).map_values(
                |r: RowV| line_of_row(r),
            ));
            i += 1;
        }
        assert(self.rows_v().take(self.rows@.len() as int) == self.rows_v());
        v
    }

    /// One past the last descendant of row `i`.
    pub fn end(&self, i: usize) -> (e: usize)
        requires
            i < self.rows@.len(),
        ensures
            e == end_spec(self.rows_v(), i as int),
            i < e <= self.rows@.len(),
    {
        proof {
            lemma_end_from(self.rows_v(), i as int, i + 1);
        }
        let lvl = self.rows[i].level;
        let n = self.rows.len();
        let mut j = i + 1;
        while j < self.rows.len()
            invariant
                i < j <= self.rows@.len(),
                lvl == self.rows_v()[i as int].1,
                end_spec(self.rows_v(), i as int) == end_from(self.rows_v(), i as int, j as int),
            decreases self.rows@.len() - j,
        {
            if self.rows[j].level <= lvl {
                return j;
            }
            j += 1;
        }
        j
    }

    pub fn has_kids(&self, i: usize) -> (b: bool)
        requires
            i < self.rows@.len(),
        ensures
            b == has_kids_spec(self.rows_v(), i as int),
    {
        let n = self.rows.len();
        i + 1 < n && self.rows[i + 1].level > self.rows[i].level
    }

    /// Row indices that are not hidden inside a collapsed topic, in order.
    pub fn visible(&self) -> (v: Vec<usize>)
        ensures
            v@.map_values(|x: usize| x as int) == visible_spec(self.rows_v()),
    {
        let mut out: Vec<usize> = Vec::new();
        let mut i: usize = 0;
        while i < self.rows.len()
            invariant
                i <= self.rows@.len(),
                visible_spec(self.rows_v()) == out@.map_values(|x: usize| x as int) + visible_from(
                    self.rows_v(),
                    i as int,
                ),
            decreases self.rows@.len() - i,
        {
            let ghost o = out@;
            out.push(i);
            assert(out@.map_values(|x: usize| x as int) == o.map_values(|x: usize| x as int).push(i as int));
            let next = if self.rows[i].collapsed {
                self.end(i)
            } else {
                i + 1
            };
            assert(visible_from(self.rows_v(), i as int) == seq![i as int] + visible_from(self.rows_v(), next as int));
            i = next;
        }
        out
    }

    /// Indices of the top-level rows: one per slide.
    pub fn slide_list(&self) -> (v: Vec<usize>)
        ensures
            v@.map_values(|x: usize| x as int) == slides_spec(self.rows_v()),
    {
        let mut out: Vec<usize> = Vec::new();
        let mut i: usize = 0;
        while i < self.rows.len()
            invariant
                i <= self.rows@.len(),
                out@.map_values(|x: usize| x as int) == slides_upto(self.rows_v(), i as int),
            decreases self.rows@.len() - i,
        {
            let ghost o = out@;
            if self.rows[i].level == 0 {
                out.push(i);
                assert(out@.map_values(|x: usize| x as int) == o.map_values(|x: usize| x as int).push(i as int));
            }
            i += 1;
        }
        out
    }

    /// The slide that `row` belongs to.
    pub fn slide_of(&self, row: usize) -> (s: usize)
        ensures
            s == slide_of_spec(self.rows_v(), row as int),
    {
        let n = if row < self.rows.len() {
            row + 1
        } else {
            self.rows.len()
        };
        proof {
            lemma_slides_upto(self.rows_v(), n as int);
        }
        let mut count: usize = 0;
        let mut i: usize = 0;
        while i < n
            invariant
                i <= n <= self.rows@.len(),
                count == slides_upto(self.rows_v(), i as int).len(),
                count <= i,
            decreases n - i,
        {
            if self.rows[i].level == 0 {
                count += 1;
            }
            i += 1;
        }
        if count == 0 {
            0
        } else {
            count - 1
        }
    }
}


// ---- editing -------------------------------------------------------------------------------------

pub open spec fn clamp_sel(o: Outline) -> int {
    smaller(o.sel, o.rows.len() - 1)
}

pub open spec fn clamp_caret(o: Outline) -> int {
    smaller(o.caret, o.rows[clamp_sel(o)].0.len() as int)
}

/// Rows `lo..hi` one level deeper (`up`) or shallower.
pub open spec fn shift_levels(rows: Seq<RowV>, lo: int, hi: int, up: bool) -> Seq<RowV> {
    Seq::new(
        rows.len(),
        |j: int|
            if lo <= j < hi {
                (rows[j].0, if up { (rows[j].1 + 1) as usize } else { (rows[j].1 - 1) as usize }, rows[j].2)
            } else {
                rows[j]
            },
    )
}

/// Shift-Tab promotes a row that is not top-level; Tab demotes a row below one at its level or
/// deeper, up to `MAX_LEVEL`.
pub open spec fn tab_ok(rows: Seq<RowV>, sel: int, shift: bool) -> bool {
    if shift {
        rows[sel].1 > 0
    } else {
        sel > 0 && rows[sel].1 <= rows[sel - 1].1 && rows[sel].1 < MAX_LEVEL
    }
}

/// First index of `x` in `s`, or -1.
pub open spec fn index_from(s: Seq<int>, x: int, i: int) -> int
    decreases s.len() - i,
{
    if i < 0 || i >= s.len() {
        -1
    } else if s[i] == x {
        i
    } else {
        index_from(s, x, i + 1)
    }
}

pub open spec fn with_sel(o: Outline, sel: int) -> Outline {
    Outline { sel, ..o }
}

/// What a key does to the outline in the Outline view. The selection is first brought inside the
/// rows and the caret inside its row.
pub open spec fn edit_spec(o: Outline, k: Key, mods: Mods) -> Outline {
    let sel = clamp_sel(o);
    let r = o.rows[sel];
    let t = r.0;
    let caret = clamp_caret(o);
    let same = with_sel(o, sel);
    match k {
        Key::Char(c) => if !control_char(c) && !mods.ctrl {
            Outline {
                rows: o.rows.update(sel, (t.take(caret).push(c) + t.skip(caret), r.1, r.2)),
                sel,
                caret: caret + 1,
                slides: o.slides,
            }
        } else {
            same
        },
        Key::Enter => Outline {
            rows: o.rows.update(sel, (t.take(caret), r.1, false)).insert(sel + 1, (t.skip(caret), r.1, false)),
            sel: sel + 1,
            caret: 0,
            slides: o.slides,
        },
        Key::Tab => if tab_ok(o.rows, sel, mods.shift) {
            Outline { rows: shift_levels(o.rows, sel, end_spec(o.rows, sel), !mods.shift), ..same }
        } else {
            same
        },
        Key::Backspace => if caret > 0 {
            Outline {
                rows: o.rows.update(sel, (t.take(caret - 1) + t.skip(caret), r.1, r.2)),
                caret: caret - 1,
                ..same
            }
        } else if sel > 0 && !has_kids_spec(o.rows, sel) {
            let p = o.rows[sel - 1];
            Outline {
                rows: o.rows.remove(sel).update(sel - 1, (p.0 + t, p.1, p.2)),
                sel: sel - 1,
                caret: p.0.len() as int,
                slides: o.slides,
            }
        } else {
            same
        },
        Key::Delete => if caret < t.len() {
            Outline { rows: o.rows.update(sel, (t.take(caret) + t.skip(caret + 1), r.1, r.2)), ..same }
        } else {
            same
        },
        Key::Left => Outline { caret: larger(caret - 1, 0), ..same },
        Key::Right => Outline { caret: smaller(caret + 1, t.len() as int), ..same },
        Key::Home => Outline { caret: 0, ..same },
        Key::End => Outline { caret: t.len() as int, ..same },
        Key::Up | Key::Down => {
            let vis = visible_spec(o.rows);
            let p0 = index_from(vis, sel, 0);
            let p = (if p0 < 0 { 0 } else { p0 }) + if k == Key::Up { -1int } else { 1int };
            let i = vis[smaller(larger(p, 0), vis.len() - 1)];
            Outline { sel: i, caret: smaller(o.caret, o.rows[i].0.len() as int), ..o }
        },
        Key::Escape => Outline { slides: true, ..same },
        _ => same,
    }
}

/// The caret keys move only the caret, within the selected topic's text: Home to its start, End
/// to its end (one past its last character), Left and Right one character, never past either end.
pub proof fn law_caret_keys(o: Outline, mods: Mods)
    requires
        o.rows.len() > 0,
        0 <= o.sel < o.rows.len(),
        0 <= o.caret <= o.rows[o.sel].0.len(),
    ensures
        edit_spec(o, Key::End, mods).caret == o.rows[o.sel].0.len(),
        edit_spec(o, Key::Home, mods).caret == 0,
        edit_spec(o, Key::Left, mods).caret == (if o.caret > 0 { o.caret - 1 } else { 0 }),
        edit_spec(o, Key::Right, mods).caret == (if o.caret < o.rows[o.sel].0.len() { o.caret + 1 } else { o.caret }),
        forall|k: Key| (k == Key::End || k == Key::Home || k == Key::Left || k == Key::Right) ==> {
            let e = #[trigger] edit_spec(o, k, mods);
            e.rows == o.rows && e.sel == o.sel && e.slides == o.slides
        },
{
}

/// Typing and deleting edit the selected topic at the caret: a character goes in at the caret
/// and the caret moves past it; Backspace takes out the character before the caret and Delete the
/// one after it; Return splits the topic at the caret into two topics at its level, the caret at
/// the start of the second; Backspace at the start of a topic with no subtopics joins it to the
/// end of the topic above, the caret where they meet. Other topics keep their text and level.
pub proof fn law_editing_keys(o: Outline, mods: Mods, c: char)
    requires
        o.rows.len() > 0,
        0 <= o.sel < o.rows.len(),
        0 <= o.caret <= o.rows[o.sel].0.len(),
    ensures
        ({
            let t = o.rows[o.sel].0;
            let e = edit_spec(o, Key::Char(c), mods);
            !control_char(c) && !mods.ctrl ==> {
                &&& e.rows.len() == o.rows.len() && e.sel == o.sel && e.caret == o.caret + 1
                &&& e.rows[o.sel].0.len() == t.len() + 1 && e.rows[o.sel].0[o.caret] == c
                &&& forall|j: int| 0 <= j < o.caret ==> #[trigger] e.rows[o.sel].0[j] == t[j]
                &&& forall|j: int| o.caret < j <= t.len() ==> #[trigger] e.rows[o.sel].0[j] == t[j - 1]
                &&& e.rows[o.sel].1 == o.rows[o.sel].1
                &&& forall|j: int| 0 <= j < o.rows.len() && j != o.sel ==> #[trigger] e.rows[j] == o.rows[j]
            }
        }),
        ({
            let t = o.rows[o.sel].0;
            let e = edit_spec(o, Key::Backspace, mods);
            o.caret > 0 ==> {
                &&& e.rows.len() == o.rows.len() && e.sel == o.sel && e.caret == o.caret - 1
                &&& e.rows[o.sel].0.len() == t.len() - 1
                &&& forall|j: int| 0 <= j < o.caret - 1 ==> #[trigger] e.rows[o.sel].0[j] == t[j]
                &&& forall|j: int| o.caret - 1 <= j < t.len() - 1 ==> #[trigger] e.rows[o.sel].0[j] == t[j + 1]
                &&& forall|j: int| 0 <= j < o.rows.len() && j != o.sel ==> #[trigger] e.rows[j] == o.rows[j]
            }
        }),
        ({
            let t = o.rows[o.sel].0;
            let e = edit_spec(o, Key::Delete, mods);
            o.caret < t.len() ==> {
                &&& e.rows.len() == o.rows.len() && e.sel == o.sel && e.caret == o.caret
                &&& e.rows[o.sel].0.len() == t.len() - 1
                &&& forall|j: int| 0 <= j < o.caret ==> #[trigger] e.rows[o.sel].0[j] == t[j]
                &&& forall|j: int| o.caret <= j < t.len() - 1 ==> #[trigger] e.rows[o.sel].0[j] == t[j + 1]
            }
        }),
        ({
            let t = o.rows[o.sel].0;
            let e = edit_spec(o, Key::Enter, mods);
            &&& e.rows.len() == o.rows.len() + 1 && e.sel == o.sel + 1 && e.caret == 0
            &&& e.rows[o.sel].0 + e.rows[o.sel + 1].0 == t && e.rows[o.sel].0.len() == o.caret
            &&& e.rows[o.sel].1 == o.rows[o.sel].1 && e.rows[o.sel + 1].1 == o.rows[o.sel].1
            &&& forall|j: int| 0 <= j < o.sel ==> #[trigger] e.rows[j] == o.rows[j]
            &&& forall|j: int| o.sel < j < o.rows.len() ==> #[trigger] e.rows[j + 1] == o.rows[j]
        }),
        ({
            let e = edit_spec(o, Key::Backspace, mods);
            o.caret == 0 && o.sel > 0 && !has_kids_spec(o.rows, o.sel) ==> {
                &&& e.rows.len() == o.rows.len() - 1 && e.sel == o.sel - 1
                &&& e.rows[o.sel - 1].0 == o.rows[o.sel - 1].0 + o.rows[o.sel].0
                &&& e.caret == o.rows[o.sel - 1].0.len()
                &&& e.rows[o.sel - 1].1 == o.rows[o.sel - 1].1
            }
        }),
{
    let t = o.rows[o.sel].0;
    assert(t.take(o.caret) + t.skip(o.caret) =~= t);
}

proof fn lemma_visible_from(rows: Seq<RowV>, i: int)
    requires
        0 <= i,
    ensures
        forall|k: int|
            0 <= k < visible_from(rows, i).len() ==> i <= #[trigger] visible_from(rows, i)[k]
                < rows.len(),
        i <= rows.len() ==> visible_from(rows, i).len() <= rows.len() - i,
        i < rows.len() ==> visible_from(rows, i).len() >= 1 && visible_from(rows, i)[0] == i,
    decreases rows.len() - i,
{
    if 0 <= i < rows.len() {
        let next = if rows[i].2 {
            end_spec(rows, i)
        } else {
            i + 1
        };
        if i < next <= rows.len() {
            lemma_visible_from(rows, next);
            let a = seq![i] + visible_from(rows, next);
            assert forall|k: int| 0 <= k < a.len() implies i <= #[trigger] a[k] < rows.len() by {
                if k > 0 {
                    assert(a[k] == visible_from(rows, next)[k - 1]);
                }
            }
        }
    }
}

/// Levels are far from the top of `usize`, and there are fewer rows than an `i32` counts.
pub open spec fn edit_ok(rows: Seq<RowV>) -> bool {
    &&& 0 < rows.len() < i32::MAX
    &&& forall|j: int| 0 <= j < rows.len() ==> (#[trigger] rows[j]).1 < usize::MAX && rows[j].0.len() < usize::MAX
}

impl Concur {
    fn set_text(&mut self, i: usize, v: &Vec<char>)
        requires
            i < old(self).rows@.len(),
        ensures
            final(self).rows_v() == old(self).rows_v().update(i as int, (v@, old(self).rows_v()[i as int].1, old(self).rows_v()[i as int].2)),
            final(self).sel == old(self).sel,
            final(self).caret == old(self).caret,
            final(self).slides == old(self).slides,
            final(self).show == old(self).show,
            final(self).saved == old(self).saved,
            final(self).scroll == old(self).scroll,
    {
        let ghost o = self.rows@;
        self.rows[i].text = string_of(v);
        assert(rows_view(self.rows@) =~= rows_view(o).update(i as int, (v@, o[i as int].level, o[i as int].collapsed)));
    }

    /// The selection, brought inside the rows, and the caret, brought inside its row.
    fn cursor(&self) -> (r: (usize, usize))
        requires
            edit_ok(self.rows_v()),
        ensures
            r.0 == clamp_sel(self.outline()),
            r.1 == clamp_caret(self.outline()),
            r.1 <= self.rows_v()[r.0 as int].0.len(),
    {
        let n = self.rows.len();
        let sel = if self.sel < n - 1 {
            self.sel
        } else {
            n - 1
        };
        let len = self.rows[sel].chars_len();
        let caret = if self.caret < len {
            self.caret
        } else {
            len
        };
        (sel, caret)
    }

    fn key_char(&mut self, c: char, mods: Mods)
        requires
            edit_ok(old(self).rows_v()),
            old(self).sel < old(self).rows@.len(),
        ensures
            final(self).outline() == edit_spec(old(self).outline(), Key::Char(c), mods),
            final(self).show == old(self).show,
            final(self).saved == old(self).saved,
            final(self).scroll == old(self).scroll,
    {
        let (sel, caret) = self.cursor();
        if !is_control(c) && !mods.ctrl {
            let mut v = chars_of(self.rows[sel].text.as_str());
            let ghost t = v@;
            v.insert(caret, c);
            assert(v@ =~= t.take(caret as int).push(c) + t.skip(caret as int));
            self.set_text(sel, &v);
            self.caret = caret + 1;
        }
    }

    fn key_enter(&mut self)
        requires
            edit_ok(old(self).rows_v()),
            old(self).sel < old(self).rows@.len(),
        ensures
            final(self).outline() == edit_spec(old(self).outline(), Key::Enter, Mods { shift: false, alt: false, ctrl: false, cmd: false }),
            final(self).show == old(self).show,
            final(self).saved == old(self).saved,
            final(self).scroll == old(self).scroll,
    {
        let (sel, caret) = self.cursor();
        let v = chars_of(self.rows[sel].text.as_str());
        let head = crate::text::slice_vec(&v, 0, caret);
        let rest = crate::text::slice_vec(&v, caret, v.len());
        let level = self.rows[sel].level;
        let ghost r0 = self.rows@;
        let row = Row { text: string_of(&head), level, collapsed: false };
        self.rows.set(sel, row);
        self.rows.insert(sel + 1, Row { text: string_of(&rest), level, collapsed: false });
        assert(v@.take(caret as int) == v@.subrange(0, caret as int));
        assert(v@.skip(caret as int) == v@.subrange(caret as int, v@.len() as int));
        assert(rows_view(self.rows@) =~= rows_view(r0).update(sel as int, (head@, level, false)).insert(
            sel + 1,
            (rest@, level, false),
        ));
        self.sel = sel + 1;
        self.caret = 0;
    }

    fn shift_row(&mut self, j: usize, up: bool)
        requires
            j < old(self).rows@.len(),
            up ==> old(self).rows@[j as int].level < usize::MAX,
            !up ==> old(self).rows@[j as int].level > 0,
        ensures
            final(self).rows_v() == old(self).rows_v().update(
                j as int,
                (
                    old(self).rows_v()[j as int].0,
                    if up { (old(self).rows_v()[j as int].1 + 1) as usize } else { (old(self).rows_v()[j as int].1 - 1) as usize },
                    old(self).rows_v()[j as int].2,
                ),
            ),
            final(self).sel == old(self).sel,
            final(self).caret == old(self).caret,
            final(self).slides == old(self).slides,
            final(self).show == old(self).show,
            final(self).saved == old(self).saved,
            final(self).scroll == old(self).scroll,
    {
        let ghost o = self.rows@;
        let l = self.rows[j].level;
        self.rows[j].level = if up {
            l + 1
        } else {
            l - 1
        };
        assert(rows_view(self.rows@) =~= rows_view(o).update(
            j as int,
            (o[j as int].text@, self.rows@[j as int].level, o[j as int].collapsed),
        ));
    }

    fn key_tab(&mut self, mods: Mods)
        requires
            edit_ok(old(self).rows_v()),
            old(self).sel < old(self).rows@.len(),
        ensures
            final(self).outline() == edit_spec(old(self).outline(), Key::Tab, mods),
            final(self).show == old(self).show,
            final(self).saved == old(self).saved,
            final(self).scroll == old(self).scroll,
    {
        let ghost o = self.outline();
        let (sel, _caret) = self.cursor();
        let end = self.end(sel);
        let lvl = self.rows[sel].level;
        let ok = if mods.shift {
            lvl > 0
        } else {
            sel > 0 && lvl <= self.rows[sel - 1].level && lvl < MAX_LEVEL
        };
        if ok {
            proof {
                lemma_end_from(o.rows, sel as int, sel + 1);
            }
            let ghost r0 = o.rows;
            let mut j = sel;
            assert(shift_levels(r0, sel as int, sel as int, !mods.shift) =~= r0);
            while j < end
                invariant
                    sel <= j <= end <= self.rows@.len(),
                    r0.len() == self.rows@.len(),
                    edit_ok(r0),
                    r0 == o.rows,
                    end == end_spec(r0, sel as int),
                    mods.shift ==> r0[sel as int].1 > 0,
                    forall|m: int| sel < m < end ==> r0[m].1 > r0[sel as int].1,
                    self.rows_v() == shift_levels(r0, sel as int, j as int, !mods.shift),
                    self.sel == sel,
                    self.caret == old(self).caret,
                    self.slides == old(self).slides,
                    self.show == old(self).show,
                    self.saved == old(self).saved,
                    self.scroll == old(self).scroll,
                decreases end - j,
            {
                assert(self.rows_v()[j as int] == self.rows@[j as int]@);
                assert(shift_levels(r0, sel as int, j as int, !mods.shift)[j as int] == r0[j as int]);
                self.shift_row(j, !mods.shift);
                assert(self.rows_v() =~= shift_levels(r0, sel as int, j + 1, !mods.shift));
                j += 1;
            }
        }
    }

    fn key_backspace(&mut self)
        requires
            edit_ok(old(self).rows_v()),
            old(self).sel < old(self).rows@.len(),
        ensures
            final(self).outline() == edit_spec(old(self).outline(), Key::Backspace, Mods { shift: false, alt: false, ctrl: false, cmd: false }),
            final(self).show == old(self).show,
            final(self).saved == old(self).saved,
            final(self).scroll == old(self).scroll,
    {
        let (sel, caret) = self.cursor();
        if caret > 0 {
            let mut v = chars_of(self.rows[sel].text.as_str());
            let ghost t = v@;
            v.remove(caret - 1);
            assert(v@ =~= t.take(caret - 1) + t.skip(caret as int));
            self.set_text(sel, &v);
            self.caret = caret - 1;
        } else if sel > 0 && !self.has_kids(sel) {
            let ghost r0 = self.rows_v();
            let removed = self.rows.remove(sel);
            assert(self.rows_v() =~= r0.remove(sel as int));
            self.sel = sel - 1;
            self.caret = self.rows[sel - 1].chars_len();
            let mut v = chars_of(self.rows[sel - 1].text.as_str());
            let w = chars_of(removed.text.as_str());
            let mut q: usize = 0;
            let ghost v0 = v@;
            while q < w.len()
                invariant
                    q <= w@.len(),
                    v@ == v0 + w@.take(q as int),
                decreases w@.len() - q,
            {
                v.push(w[q]);
                assert(w@.take(q + 1) == w@.take(q as int).push(w@[q as int]));
                q += 1;
            }
            assert(w@.take(w@.len() as int) == w@);
            self.set_text(sel - 1, &v);
        }
    }

    fn key_delete(&mut self)
        requires
            edit_ok(old(self).rows_v()),
            old(self).sel < old(self).rows@.len(),
        ensures
            final(self).outline() == edit_spec(old(self).outline(), Key::Delete, Mods { shift: false, alt: false, ctrl: false, cmd: false }),
            final(self).show == old(self).show,
            final(self).saved == old(self).saved,
            final(self).scroll == old(self).scroll,
    {
        let (sel, caret) = self.cursor();
        let len = self.rows[sel].chars_len();
        if caret < len {
            let mut v = chars_of(self.rows[sel].text.as_str());
            let ghost t = v@;
            v.remove(caret);
            assert(v@ =~= t.take(caret as int) + t.skip(caret + 1));
            self.set_text(sel, &v);
        }
    }

    fn key_vertical(&mut self, k: Key)
        requires
            edit_ok(old(self).rows_v()),
            old(self).sel < old(self).rows@.len(),
            k == Key::Up || k == Key::Down,
        ensures
            final(self).outline() == edit_spec(old(self).outline(), k, Mods { shift: false, alt: false, ctrl: false, cmd: false }),
            final(self).show == old(self).show,
            final(self).saved == old(self).saved,
            final(self).scroll == old(self).scroll,
    {
        let ghost o = self.outline();
        let (sel, _caret) = self.cursor();
        let vis = self.visible();
        proof {
            lemma_visible_from(o.rows, 0);
        }
        let ghost vs = visible_spec(o.rows);
        assert(vis@.len() == vs.len());
        assert(vis@.len() <= o.rows.len());
        let mut p0: usize = 0;
        let mut found = false;
        while p0 < vis.len()
            invariant_except_break
                !found,
            invariant
                p0 <= vis@.len(),
                vis@.map_values(|x: usize| x as int) == vs,
                index_from(vs, sel as int, 0) == index_from(vs, sel as int, p0 as int),
            ensures
                found ==> p0 < vis@.len() && index_from(vs, sel as int, 0) == p0,
                !found ==> index_from(vs, sel as int, 0) == -1,
            decreases vis@.len() - p0,
        {
            assert(vs[p0 as int] == vis@[p0 as int] as int);
            if vis[p0] == sel {
                found = true;
                break;
            }
            p0 += 1;
        }
        let base: i64 = if found {
            p0 as i64
        } else {
            0
        };
        let p: i64 = base + if k == Key::Up {
            -1
        } else {
            1
        };
        let top: i64 = vis.len() as i64 - 1;
        let cl: i64 = if p < 0 {
            0
        } else if p > top {
            top
        } else {
            p
        };
        let i = vis[cl as usize];
        assert(i as int == vs[cl as int]);
        self.sel = i;
        let li = self.rows[i].chars_len();
        if self.caret > li {
            self.caret = li;
        }
    }

    /// What a key does in the Outline view: typing, splitting and joining topics, demoting and
    /// promoting subtrees, moving the caret and the selection.
    pub fn edit(&mut self, k: Key, mods: Mods)
        requires
            edit_ok(old(self).rows_v()),
        ensures
            final(self).outline() == edit_spec(old(self).outline(), k, mods),
            final(self).show == old(self).show,
            final(self).saved == old(self).saved,
            final(self).scroll == old(self).scroll,
    {
        let ghost o = self.outline();
        let (sel, _caret) = self.cursor();
        self.sel = sel;
        assert(self.outline() == with_sel(o, sel as int));
        let none = Mods { shift: false, alt: false, ctrl: false, cmd: false };
        match k {
            Key::Char(c) => self.key_char(c, mods),
            Key::Enter => self.key_enter(),
            Key::Tab => self.key_tab(mods),
            Key::Backspace => self.key_backspace(),
            Key::Delete => self.key_delete(),
            Key::Left => {
                let (_s, caret) = self.cursor();
                self.caret = if caret > 0 {
                    caret - 1
                } else {
                    0
                };
            },
            Key::Right => {
                let (_s, caret) = self.cursor();
                let len = self.rows[sel].chars_len();
                self.caret = if caret < len {
                    caret + 1
                } else {
                    len
                };
            },
            Key::Home => {
                self.caret = 0;
            },
            Key::End => {
                self.caret = self.rows[sel].chars_len();
            },
            Key::Up | Key::Down => self.key_vertical(k),
            Key::Escape => {
                self.slides = true;
            },
            _ => {},
        }
    }
}


// ---- presenting --------------------------------------------------------------------------------

/// What a key did, for the window around the outline to follow.
#[derive(Clone, Copy, PartialEq, Eq, Debug, Structural)]
pub enum KeyOutcome {
    /// The outline was edited (or its cursor moved): store it and keep the selection in view.
    Edited,
    /// The show started: the window takes the whole Screen without chrome.
    ShowStarted,
    /// The show ended: the window goes back to this rectangle, with its chrome.
    ShowEnded(Rect),
    /// Only the slide on display, or the view, changed.
    Moved,
}

impl Concur {
    /// Whether a show can start: none is running and there is at least one slide.
    pub open spec fn can_show(&self) -> bool {
        self.saved is None && slides_spec(self.rows_v()).len() > 0
    }

    /// Enter the show on the slide of the selected row, remembering the window rectangle `r`.
    pub fn begin_show(&mut self, r: Rect) -> (started: bool)
        ensures
            started == old(self).can_show(),
            started ==> final(self).saved == Some(r) && final(self).show == Some(
                slide_of_spec(old(self).rows_v(), old(self).sel as int) as usize,
            ),
            !started ==> final(self).saved == old(self).saved && final(self).show == old(self).show,
            final(self).rows_v() == old(self).rows_v(),
            final(self).sel == old(self).sel,
            final(self).caret == old(self).caret,
            final(self).slides == old(self).slides,
            final(self).scroll == old(self).scroll,
    {
        let n = self.slide_list().len();
        if self.saved.is_some() || n == 0 {
            return false;
        }
        self.saved = Some(r);
        self.show = Some(self.slide_of(self.sel));
        true
    }

    /// Leave the show: the outline lands on the slide that was on display, and the window
    /// rectangle from before the show comes back.
    pub fn end_show(&mut self) -> (r: Option<Rect>)
        ensures
            r == old(self).saved,
            final(self).saved is None,
            r is Some ==> final(self).show is None,
            r is None ==> final(self).show == old(self).show,
            (r is Some && old(self).show is Some && old(self).show.unwrap() < slides_spec(old(self).rows_v()).len())
                ==> final(self).sel == slides_spec(old(self).rows_v())[old(self).show.unwrap() as int]
                && final(self).caret == 0,
            !(r is Some && old(self).show is Some && old(self).show.unwrap() < slides_spec(old(self).rows_v()).len())
                ==> final(self).sel == old(self).sel && final(self).caret == old(self).caret,
            final(self).rows_v() == old(self).rows_v(),
            final(self).slides == old(self).slides,
            final(self).scroll == old(self).scroll,
    {
        let r = match self.saved.take() {
            Some(r) => r,
            None => return None,
        };
        if let Some(s) = self.show.take() {
            let slides = self.slide_list();
            if s < slides.len() {
                assert(slides@[s as int] as int == slides_spec(self.rows_v())[s as int]);
                self.sel = slides[s];
                self.caret = 0;
            }
        }
        Some(r)
    }

    /// The slide after stepping `d` from the one on display: past the last slide the show ends.
    pub open spec fn step_target(&self, d: int) -> int {
        (match self.show {
            Some(s) => s as int,
            None => 0,
        }) + d
    }

    /// Advance the show by `d` slides; past the last slide it ends, as a keynote should.
    pub fn step(&mut self, d: i32) -> (ended: Option<Rect>)
        requires
            -1 <= d <= 1,
            old(self).rows@.len() < i32::MAX,
            old(self).show matches Some(s) ==> s < i32::MAX,
        ensures
            old(self).step_target(d as int) >= slides_spec(old(self).rows_v()).len() ==> ended
                == old(self).saved && final(self).saved is None,
            old(self).step_target(d as int) < slides_spec(old(self).rows_v()).len() ==> ended is None
                && final(self).show == Some(larger(old(self).step_target(d as int), 0) as usize)
                && final(self).saved == old(self).saved && final(self).sel == old(self).sel,
            final(self).rows_v() == old(self).rows_v(),
    {
        let n = self.slide_list().len();
        proof {
            lemma_slides_upto(self.rows_v(), self.rows@.len() as int);
        }
        let cur: i64 = match self.show {
            Some(s) => s as i64,
            None => 0,
        };
        let next = cur + d as i64;
        if next >= n as i64 {
            self.end_show()
        } else {
            self.show = Some(if next < 0 {
                0
            } else {
                next as usize
            });
            None
        }
    }

    /// Move the selection to the slide `d` away from the current one, staying within the deck.
    pub fn goto_slide(&mut self, d: i32)
        requires
            -1 <= d <= 1,
            0 < slides_spec(old(self).rows_v()).len() < i32::MAX,
        ensures
            final(self).sel == slides_spec(old(self).rows_v())[smaller(
                larger(slide_of_spec(old(self).rows_v(), old(self).sel as int) + d, 0),
                slides_spec(old(self).rows_v()).len() - 1,
            )],
            final(self).caret == 0,
            final(self).rows_v() == old(self).rows_v(),
            final(self).show == old(self).show,
            final(self).saved == old(self).saved,
            final(self).slides == old(self).slides,
            final(self).scroll == old(self).scroll,
    {
        let slides = self.slide_list();
        let cur = self.slide_of(self.sel);
        proof {
            lemma_slides_upto(self.rows_v(), smaller(self.sel + 1, self.rows@.len() as int));
            lemma_slides_prefix(self.rows_v(), smaller(self.sel + 1, self.rows@.len() as int));
        }
        let t: i64 = cur as i64 + d as i64;
        let top: i64 = slides.len() as i64 - 1;
        let i: i64 = if t < 0 {
            0
        } else if t > top {
            top
        } else {
            t
        };
        assert(slides@[i as int] as int == slides_spec(self.rows_v())[i as int]);
        self.sel = slides[i as usize];
        self.caret = 0;
    }

    /// Scroll the list (`h` px tall) so the selected row is inside it.
    pub fn scroll_to_sel(&mut self, h: i32)
        requires
            visible_spec(old(self).rows_v()).len() * ROW_H <= i32::MAX,
            fits(old(self).scroll + h),
            fits(ROW_H - h),
            fits(visible_spec(old(self).rows_v()).len() * ROW_H - h),
        ensures
            ({
                let p = index_from(visible_spec(old(self).rows_v()), old(self).sel as int, 0);
                let top = p * ROW_H;
                let s = old(self).scroll as int;
                final(self).scroll == (if p < 0 {
                    s
                } else if top < s {
                    top
                } else if top + ROW_H > s + h {
                    top + ROW_H - h
                } else {
                    s
                })
            }),
            final(self).rows_v() == old(self).rows_v(),
            final(self).sel == old(self).sel,
            final(self).caret == old(self).caret,
            final(self).show == old(self).show,
            final(self).saved == old(self).saved,
            final(self).slides == old(self).slides,
    {
        let vis = self.visible();
        let ghost vs = visible_spec(self.rows_v());
        let mut p: usize = 0;
        while p < vis.len()
            invariant
                p <= vis@.len(),
                vis@.map_values(|x: usize| x as int) == vs,
                vs.len() * ROW_H <= i32::MAX,
                index_from(vs, self.sel as int, 0) == index_from(vs, self.sel as int, p as int),
                vs == visible_spec(old(self).rows_v()),
                self.rows_v() == old(self).rows_v(),
                self.sel == old(self).sel,
                self.caret == old(self).caret,
                self.show == old(self).show,
                self.saved == old(self).saved,
                self.slides == old(self).slides,
                self.scroll == old(self).scroll,
                fits(self.scroll + h),
                fits(ROW_H - h),
                fits(vs.len() * ROW_H - h),
            decreases vis@.len() - p,
        {
            assert(vs[p as int] == vis@[p as int] as int);
            if vis[p] == self.sel {
                let top = p as i32 * ROW_H;
                if top < self.scroll {
                    self.scroll = top;
                } else if top + ROW_H > self.scroll + h {
                    self.scroll = top + ROW_H - h;
                }
                return;
            }
            p += 1;
        }
    }

    /// A key as the Concurrence window takes it: `key`, then, where the outline was edited, its
    /// lines are stored in `lines` (the saved state); otherwise `lines` stays as it was.
    pub fn key_and_store(&mut self, k: Key, mods: Mods, r: Rect, lines: &mut Vec<String>) -> (out: KeyOutcome)
        requires
            edit_ok(old(self).rows_v()),
            old(self).show matches Some(s) ==> s < i32::MAX,
            old(self).show is None && old(self).slides ==> slides_spec(old(self).rows_v()).len()
                < i32::MAX,
            old(self).show is None && old(self).slides && (k == Key::Up || k == Key::Left || k
                == Key::PageUp || k == Key::Down || k == Key::Right || k == Key::PageDown || k
                == Key::Char(' ')) ==> slides_spec(old(self).rows_v()).len() > 0,
        ensures
            old(self).show is None && !old(self).slides ==> out == KeyOutcome::Edited
                && final(self).outline() == edit_spec(old(self).outline(), k, mods),
            out == KeyOutcome::Edited ==> final(lines)@.map_values(|l: String| l@) == final(self).rows_v().map_values(
                |rv: RowV| line_of_row(rv),
            ),
            out != KeyOutcome::Edited ==> final(lines)@ == old(lines)@,
    {
        let out = self.key(k, mods, r);
        match out {
            KeyOutcome::Edited => {
                *lines = self.to_lines();
            },
            _ => {},
        }
        out
    }

    /// Any key while presenting, in the Slide view, or in the Outline view.
    pub fn key(&mut self, k: Key, mods: Mods, r: Rect) -> (out: KeyOutcome)
        requires
            edit_ok(old(self).rows_v()),
            old(self).show matches Some(s) ==> s < i32::MAX,
            old(self).show is None && old(self).slides ==> slides_spec(old(self).rows_v()).len()
                < i32::MAX,
            old(self).show is None && old(self).slides && (k == Key::Up || k == Key::Left || k
                == Key::PageUp || k == Key::Down || k == Key::Right || k == Key::PageDown || k
                == Key::Char(' ')) ==> slides_spec(old(self).rows_v()).len() > 0,
        ensures
            old(self).show is None && !old(self).slides ==> out == KeyOutcome::Edited
                && final(self).outline() == edit_spec(old(self).outline(), k, mods)
                && final(self).show == old(self).show && final(self).saved == old(self).saved
                && final(self).scroll == old(self).scroll,
            old(self).show is None && old(self).slides ==> out != KeyOutcome::Edited && final(self).slides
                == (k != Key::Escape) && final(self).scroll == old(self).scroll,
            old(self).show is None && old(self).slides && (slide_back(k) || slide_fwd(k)) ==> out
                == KeyOutcome::Moved && final(self).sel == goto_spec(old(self).rows_v(), old(self).sel as int, if slide_back(k) { -1int } else { 1int })
                && final(self).caret == 0 && final(self).show == old(self).show && final(self).saved == old(self).saved,
            old(self).show is None && old(self).slides && k == Key::Escape ==> out == KeyOutcome::Moved
                && !final(self).slides,
            old(self).show is None && old(self).slides && k == Key::Enter ==> (out
                == KeyOutcome::ShowStarted <==> old(self).can_show()),
            old(self).show is None && old(self).slides && k == Key::Enter && old(self).can_show() ==> final(self).saved
                == Some(r) && final(self).show == Some(slide_of_spec(old(self).rows_v(), old(self).sel as int) as usize),
            old(self).show is None && old(self).slides && !(slide_back(k) || slide_fwd(k)) && !(k == Key::Enter && old(self).can_show())
                ==> out == KeyOutcome::Moved || out == KeyOutcome::ShowStarted,
            old(self).show is None && old(self).slides && !(slide_back(k) || slide_fwd(k)) && !(k == Key::Enter && old(self).can_show())
                ==> final(self).sel == old(self).sel && final(self).caret == old(self).caret
                && final(self).show == old(self).show && final(self).saved == old(self).saved,
            old(self).show is Some && (k == Key::Escape || k == Key::Char('q')) ==> (match out {
                KeyOutcome::ShowEnded(w) => old(self).saved == Some(w),
                KeyOutcome::Moved => old(self).saved is None,
                _ => false,
            }) && final(self).saved is None && (old(self).saved is Some ==> final(self).show is None),
            old(self).show is Some && !(k == Key::Escape || k == Key::Char('q')) ==> {
                let t = old(self).step_target(if show_back(k) { -1int } else { 1int });
                if t >= slides_spec(old(self).rows_v()).len() {
                    &&& final(self).saved is None
                    &&& match out {
                        KeyOutcome::ShowEnded(w) => old(self).saved == Some(w),
                        KeyOutcome::Moved => old(self).saved is None,
                        _ => false,
                    }
                } else {
                    &&& out == KeyOutcome::Moved
                    &&& final(self).show == Some(larger(t, 0) as usize)
                    &&& final(self).saved == old(self).saved
                    &&& final(self).sel == old(self).sel
                }
            },
            final(self).rows_v() == (if old(self).show is None && !old(self).slides {
                edit_spec(old(self).outline(), k, mods).rows
            } else {
                old(self).rows_v()
            }),
    {
        if self.show.is_some() {
            let ended = match k {
                Key::Escape | Key::Char('q') => self.end_show(),
                Key::Left | Key::Up | Key::PageUp | Key::Backspace => self.step(-1),
                _ => self.step(1),
            };
            return match ended {
                Some(w) => KeyOutcome::ShowEnded(w),
                None => KeyOutcome::Moved,
            };
        }
        if self.slides {
            match k {
                Key::Up | Key::Left | Key::PageUp => self.goto_slide(-1),
                Key::Down | Key::Right | Key::PageDown | Key::Char(' ') => self.goto_slide(1),
                Key::Escape => {
                    self.slides = false;
                },
                Key::Enter => {
                    if self.begin_show(r) {
                        return KeyOutcome::ShowStarted;
                    }
                },
                _ => {},
            }
            return KeyOutcome::Moved;
        }
        self.edit(k, mods);
        KeyOutcome::Edited
    }
}

/// The keys that go back a slide in the Slide view.
pub open spec fn slide_back(k: Key) -> bool {
    k == Key::Up || k == Key::Left || k == Key::PageUp
}

/// The keys that go forward a slide in the Slide view.
pub open spec fn slide_fwd(k: Key) -> bool {
    k == Key::Down || k == Key::Right || k == Key::PageDown || k == Key::Char(' ')
}

/// The keys that go back a slide while presenting (every other key but Escape and `q` goes on).
pub open spec fn show_back(k: Key) -> bool {
    k == Key::Left || k == Key::Up || k == Key::PageUp || k == Key::Backspace
}

/// The row selected once the selection moves `d` slides from the slide of row `sel`, within the deck.
pub open spec fn goto_spec(rows: Seq<RowV>, sel: int, d: int) -> int {
    slides_spec(rows)[smaller(larger(slide_of_spec(rows, sel) + d, 0), slides_spec(rows).len() - 1)] as int
}

proof fn lemma_slides_prefix(rows: Seq<RowV>, n: int)
    requires
        0 <= n <= rows.len(),
    ensures
        slides_upto(rows, n).len() <= slides_spec(rows).len(),
        forall|k: int| 0 <= k < slides_upto(rows, n).len() ==> slides_upto(rows, n)[k] == slides_spec(rows)[k],
    decreases rows.len() - n,
{
    if n < rows.len() {
        lemma_slides_prefix(rows, n + 1);
    } else {
        assert(slides_upto(rows, n) == slides_spec(rows));
    }
}


// ---- laws ----------------------------------------------------------------------------------------

/// A stored line with at most `MAX_LEVEL` leading tabs is written back exactly as it was read.
pub proof fn law_line_round_trip(l: Seq<char>)
    requires
        leading_tabs(l) <= MAX_LEVEL,
    ensures
        line_of_row(row_of_line(l)) == l,
{
    lemma_leading_tabs(l);
    let n = leading_tabs(l);
    assert(tabs(n) + l.skip(n as int) =~= l);
}

/// A row whose level is at most `MAX_LEVEL` and whose text does not start with a tab is read back
/// from its line as it was (expanded).
pub proof fn law_row_round_trip(r: RowV)
    requires
        r.1 <= MAX_LEVEL,
        r.0.len() == 0 || r.0[0] != '\t',
    ensures
        row_of_line(line_of_row(r)) == (r.0, r.1, false),
{
    lemma_leading_tabs_of(r.1 as nat, r.0);
    assert(leading_tabs(r.0) == 0);
    assert((tabs(r.1 as nat) + r.0).skip(r.1 as int) =~= r.0);
}

/// Storing a whole outline and reading it back gives the same rows, all expanded.
pub proof fn law_outline_round_trip(rows: Seq<RowV>)
    requires
        forall|i: int|
            0 <= i < rows.len() ==> (#[trigger] rows[i]).1 <= MAX_LEVEL && (rows[i].0.len() == 0
                || rows[i].0[0] != '\t'),
    ensures
        rows.map_values(|r: RowV| line_of_row(r)).map_values(|l: Seq<char>| row_of_line(l))
            == rows.map_values(|r: RowV| (r.0, r.1, false)),
{
    let a = rows.map_values(|r: RowV| line_of_row(r)).map_values(|l: Seq<char>| row_of_line(l));
    let b = rows.map_values(|r: RowV| (r.0, r.1, false));
    assert forall|i: int| 0 <= i < rows.len() implies #[trigger] a[i] == b[i] by {
        law_row_round_trip(rows[i]);
    }
    assert(rows.map_values(|r: RowV| line_of_row(r)).map_values(|l: Seq<char>| row_of_line(l))
        =~= rows.map_values(|r: RowV| (r.0, r.1, false)));
}

proof fn lemma_end_after_demote(rows: Seq<RowV>, sel: int, j: int)
    requires
        0 <= sel < rows.len(),
        sel < j <= rows.len(),
        forall|m: int| 0 <= m < rows.len() ==> (#[trigger] rows[m]).1 < usize::MAX,
        forall|m: int| sel < m < j ==> rows[m].1 > rows[sel].1,
        j <= end_spec(rows, sel),
    ensures
        end_from(shift_levels(rows, sel, end_spec(rows, sel), true), sel, j) == end_from(rows, sel, j),
    decreases rows.len() - j,
{
    lemma_end_from(rows, sel, sel + 1);
    let e = end_spec(rows, sel);
    let up = shift_levels(rows, sel, e, true);
    if j < rows.len() {
        if j < e {
            lemma_end_from_mid(rows, sel, j);
            lemma_end_after_demote(rows, sel, j + 1);
        }
    }
}

proof fn lemma_end_from_mid(rows: Seq<RowV>, sel: int, j: int)
    requires
        0 <= sel < rows.len(),
        sel < j < end_spec(rows, sel),
    ensures
        rows[j].1 > rows[sel].1,
{
    lemma_end_from(rows, sel, sel + 1);
}

/// Demoting a subtree with Tab and promoting it again with Shift-Tab gives back the same rows.
pub proof fn law_demote_then_promote(o: Outline, m: Mods)
    requires
        edit_ok(o.rows),
        0 <= o.sel,
        tab_ok(o.rows, clamp_sel(o), false),
        !m.shift,
    ensures
        ({
            let o1 = edit_spec(o, Key::Tab, m);
            let o2 = edit_spec(o1, Key::Tab, Mods { shift: true, ..m });
            &&& o2.rows == o.rows
            &&& o2.sel == clamp_sel(o)
            &&& o2.caret == o.caret
        }),
{
    let sel = clamp_sel(o);
    let e = end_spec(o.rows, sel);
    lemma_end_from(o.rows, sel, sel + 1);
    let up = shift_levels(o.rows, sel, e, true);
    lemma_end_after_demote(o.rows, sel, sel + 1);
    assert(end_spec(up, sel) == e);
    assert(tab_ok(up, sel, true));
    assert(shift_levels(up, sel, e, false) =~= o.rows);
}

/// Typing a printable character and deleting it with Backspace leaves the outline as it was, with
/// the caret back in place.
pub proof fn law_type_then_backspace(o: Outline, c: char, m: Mods)
    requires
        o.rows.len() > 0,
        0 <= o.sel && 0 <= o.caret,
        !control_char(c),
        !m.ctrl,
    ensures
        ({
            let o2 = edit_spec(edit_spec(o, Key::Char(c), m), Key::Backspace, m);
            &&& o2.rows == o.rows
            &&& o2.sel == clamp_sel(o)
            &&& o2.caret == clamp_caret(o)
            &&& o2.slides == o.slides
        }),
{
    let sel = clamp_sel(o);
    let t = o.rows[sel].0;
    let k = clamp_caret(o);
    let t1 = t.take(k).push(c) + t.skip(k);
    assert(t1.take(k) + t1.skip(k + 1) =~= t);
    assert(o.rows.update(sel, (t1, o.rows[sel].1, o.rows[sel].2)).update(sel, (t, o.rows[sel].1, o.rows[sel].2)) =~= o.rows);
}

/// Return splits a topic at the caret and Backspace at the start of the new topic joins it again:
/// a topic without children gets its text back (expanded), with the caret where it was.
pub proof fn law_split_then_join(o: Outline, m: Mods)
    requires
        o.rows.len() > 0,
        0 <= o.sel && 0 <= o.caret,
        !has_kids_spec(o.rows, clamp_sel(o)),
    ensures
        ({
            let sel = clamp_sel(o);
            let o2 = edit_spec(edit_spec(o, Key::Enter, m), Key::Backspace, m);
            &&& o2.rows == o.rows.update(sel, (o.rows[sel].0, o.rows[sel].1, false))
            &&& o2.sel == sel
            &&& o2.caret == clamp_caret(o)
        }),
{
    let sel = clamp_sel(o);
    let r = o.rows[sel];
    let t = r.0;
    let k = clamp_caret(o);
    let o1 = edit_spec(o, Key::Enter, m);
    let rows1 = o.rows.update(sel, (t.take(k), r.1, false)).insert(sel + 1, (t.skip(k), r.1, false));
    assert(o1.rows == rows1);
    assert(clamp_sel(o1) == sel + 1);
    assert(clamp_caret(o1) == 0);
    assert(!has_kids_spec(rows1, sel + 1)) by {
        if sel + 2 < rows1.len() {
            assert(rows1[sel + 2] == o.rows[sel + 1]);
        }
    }
    assert(t.take(k) + t.skip(k) =~= t);
    assert(rows1.remove(sel + 1).update(sel, (t.take(k) + t.skip(k), r.1, false)) =~= o.rows.update(
        sel,
        (t, r.1, false),
    ));
}

/// The selection names a row and the caret a place in its text.
pub open spec fn cursor_ok(o: Outline) -> bool {
    &&& 0 <= o.sel < o.rows.len()
    &&& 0 <= o.caret <= o.rows[o.sel].0.len()
}

/// Every key in the Outline view keeps the selection on a row and the caret inside its text.
pub proof fn law_edit_keeps_cursor(o: Outline, k: Key, m: Mods)
    requires
        cursor_ok(o),
    ensures
        cursor_ok(edit_spec(o, k, m)),
{
    let o2 = edit_spec(o, k, m);
    match k {
        Key::Up | Key::Down => {
            lemma_visible_from(o.rows, 0);
        },
        Key::Tab => {
            let e = end_spec(o.rows, o.sel);
        },
        _ => {},
    }
}


/// What a click in the outline list did.
#[derive(Clone, Copy, PartialEq, Eq, Debug, Structural)]
pub enum RowClick {
    /// Not on a row.
    Outside,
    /// The triangle of a topic with children: it collapsed or expanded, and is selected.
    Toggled(usize),
    /// The row's text: it is selected, and the caret goes to the character nearest `x` pixels
    /// into the text, which only the font can tell.
    Caret { row: usize, x: i32 },
}

/// The visible line a point `dy` pixels below the list's top falls on, the list scrolled by
/// `scroll`.
pub open spec fn line_at(dy: int, scroll: int) -> int {
    if dy + scroll < 0 { 0 } else { (dy + scroll) / (ROW_H as int) }
}

/// Where a row's text begins, in a list whose left edge is `x`.
pub open spec fn text_x(x: int, level: int) -> int {
    x + 6 + level * INDENT + 12
}

impl Concur {
    fn toggle(&mut self, i: usize)
        requires
            i < old(self).rows@.len(),
        ensures
            final(self).rows_v() == old(self).rows_v().update(i as int, (old(self).rows_v()[i as int].0, old(self).rows_v()[i as int].1, !old(self).rows_v()[i as int].2)),
            final(self).sel == old(self).sel,
            final(self).caret == old(self).caret,
            final(self).slides == old(self).slides,
            final(self).show == old(self).show,
            final(self).saved == old(self).saved,
            final(self).scroll == old(self).scroll,
    {
        let mut r = self.rows.remove(i);
        r.collapsed = !r.collapsed;
        self.rows.insert(i, r);
        assert(self.rows_v() =~= old(self).rows_v().update(i as int, (old(self).rows_v()[i as int].0, old(self).rows_v()[i as int].1, !old(self).rows_v()[i as int].2)));
    }

    /// A click at `p` in the outline list `list`: on the triangle of a topic with children it
    /// collapses or expands the topic, elsewhere on a row it selects the row.
    pub fn click_row(&mut self, list: Rect, p: Pt) -> (r: RowClick)
        requires
            list.edges_fit(),
            fits(p.y - list.y),
            fits(list.x + 6 + MAX_LEVEL * INDENT + 12),
            fits(p.x - (list.x + 6 + MAX_LEVEL * INDENT + 12)),
            fits(p.x - (list.x + 6 + 12)),
            0 <= old(self).scroll,
            forall|i: int| 0 <= i < old(self).rows@.len() ==> (#[trigger] old(self).rows@[i]).level <= MAX_LEVEL,
        ensures
            ({
                let vis = visible_spec(old(self).rows_v());
                let k = line_at(p.y - list.y, old(self).scroll as int);
                if !list.has(p) || k >= vis.len() {
                    r == RowClick::Outside && final(self).rows_v() == old(self).rows_v() && final(self).sel == old(self).sel
                } else {
                    let row = vis[k];
                    let lv = old(self).rows_v()[row].1 as int;
                    if has_kids_spec(old(self).rows_v(), row) && p.x < text_x(list.x as int, lv) {
                        &&& r == RowClick::Toggled(row as usize)
                        &&& final(self).rows_v() == old(self).rows_v().update(row, (old(self).rows_v()[row].0, old(self).rows_v()[row].1, !old(self).rows_v()[row].2))
                        &&& final(self).sel == row
                    } else {
                        &&& r == (RowClick::Caret { row: row as usize, x: (p.x - text_x(list.x as int, lv)) as i32 })
                        &&& final(self).rows_v() == old(self).rows_v()
                        &&& final(self).sel == row
                    }
                }
            }),
            final(self).caret == old(self).caret,
            final(self).slides == old(self).slides,
            final(self).show == old(self).show,
            final(self).scroll == old(self).scroll,
    {
        if !list.contains(p) {
            return RowClick::Outside;
        }
        let vis = self.visible();
        let num: i64 = (p.y - list.y) as i64 + self.scroll as i64;
        let k: usize = if num < 0 { 0 } else { (num / (ROW_H as i64)) as usize };
        assert(k == line_at(p.y - list.y, self.scroll as int));
        if k >= vis.len() {
            return RowClick::Outside;
        }
        let row = vis[k];
        proof {
            lemma_visible_in_range(self.rows_v(), 0);
            assert(vis@.map_values(|x: usize| x as int)[k as int] == row as int);
        }
        let lv = self.rows[row].level;
        let tx = list.x + 6 + (lv as i32) * INDENT + 12;
        if self.has_kids(row) && p.x < tx {
            self.toggle(row);
            self.sel = row;
            RowClick::Toggled(row)
        } else {
            self.sel = row;
            RowClick::Caret { row, x: p.x - tx }
        }
    }
}

proof fn lemma_visible_in_range(rows: Seq<RowV>, i: int)
    requires
        0 <= i,
    ensures
        forall|k: int| 0 <= k < visible_from(rows, i).len() ==> i <= #[trigger] visible_from(rows, i)[k] < rows.len(),
    decreases rows.len() - i,
{
    if i < rows.len() {
        let next = if rows[i].2 { end_spec(rows, i) } else { i + 1 };
        lemma_end_from(rows, i, i + 1);
        lemma_visible_in_range(rows, next);
        let v = visible_from(rows, i);
        assert forall|k: int| 0 <= k < v.len() implies i <= #[trigger] v[k] < rows.len() by {
            if k > 0 {
                assert(v[k] == visible_from(rows, next)[k - 1]);
            }
        }
    }
}

} // verus!
