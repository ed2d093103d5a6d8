//! Shell: a terminal window on a PTY. The terminal emulator lives around this module; here is
//! what the window decides — the bytes a key sends (xterm conventions), the grid that fits the
//! window, how the scrollback moves, and the title.
use vstd::prelude::*;
use crate::chrome::tdiv;
use crate::events::{Key, Mods};
use crate::geom::{larger, smaller, Rect};
use crate::text::push_str;

verus! {

/// Liberation Mono's 12 px advance (7.2), rounded.
pub const CELL_W: i32 = 7;

pub const CELL_H: i32 = 14;

pub const PAD: i32 = 4;

/// The UTF-8 encoding of `c`.
pub open spec fn utf8_spec(c: char) -> Seq<u8> {
    let u = c as u32;
    if u < 0x80 {
        seq![u as u8]
    } else if u < 0x800 {
        seq![(0xc0 | (u >> 6)) as u8, (0x80 | (u & 0x3f)) as u8]
    } else if u < 0x10000 {
        seq![(0xe0 | (u >> 12)) as u8, (0x80 | ((u >> 6) & 0x3f)) as u8, (0x80 | (u & 0x3f)) as u8]
    } else {
        seq![
            (0xf0 | (u >> 18)) as u8,
            (0x80 | ((u >> 12) & 0x3f)) as u8,
            (0x80 | ((u >> 6) & 0x3f)) as u8,
            (0x80 | (u & 0x3f)) as u8,
        ]
    }
}

fn utf8(c: char) -> (v: Vec<u8>)
    ensures
        v@ == utf8_spec(c),
{
    let u = c as u32;
    let mut v: Vec<u8> = Vec::new();
    if u < 0x80 {
        v.push(u as u8);
    } else if u < 0x800 {
        v.push((0xc0 | (u >> 6)) as u8);
        v.push((0x80 | (u & 0x3f)) as u8);
    } else if u < 0x10000 {
        v.push((0xe0 | (u >> 12)) as u8);
        v.push((0x80 | ((u >> 6) & 0x3f)) as u8);
        v.push((0x80 | (u & 0x3f)) as u8);
    } else {
        v.push((0xf0 | (u >> 18)) as u8);
        v.push((0x80 | ((u >> 12) & 0x3f)) as u8);
        v.push((0x80 | ((u >> 6) & 0x3f)) as u8);
        v.push((0x80 | (u & 0x3f)) as u8);
    }
    v
}

/// `char::to_ascii_uppercase` on an ASCII character.
pub open spec fn ascii_upper(u: u32) -> u32 {
    if 0x61 <= u <= 0x7a { (u - 0x20) as u32 } else { u }
}

/// What a Control chord with `c` sends: the control code of `@` ..= `_` (letters of either case),
/// NUL for the space bar, and the character itself otherwise.
pub open spec fn ctrl_spec(c: char) -> Seq<u8> {
    let u = ascii_upper(c as u32);
    if 0x40 <= u <= 0x5f {
        seq![(u & 0x1f) as u8]
    } else if c == ' ' {
        seq![0u8]
    } else {
        utf8_spec(c)
    }
}

/// The cursor keys: `ESC O x` in the application cursor mode, else `ESC [ x`.
pub open spec fn arrow_spec(x: u8, app_cursor: bool) -> Seq<u8> {
    seq![0x1bu8, if app_cursor { 0x4fu8 } else { 0x5bu8 }, x]
}

/// The bytes key `k` sends to the shell, by xterm's conventions.
pub open spec fn key_spec(k: Key, mods: Mods, app_cursor: bool) -> Seq<u8> {
    match k {
        Key::Char(c) => if mods.ctrl && (c as u32) < 0x80 {
            ctrl_spec(c)
        } else if mods.alt {
            seq![0x1bu8] + utf8_spec(c)
        } else {
            utf8_spec(c)
        },
        Key::Enter => seq![0x0du8],
        Key::Backspace => seq![0x7fu8],
        Key::Tab => seq![0x09u8],
        Key::Escape => seq![0x1bu8],
        Key::Delete => seq![0x1bu8, 0x5b, 0x33, 0x7e],
        Key::Up => arrow_spec(0x41, app_cursor),
        Key::Down => arrow_spec(0x42, app_cursor),
        Key::Right => arrow_spec(0x43, app_cursor),
        Key::Left => arrow_spec(0x44, app_cursor),
        Key::Home => seq![0x1bu8, 0x5b, 0x48],
        Key::End => seq![0x1bu8, 0x5b, 0x46],
        Key::PageUp => seq![0x1bu8, 0x5b, 0x35, 0x7e],
        Key::PageDown => seq![0x1bu8, 0x5b, 0x36, 0x7e],
    }
}

fn arrow(x: u8, app_cursor: bool) -> (v: Vec<u8>)
    ensures
        v@ == arrow_spec(x, app_cursor),
{
    let mut v: Vec<u8> = Vec::new();
    v.push(0x1b);
    v.push(if app_cursor { 0x4f } else { 0x5b });
    v.push(x);
    assert(v@ =~= arrow_spec(x, app_cursor));
    v
}

fn bytes_of(s: &[u8]) -> (v: Vec<u8>)
    ensures
        v@ == s@,
{
    let mut v: Vec<u8> = Vec::new();
    let mut i: usize = 0;
    while i < s.len()
        invariant
            i <= s@.len(),
            v@ =~= s@.take(i as int),
        decreases s@.len() - i,
    {
        v.push(s[i]);
        i += 1;
    }
    v
}

/// The bytes key `k` sends to the shell.
pub fn key_bytes(k: Key, mods: Mods, app_cursor: bool) -> (v: Vec<u8>)
    ensures
        v@ == key_spec(k, mods, app_cursor),
{
    match k {
        Key::Char(c) => {
            if mods.ctrl && (c as u32) < 0x80 {
                let cu = c as u32;
                let u: u32 = if 0x61 <= cu && cu <= 0x7a { cu - 0x20 } else { cu };
                if 0x40 <= u && u <= 0x5f {
                    let mut v: Vec<u8> = Vec::new();
                    v.push((u & 0x1f) as u8);
                    v
                } else if c == ' ' {
                    let mut v: Vec<u8> = Vec::new();
                    v.push(0);
                    v
                } else {
                    utf8(c)
                }
            } else if mods.alt {
                let mut v: Vec<u8> = Vec::new();
                v.push(0x1b);
                let e = utf8(c);
                let mut i: usize = 0;
                while i < e.len()
                    invariant
                        i <= e@.len(),
                        v@ =~= seq![0x1bu8] + e@.take(i as int),
                    decreases e@.len() - i,
                {
                    v.push(e[i]);
                    i += 1;
                }
                assert(e@.take(e@.len() as int) =~= e@);
                v
            } else {
                utf8(c)
            }
        },
        Key::Enter => bytes_of(&[0x0d]),
        Key::Backspace => bytes_of(&[0x7f]),
        Key::Tab => bytes_of(&[0x09]),
        Key::Escape => bytes_of(&[0x1b]),
        Key::Delete => bytes_of(&[0x1b, 0x5b, 0x33, 0x7e]),
        Key::Up => arrow(0x41, app_cursor),
        Key::Down => arrow(0x42, app_cursor),
        Key::Right => arrow(0x43, app_cursor),
        Key::Left => arrow(0x44, app_cursor),
        Key::Home => bytes_of(&[0x1b, 0x5b, 0x48]),
        Key::End => bytes_of(&[0x1b, 0x5b, 0x46]),
        Key::PageUp => bytes_of(&[0x1b, 0x5b, 0x35, 0x7e]),
        Key::PageDown => bytes_of(&[0x1b, 0x5b, 0x36, 0x7e]),
    }
}

/// The grid that fits the terminal area `a`: at least 20 columns and 5 rows.
pub open spec fn dims_spec(a: Rect) -> (int, int) {
    (larger(tdiv(a.w - 2 * PAD, CELL_W as int), 20), larger(tdiv(a.h - 2 * PAD, CELL_H as int), 5))
}

pub fn dims(a: Rect) -> (d: (usize, usize))
    requires
        -0x100000 <= a.w <= 0x100000,
        -0x100000 <= a.h <= 0x100000,
    ensures
        (d.0 as int, d.1 as int) == dims_spec(a),
{
    let x = a.w - 2 * PAD;
    let y = a.h - 2 * PAD;
    let cx = if x >= 0 { x / CELL_W } else { -((-x) / CELL_W) };
    let cy = if y >= 0 { y / CELL_H } else { -((-y) / CELL_H) };
    let c = if cx < 20 { 20 } else { cx };
    let r = if cy < 5 { 5 } else { cy };
    (c as usize, r as usize)
}

/// How many lines a wheel turn of `dy` pixels scrolls the scrollback: whole cells, at most 40,
/// and the other way round.
pub open spec fn wheel_spec(dy: int) -> int {
    -smaller(larger(tdiv(dy, CELL_H as int), -40), 40)
}

pub fn wheel_lines(dy: i32) -> (l: i32)
    ensures
        l == wheel_spec(dy as int),
{
    let q: i32 = if dy >= 0 {
        dy / CELL_H
    } else {
        -((-(dy as i64)) / (CELL_H as i64)) as i32
    };
    let c = if q < -40 {
        -40
    } else if q > 40 {
        40
    } else {
        q
    };
    -c
}

/// How far to move the display so that the scroller's position `v` (0 is the oldest line of the
/// `hist` lines of history) is shown, from `off` lines up.
pub open spec fn scroll_delta_spec(hist: int, off: int, v: int) -> int {
    (hist - smaller(larger(v, 0), hist)) - off
}

pub fn scroll_delta(hist: i32, off: i32, v: i32) -> (d: i32)
    requires
        0 <= hist <= 0x1000000,
        0 <= off <= 0x1000000,
    ensures
        d == scroll_delta_spec(hist as int, off as int, v as int),
{
    let c = if v < 0 {
        0
    } else if v > hist {
        hist
    } else {
        v
    };
    (hist - c) - off
}

/// The window's title for the title the shell reports.
pub fn shell_title(t: &str) -> (s: String)
    ensures
        s@ == (if t@.len() == 0 { "Shell"@ } else { "Shell — "@ + t@ }),
{
    let n = crate::text::chars_of(t).len();
    if n == 0 {
        String::from_str("Shell")
    } else {
        let mut s = String::from_str("Shell — ");
        push_str(&mut s, t);
        s
    }
}

/// The arrow keys send xterm's cursor sequences: ESC, then `[` (or `O` in application cursor
/// mode), then the direction letter: `A` up, `B` down, `C` right, `D` left; whatever the modifiers.
/// So no two arrows send the same bytes.
pub proof fn law_arrow_keys(mods: Mods, app_cursor: bool)
    ensures
        key_spec(Key::Up, mods, app_cursor) == seq![0x1bu8, if app_cursor { 0x4fu8 } else { 0x5bu8 }, 0x41u8],
        key_spec(Key::Down, mods, app_cursor) == seq![0x1bu8, if app_cursor { 0x4fu8 } else { 0x5bu8 }, 0x42u8],
        key_spec(Key::Right, mods, app_cursor) == seq![0x1bu8, if app_cursor { 0x4fu8 } else { 0x5bu8 }, 0x43u8],
        key_spec(Key::Left, mods, app_cursor) == seq![0x1bu8, if app_cursor { 0x4fu8 } else { 0x5bu8 }, 0x44u8],
        key_spec(Key::Up, mods, app_cursor) != key_spec(Key::Down, mods, app_cursor),
        key_spec(Key::Left, mods, app_cursor) != key_spec(Key::Right, mods, app_cursor),
        key_spec(Key::Down, mods, false) == seq![0x1bu8, 0x5bu8, 0x42u8],
        key_spec(Key::Down, mods, true) == seq![0x1bu8, 0x4fu8, 0x42u8],
{
    assert(key_spec(Key::Up, mods, app_cursor)[2] != key_spec(Key::Down, mods, app_cursor)[2]);
    assert(key_spec(Key::Left, mods, app_cursor)[2] != key_spec(Key::Right, mods, app_cursor)[2]);
}

/// The other named keys send their xterm bytes whatever the modifiers: Return CR, Backspace DEL,
/// Tab HT, Esc ESC, Delete `ESC [ 3 ~`, Home `ESC [ H`, End `ESC [ F`, Page Up `ESC [ 5 ~` and
/// Page Down `ESC [ 6 ~`; a plain ASCII character sends itself, and Control with a letter of
/// either case sends that letter's control code (1 for A, 26 for Z).
pub proof fn law_named_keys(mods: Mods, app_cursor: bool, c: char)
    ensures
        key_spec(Key::Enter, mods, app_cursor) == seq![0x0du8],
        key_spec(Key::Backspace, mods, app_cursor) == seq![0x7fu8],
        key_spec(Key::Tab, mods, app_cursor) == seq![0x09u8],
        key_spec(Key::Escape, mods, app_cursor) == seq![0x1bu8],
        key_spec(Key::Delete, mods, app_cursor) == seq![0x1bu8, 0x5bu8, 0x33u8, 0x7eu8],
        key_spec(Key::Home, mods, app_cursor) == seq![0x1bu8, 0x5bu8, 0x48u8],
        key_spec(Key::End, mods, app_cursor) == seq![0x1bu8, 0x5bu8, 0x46u8],
        key_spec(Key::PageUp, mods, app_cursor) == seq![0x1bu8, 0x5bu8, 0x35u8, 0x7eu8],
        key_spec(Key::PageDown, mods, app_cursor) == seq![0x1bu8, 0x5bu8, 0x36u8, 0x7eu8],
        !mods.ctrl && !mods.alt && (c as u32) < 0x80 ==> key_spec(Key::Char(c), mods, app_cursor) == seq![c as u8],
        mods.ctrl && 0x61 <= (c as u32) <= 0x7a ==> key_spec(Key::Char(c), mods, app_cursor) == seq![((c as u32) - 0x60) as u8],
        mods.ctrl && 0x41 <= (c as u32) <= 0x5a ==> key_spec(Key::Char(c), mods, app_cursor) == seq![((c as u32) - 0x40) as u8],
{
    let u = c as u32;
    if mods.ctrl && 0x61 <= u <= 0x7a {
        let w: u32 = (u - 0x20) as u32;
        assert(w & 0x1f == w - 0x40) by (bit_vector)
            requires
                0x41 <= w <= 0x5a,
        ;
    }
    if mods.ctrl && 0x41 <= u <= 0x5a {
        assert(u & 0x1f == u - 0x40) by (bit_vector)
            requires
                0x41 <= u <= 0x5a,
        ;
    }
}

} // verus!
