//! Replay scripts for headless runs: one command a line ("click 120 40", "key esc", "type hi"),
//! what each line says, and the input events that a command hands the Workspace.
use vstd::prelude::*;
use crate::events::{Button, Key, Mods};
use crate::geom::{fits, pt, Pt};
use crate::librarian::{is_ws, trim, trim_spec, ws};
use crate::text::{chars_of, same, string_of};

verus! {

// ---- words ---------------------------------------------------------------------------------------

/// The words of `s` from here on, with `cur` the word being read and `acc` those already read:
/// runs of characters between white space.
pub open spec fn words_from(s: Seq<char>, cur: Seq<char>, acc: Seq<Seq<char>>) -> Seq<Seq<char>>
    decreases s.len(),
{
    if s.len() == 0 {
        if cur.len() > 0 { acc.push(cur) } else { acc }
    } else if ws(s[0]) {
        words_from(s.drop_first(), seq![], if cur.len() > 0 { acc.push(cur) } else { acc })
    } else {
        words_from(s.drop_first(), cur.push(s[0]), acc)
    }
}

/// `str::split_whitespace`: the words of `s`.
pub open spec fn words(s: Seq<char>) -> Seq<Seq<char>> {
    words_from(s, seq![], seq![])
}

pub open spec fn views(p: Seq<Vec<char>>) -> Seq<Seq<char>> {
    p.map_values(|w: Vec<char>| w@)
}

fn split_words(v: &[char]) -> (r: Vec<Vec<char>>)
    ensures
        views(r@) == words(v@),
        forall|j: int| 0 <= j < r@.len() ==> (#[trigger] r@[j])@.len() > 0,
{
    let mut acc: Vec<Vec<char>> = Vec::new();
    let mut cur: Vec<char> = Vec::new();
    let mut i: usize = 0;
    assert(v@.skip(0) =~= v@);
    assert(views(acc@) =~= Seq::<Seq<char>>::empty());
    while i < v.len()
        invariant
            i <= v@.len(),
            words_from(v@.skip(i as int), cur@, views(acc@)) == words(v@),
            forall|j: int| 0 <= j < acc@.len() ==> (#[trigger] acc@[j])@.len() > 0,
        decreases v@.len() - i,
    {
        assert(v@.skip(i as int).drop_first() =~= v@.skip(i + 1));
        let c = v[i];
        if is_ws(c) {
            if cur.len() > 0 {
                let ghost before = acc@;
                acc.push(cur);
                assert(views(acc@) =~= views(before).push(acc@.last()@));
            }
            cur = Vec::new();
            assert(cur@ =~= Seq::<char>::empty());
        } else {
            cur.push(c);
        }
        i += 1;
    }
    assert(v@.skip(i as int) =~= Seq::<char>::empty());
    if cur.len() > 0 {
        let ghost before = acc@;
        acc.push(cur);
        assert(views(acc@) =~= views(before).push(acc@.last()@));
    }
    acc
}

/// The words `p[from..]` joined by single spaces, as `join(" ")` writes them.
pub open spec fn joined(p: Seq<Seq<char>>) -> Seq<char>
    decreases p.len(),
{
    if p.len() == 0 {
        seq![]
    } else if p.len() == 1 {
        p[0]
    } else {
        joined(p.drop_last()) + seq![' '] + p.last()
    }
}

fn join_from(p: &Vec<Vec<char>>, from: usize) -> (r: Vec<char>)
    requires
        from <= p@.len(),
    ensures
        r@ == joined(views(p@).skip(from as int)),
{
    let mut r: Vec<char> = Vec::new();
    if from >= p.len() {
        assert(views(p@).skip(from as int) =~= Seq::<Seq<char>>::empty());
        return r;
    }
    let mut i: usize = from;
    assert(views(p@).subrange(from as int, from as int) =~= Seq::<Seq<char>>::empty());
    while i < p.len()
        invariant
            from <= i <= p@.len(),
            from < p@.len(),
            r@ == joined(views(p@).subrange(from as int, i as int)),
        decreases p@.len() - i,
    {
        let ghost s = views(p@).subrange(from as int, i + 1);
        assert(s.drop_last() =~= views(p@).subrange(from as int, i as int));
        assert(s.last() == p@[i as int]@);
        if i > from {
            r.push(' ');
        }
        let w = &p[i];
        let mut k: usize = 0;
        let ghost r0 = r@;
        while k < w.len()
            invariant
                k <= w@.len(),
                r@ == r0 + w@.take(k as int),
            decreases w@.len() - k,
        {
            r.push(w[k]);
            assert(w@.take(k + 1) =~= w@.take(k as int).push(w@[k as int]));
            k += 1;
        }
        assert(w@.take(w@.len() as int) =~= w@);
        proof {
            if i > from {
                assert(r@ =~= joined(s.drop_last()) + seq![' '] + s.last());
            } else {
                assert(s.len() == 1);
                assert(r@ =~= s[0]);
            }
        }
        i += 1;
    }
    assert(views(p@).subrange(from as int, p@.len() as int) =~= views(p@).skip(from as int));
    r
}

// ---- numbers -------------------------------------------------------------------------------------

pub open spec fn is_digit(c: char) -> bool {
    48 <= (c as u32) <= 57
}

pub open spec fn all_digits(s: Seq<char>) -> bool {
    forall|i: int| 0 <= i < s.len() ==> is_digit(#[trigger] s[i])
}

/// The number that the decimal digits `s` write.
pub open spec fn digits_val(s: Seq<char>) -> int
    decreases s.len(),
{
    if s.len() == 0 {
        0
    } else {
        digits_val(s.drop_last()) * 10 + ((s.last() as u32) - 48)
    }
}

/// What `str::parse::<i32>` reads from `s`: an optional sign and at least one decimal digit, the
/// value in range.
pub open spec fn i32_text(s: Seq<char>) -> Option<i32> {
    let signed = s.len() > 0 && (s[0] == '-' || s[0] == '+');
    let d = if signed { s.drop_first() } else { s };
    let v = if signed && s[0] == '-' { -digits_val(d) } else { digits_val(d) };
    if d.len() > 0 && all_digits(d) && fits(v) {
        Some(v as i32)
    } else {
        None
    }
}

pub fn parse_i32(w: &[char]) -> (r: Option<i32>)
    ensures
        r == i32_text(w@),
{
    let n = w.len();
    if n == 0 {
        return None;
    }
    let signed = w[0] == '-' || w[0] == '+';
    let neg = w[0] == '-';
    let start: usize = if signed { 1 } else { 0 };
    let ghost d = if signed { w@.drop_first() } else { w@ };
    assert(d =~= w@.subrange(start as int, n as int));
    if start == n {
        return None;
    }
    let cap: i64 = 0x8000_0001;
    let mut val: i64 = 0;
    let mut i: usize = start;
    assert(w@.subrange(start as int, start as int) =~= Seq::<char>::empty());
    while i < n
        invariant
            start <= i <= n,
            n == w@.len(),
            d == w@.subrange(start as int, n as int),
            n > 0,
            signed == (w@[0] == '-' || w@[0] == '+'),
            d == (if signed { w@.drop_first() } else { w@ }),
            cap == 0x8000_0001,
            all_digits(w@.subrange(start as int, i as int)),
            val == (if digits_val(w@.subrange(start as int, i as int)) < cap {
                digits_val(w@.subrange(start as int, i as int))
            } else {
                cap as int
            }),
            0 <= val <= cap,
        decreases n - i,
    {
        let c = w[i];
        let u = c as u32;
        if u < 48 || u > 57 {
            assert(d[i - start] == c);
            assert(!is_digit(d[i - start]));
            assert(!all_digits(d));
            return None;
        }
        let ghost s = w@.subrange(start as int, i + 1);
        assert(s.drop_last() =~= w@.subrange(start as int, i as int));
        assert(s.last() == c);
        let dv: i64 = (u - 48) as i64;
        if val < cap {
            val = val * 10 + dv;
            if val > cap {
                val = cap;
            }
        }
        assert(all_digits(s)) by {
            assert forall|j: int| 0 <= j < s.len() implies is_digit(#[trigger] s[j]) by {
                if j < s.len() - 1 {
                    assert(s[j] == w@.subrange(start as int, i as int)[j]);
                }
            }
        }
        i += 1;
    }
    if val >= cap {
        return None;
    }
    if neg {
        Some((-val) as i32)
    } else if val <= 0x7fff_ffff {
        Some(val as i32)
    } else {
        None
    }
}

/// The numbers among the words `p`, in order: what `filter_map(|v| v.parse().ok())` keeps.
pub open spec fn numbers(p: Seq<Seq<char>>) -> Seq<i32>
    decreases p.len(),
{
    if p.len() == 0 {
        seq![]
    } else {
        numbers(p.drop_last()) + match i32_text(p.last()) {
            Some(v) => seq![v],
            None => seq![],
        }
    }
}

/// The whole numbers written in `s`, words that are no number left out.
pub fn numbers_in(s: &str) -> (r: Vec<i32>)
    ensures
        r@ == numbers(words(s@)),
{
    let cs = chars_of(s);
    let p = split_words(cs.as_slice());
    let mut r: Vec<i32> = Vec::new();
    let mut i: usize = 0;
    assert(views(p@).take(0) =~= Seq::<Seq<char>>::empty());
    while i < p.len()
        invariant
            i <= p@.len(),
            r@ == numbers(views(p@).take(i as int)),
        decreases p@.len() - i,
    {
        let ghost t = views(p@).take(i + 1);
        assert(t.drop_last() =~= views(p@).take(i as int));
        assert(t.last() == p@[i as int]@);
        match parse_i32(p[i].as_slice()) {
            Some(v) => {
                r.push(v);
                assert(r@ =~= numbers(t));
            },
            None => {
                assert(r@ =~= numbers(t));
            },
        }
        i += 1;
    }
    assert(views(p@).take(p@.len() as int) =~= views(p@));
    r
}

// ---- commands ------------------------------------------------------------------------------------

/// One line of a script. Coordinates are Screen points; texts are held as written.
#[derive(Clone, Debug)]
pub enum ScriptCmd {
    Size(i32, i32),
    Move(i32, i32),
    Down,
    Up,
    Click(i32, i32),
    RClick(i32, i32),
    DblClick(i32, i32),
    Drag(i32, i32, i32, i32),
    DragSel(i32, i32),
    DragCell(String),
    Drop,
    SetMods(Mods),
    Key(Key),
    Type(String),
    Wheel(i32, i32),
    Wait(i32),
    Zoom(String),
    Shot(String),
    Log(i32),
    Eval(String),
    /// A command name that the player does not know.
    Unknown(String),
    /// A known command whose arguments are missing or are no numbers where numbers belong.
    Malformed(String),
}

/// What a `ScriptCmd` says, its texts as character sequences.
pub enum Cmd {
    Size(i32, i32),
    Move(i32, i32),
    Down,
    Up,
    Click(i32, i32),
    RClick(i32, i32),
    DblClick(i32, i32),
    Drag(i32, i32, i32, i32),
    DragSel(i32, i32),
    DragCell(Seq<char>),
    Drop,
    SetMods(Mods),
    Key(Key),
    Type(Seq<char>),
    Wheel(i32, i32),
    Wait(i32),
    Zoom(Seq<char>),
    Shot(Seq<char>),
    Log(i32),
    Eval(Seq<char>),
    Unknown(Seq<char>),
    Malformed(Seq<char>),
}

impl View for ScriptCmd {
    type V = Cmd;

    open spec fn view(&self) -> Cmd {
        match self {
            ScriptCmd::Size(a, b) => Cmd::Size(*a, *b),
            ScriptCmd::Move(a, b) => Cmd::Move(*a, *b),
            ScriptCmd::Down => Cmd::Down,
            ScriptCmd::Up => Cmd::Up,
            ScriptCmd::Click(a, b) => Cmd::Click(*a, *b),
            ScriptCmd::RClick(a, b) => Cmd::RClick(*a, *b),
            ScriptCmd::DblClick(a, b) => Cmd::DblClick(*a, *b),
            ScriptCmd::Drag(a, b, c, d) => Cmd::Drag(*a, *b, *c, *d),
            ScriptCmd::DragSel(a, b) => Cmd::DragSel(*a, *b),
            ScriptCmd::DragCell(s) => Cmd::DragCell(s@),
            ScriptCmd::Drop => Cmd::Drop,
            ScriptCmd::SetMods(m) => Cmd::SetMods(*m),
            ScriptCmd::Key(k) => Cmd::Key(*k),
            ScriptCmd::Type(s) => Cmd::Type(s@),
            ScriptCmd::Wheel(a, b) => Cmd::Wheel(*a, *b),
            ScriptCmd::Wait(a) => Cmd::Wait(*a),
            ScriptCmd::Zoom(s) => Cmd::Zoom(s@),
            ScriptCmd::Shot(s) => Cmd::Shot(s@),
            ScriptCmd::Log(a) => Cmd::Log(*a),
            ScriptCmd::Eval(s) => Cmd::Eval(s@),
            ScriptCmd::Unknown(s) => Cmd::Unknown(s@),
            ScriptCmd::Malformed(s) => Cmd::Malformed(s@),
        }
    }
}

/// The key that `key <name>` presses: the arrows, Enter, Esc, Delete, Backspace, Tab, Home, End,
/// Page Up and Page Down by name, else the first character of the name.
pub open spec fn key_named(w: Seq<char>) -> Key {
    if w == "up"@ {
        Key::Up
    } else if w == "down"@ {
        Key::Down
    } else if w == "left"@ {
        Key::Left
    } else if w == "right"@ {
        Key::Right
    } else if w == "enter"@ {
        Key::Enter
    } else if w == "esc"@ {
        Key::Escape
    } else if w == "del"@ {
        Key::Delete
    } else if w == "backspace"@ {
        Key::Backspace
    } else if w == "tab"@ {
        Key::Tab
    } else if w == "home"@ {
        Key::Home
    } else if w == "end"@ {
        Key::End
    } else if w == "pgup"@ {
        Key::PageUp
    } else if w == "pgdn"@ {
        Key::PageDown
    } else {
        Key::Char(w[0])
    }
}

/// The number in word `i` of `p`, if there is that word and it is a number.
pub open spec fn num_at(p: Seq<Seq<char>>, i: int) -> Option<i32> {
    if 0 <= i < p.len() { i32_text(p[i]) } else { None }
}

pub open spec fn two(p: Seq<Seq<char>>, name: Seq<char>, f: spec_fn(i32, i32) -> Cmd) -> Cmd {
    match (num_at(p, 1), num_at(p, 2)) {
        (Some(x), Some(y)) => f(x, y),
        _ => Cmd::Malformed(name),
    }
}

pub open spec fn one(p: Seq<Seq<char>>, name: Seq<char>, f: spec_fn(i32) -> Cmd) -> Cmd {
    match num_at(p, 1) {
        Some(x) => f(x),
        None => Cmd::Malformed(name),
    }
}

pub open spec fn text_arg(p: Seq<Seq<char>>, name: Seq<char>, f: spec_fn(Seq<char>) -> Cmd) -> Cmd {
    if p.len() > 1 { f(p[1]) } else { Cmd::Malformed(name) }
}

/// The command that the words `p` of a line give.
pub open spec fn cmd_of(p: Seq<Seq<char>>) -> Cmd {
    let name = if p.len() > 0 { p[0] } else { seq![] };
    if p.len() == 0 {
        Cmd::Unknown(name)
    } else if name == "size"@ {
        two(p, name, |x: i32, y: i32| Cmd::Size(x, y))
    } else if name == "move"@ {
        two(p, name, |x: i32, y: i32| Cmd::Move(x, y))
    } else if name == "down"@ {
        Cmd::Down
    } else if name == "up"@ {
        Cmd::Up
    } else if name == "click"@ {
        two(p, name, |x: i32, y: i32| Cmd::Click(x, y))
    } else if name == "rclick"@ {
        two(p, name, |x: i32, y: i32| Cmd::RClick(x, y))
    } else if name == "dblclick"@ {
        two(p, name, |x: i32, y: i32| Cmd::DblClick(x, y))
    } else if name == "drag"@ {
        match (num_at(p, 1), num_at(p, 2), num_at(p, 3), num_at(p, 4)) {
            (Some(a), Some(b), Some(c), Some(d)) => Cmd::Drag(a, b, c, d),
            _ => Cmd::Malformed(name),
        }
    } else if name == "dragsel"@ {
        two(p, name, |x: i32, y: i32| Cmd::DragSel(x, y))
    } else if name == "dragcell"@ {
        text_arg(p, name, |t: Seq<char>| Cmd::DragCell(t))
    } else if name == "drop"@ {
        Cmd::Drop
    } else if name == "mods"@ {
        Cmd::SetMods(
            Mods {
                shift: p.contains("shift"@),
                alt: p.contains("alt"@),
                ctrl: p.contains("ctrl"@),
                cmd: p.contains("cmd"@),
            },
        )
    } else if name == "key"@ {
        text_arg(p, name, |t: Seq<char>| Cmd::Key(key_named(t)))
    } else if name == "type"@ {
        Cmd::Type(joined(p.skip(1)))
    } else if name == "wheel"@ {
        two(p, name, |x: i32, y: i32| Cmd::Wheel(x, y))
    } else if name == "wait"@ {
        one(p, name, |x: i32| Cmd::Wait(x))
    } else if name == "zoom"@ {
        text_arg(p, name, |t: Seq<char>| Cmd::Zoom(t))
    } else if name == "shot"@ {
        text_arg(p, name, |t: Seq<char>| Cmd::Shot(t))
    } else if name == "log"@ {
        one(p, name, |x: i32| Cmd::Log(x))
    } else if name == "eval"@ {
        Cmd::Eval(joined(p.skip(1)))
    } else {
        Cmd::Unknown(name)
    }
}

/// What a line of a script says: nothing for a blank line or a `#` comment, else the command
/// of its words.
pub open spec fn script_line_spec(line: Seq<char>) -> Option<Cmd> {
    let t = trim_spec(line);
    if t.len() == 0 || t[0] == '#' {
        None
    } else {
        Some(cmd_of(words(t)))
    }
}

fn num(p: &Vec<Vec<char>>, i: usize) -> (r: Option<i32>)
    ensures
        r == num_at(views(p@), i as int),
{
    if i < p.len() {
        parse_i32(p[i].as_slice())
    } else {
        None
    }
}

fn has_word(p: &Vec<Vec<char>>, s: &str) -> (b: bool)
    ensures
        b == views(p@).contains(s@),
{
    let mut i: usize = 0;
    while i < p.len()
        invariant
            i <= p@.len(),
            forall|j: int| 0 <= j < i ==> views(p@)[j] != s@,
        decreases p@.len() - i,
    {
        if same(p[i].as_slice(), s) {
            assert(views(p@)[i as int] == s@);
            return true;
        }
        i += 1;
    }
    false
}

fn key_of(w: &[char]) -> (k: Key)
    requires
        w@.len() > 0,
    ensures
        k == key_named(w@),
{
    if same(w, "up") {
        Key::Up
    } else if same(w, "down") {
        Key::Down
    } else if same(w, "left") {
        Key::Left
    } else if same(w, "right") {
        Key::Right
    } else if same(w, "enter") {
        Key::Enter
    } else if same(w, "esc") {
        Key::Escape
    } else if same(w, "del") {
        Key::Delete
    } else if same(w, "backspace") {
        Key::Backspace
    } else if same(w, "tab") {
        Key::Tab
    } else if same(w, "home") {
        Key::Home
    } else if same(w, "end") {
        Key::End
    } else if same(w, "pgup") {
        Key::PageUp
    } else if same(w, "pgdn") {
        Key::PageDown
    } else {
        Key::Char(w[0])
    }
}

fn cmd_of_words(p: &Vec<Vec<char>>) -> (c: ScriptCmd)
    requires
        forall|j: int| 0 <= j < p@.len() ==> (#[trigger] p@[j])@.len() > 0,
    ensures
        c@ == cmd_of(views(p@)),
{
    if p.len() == 0 {
        return ScriptCmd::Unknown(String::new());
    }
    let name: &[char] = p[0].as_slice();
    let nm = string_of(name);
    if same(name, "size") {
        match (num(p, 1), num(p, 2)) {
            (Some(x), Some(y)) => ScriptCmd::Size(x, y),
            _ => ScriptCmd::Malformed(nm),
        }
    } else if same(name, "move") {
        match (num(p, 1), num(p, 2)) {
            (Some(x), Some(y)) => ScriptCmd::Move(x, y),
            _ => ScriptCmd::Malformed(nm),
        }
    } else if same(name, "down") {
        ScriptCmd::Down
    } else if same(name, "up") {
        ScriptCmd::Up
    } else if same(name, "click") {
        match (num(p, 1), num(p, 2)) {
            (Some(x), Some(y)) => ScriptCmd::Click(x, y),
            _ => ScriptCmd::Malformed(nm),
        }
    } else if same(name, "rclick") {
        match (num(p, 1), num(p, 2)) {
            (Some(x), Some(y)) => ScriptCmd::RClick(x, y),
            _ => ScriptCmd::Malformed(nm),
        }
    } else if same(name, "dblclick") {
        match (num(p, 1), num(p, 2)) {
            (Some(x), Some(y)) => ScriptCmd::DblClick(x, y),
            _ => ScriptCmd::Malformed(nm),
        }
    } else if same(name, "drag") {
        match (num(p, 1), num(p, 2), num(p, 3), num(p, 4)) {
            (Some(a), Some(b), Some(c), Some(d)) => ScriptCmd::Drag(a, b, c, d),
            _ => ScriptCmd::Malformed(nm),
        }
    } else if same(name, "dragsel") {
        match (num(p, 1), num(p, 2)) {
            (Some(x), Some(y)) => ScriptCmd::DragSel(x, y),
            _ => ScriptCmd::Malformed(nm),
        }
    } else if same(name, "dragcell") {
        if p.len() > 1 {
            ScriptCmd::DragCell(string_of(p[1].as_slice()))
        } else {
            ScriptCmd::Malformed(nm)
        }
    } else if same(name, "drop") {
        ScriptCmd::Drop
    } else if same(name, "mods") {
        ScriptCmd::SetMods(
            Mods {
                shift: has_word(p, "shift"),
                alt: has_word(p, "alt"),
                ctrl: has_word(p, "ctrl"),
                cmd: has_word(p, "cmd"),
            },
        )
    } else if same(name, "key") {
        if p.len() > 1 {
            ScriptCmd::Key(key_of(p[1].as_slice()))
        } else {
            ScriptCmd::Malformed(nm)
        }
    } else if same(name, "type") {
        ScriptCmd::Type(string_of(join_from(p, 1).as_slice()))
    } else if same(name, "wheel") {
        match (num(p, 1), num(p, 2)) {
            (Some(x), Some(y)) => ScriptCmd::Wheel(x, y),
            _ => ScriptCmd::Malformed(nm),
        }
    } else if same(name, "wait") {
        match num(p, 1) {
            Some(x) => ScriptCmd::Wait(x),
            None => ScriptCmd::Malformed(nm),
        }
    } else if same(name, "zoom") {
        if p.len() > 1 {
            ScriptCmd::Zoom(string_of(p[1].as_slice()))
        } else {
            ScriptCmd::Malformed(nm)
        }
    } else if same(name, "shot") {
        if p.len() > 1 {
            ScriptCmd::Shot(string_of(p[1].as_slice()))
        } else {
            ScriptCmd::Malformed(nm)
        }
    } else if same(name, "log") {
        match num(p, 1) {
            Some(x) => ScriptCmd::Log(x),
            None => ScriptCmd::Malformed(nm),
        }
    } else if same(name, "eval") {
        ScriptCmd::Eval(string_of(join_from(p, 1).as_slice()))
    } else {
        ScriptCmd::Unknown(nm)
    }
}

/// Reads one line of a script: `None` for a blank line or a `#` comment.
pub fn parse_script_line(line: &str) -> (r: Option<ScriptCmd>)
    ensures
        r is None <==> script_line_spec(line@) is None,
        r matches Some(c) ==> script_line_spec(line@) == Some(c@),
{
    let cs = chars_of(line);
    let t = trim(cs.as_slice());
    if t.len() == 0 || t[0] == '#' {
        return None;
    }
    let p = split_words(t.as_slice());
    Some(cmd_of_words(&p))
}

// ---- events --------------------------------------------------------------------------------------

/// An input event that a script hands the Workspace; a wheel turn is in whole steps.
#[derive(Clone, Copy, Debug, PartialEq, Eq, Structural)]
pub enum ScriptEv {
    MouseMove(Pt),
    MouseDown(Pt, Button, Mods),
    MouseUp(Pt, Button, Mods),
    Wheel(Pt, i32, i32),
    Key(Key, Mods),
}

/// Rust's division by eight, which rounds toward zero.
pub open spec fn tdiv8(v: int) -> int {
    if v >= 0 { v / 8 } else { -((-v) / 8) }
}

/// Step `i` of eight from `a` to `b`: `a + (b - a) * i / 8` on each axis.
pub open spec fn drag_pt(a: Pt, b: Pt, i: int) -> Pt {
    Pt { x: (a.x + tdiv8((b.x - a.x) * i)) as i32, y: (a.y + tdiv8((b.y - a.y) * i)) as i32 }
}

/// The steps of a drag from `a` to `b` stay within `i32`.
pub open spec fn drag_fits(a: Pt, b: Pt) -> bool {
    fits((b.x - a.x) * 8) && fits((b.y - a.y) * 8)
}

pub fn drag_ok(a: Pt, b: Pt) -> (r: bool)
    ensures
        r == drag_fits(a, b),
{
    let dx: i64 = b.x as i64 - a.x as i64;
    let dy: i64 = b.y as i64 - a.y as i64;
    -0x1000_0000 <= dx && dx <= 0x0fff_ffff && -0x1000_0000 <= dy && dy <= 0x0fff_ffff
}

fn step(a: i32, d: i32, i: i32) -> (v: i32)
    requires
        1 <= i <= 8,
        fits(d * 8),
        fits(a + d),
    ensures
        v == a + tdiv8(d * i),
{
    assert(-0x1_0000_0000 <= d * i <= 0x1_0000_0000) by (nonlinear_arith)
        requires
            fits(d * 8),
            1 <= i <= 8,
    ;
    let m: i64 = d as i64 * i as i64;
    assert(d >= 0 ==> 0 <= (d * i) / 8 <= d) by (nonlinear_arith)
        requires
            1 <= i <= 8,
    ;
    assert(d < 0 ==> 0 <= (-(d * i)) / 8 <= -d) by (nonlinear_arith)
        requires
            1 <= i <= 8,
    ;
    let q: i64 = if m >= 0 {
        m / 8
    } else {
        -((-m) / 8)
    };
    (a as i64 + q) as i32
}

/// The eight points that a drag from `a` to `b` passes, the last one `b`.
pub fn drag_points(a: Pt, b: Pt) -> (r: Vec<Pt>)
    requires
        drag_fits(a, b),
    ensures
        r@.len() == 8,
        forall|i: int| 0 <= i < 8 ==> #[trigger] r@[i] == drag_pt(a, b, i + 1),
        forall|i: int|
            0 <= i < 8 ==> (#[trigger] r@[i]).x == a.x + tdiv8((b.x - a.x) * (i + 1)) && r@[i].y == a.y
                + tdiv8((b.y - a.y) * (i + 1)),
{
    let dx: i32 = b.x - a.x;
    let dy: i32 = b.y - a.y;
    let mut r: Vec<Pt> = Vec::new();
    let mut i: i32 = 1;
    while i <= 8
        invariant
            1 <= i <= 9,
            r@.len() == i - 1,
            dx == b.x - a.x,
            dy == b.y - a.y,
            drag_fits(a, b),
            forall|j: int|
                0 <= j < r@.len() ==> (#[trigger] r@[j]).x == a.x + tdiv8((b.x - a.x) * (j + 1)) && r@[j].y
                    == a.y + tdiv8((b.y - a.y) * (j + 1)),
        decreases 9 - i,
    {
        let x = step(a.x, dx, i);
        let y = step(a.y, dy, i);
        r.push(pt(x, y));
        i += 1;
    }
    r
}

/// A press at `a`, then the eight steps to `b`; the button stays down.
pub open spec fn drag_spec(a: Pt, b: Pt, mods: Mods) -> Seq<ScriptEv> {
    seq![ScriptEv::MouseMove(a), ScriptEv::MouseDown(a, Button::Left, mods)] + Seq::new(
        8,
        |i: int| ScriptEv::MouseMove(drag_pt(a, b, i + 1)),
    )
}

pub fn drag_events(a: Pt, b: Pt, mods: Mods) -> (r: Vec<ScriptEv>)
    requires
        drag_fits(a, b),
    ensures
        r@ == drag_spec(a, b, mods),
{
    let ps = drag_points(a, b);
    let mut r: Vec<ScriptEv> = vec![ScriptEv::MouseMove(a), ScriptEv::MouseDown(a, Button::Left, mods)];
    let mut i: usize = 0;
    while i < 8
        invariant
            i <= 8,
            ps@.len() == 8,
            forall|j: int| 0 <= j < 8 ==> #[trigger] ps@[j] == drag_pt(a, b, j + 1),
            r@ == seq![ScriptEv::MouseMove(a), ScriptEv::MouseDown(a, Button::Left, mods)] + Seq::new(
                i as nat,
                |j: int| ScriptEv::MouseMove(drag_pt(a, b, j + 1)),
            ),
        decreases 8 - i,
    {
        r.push(ScriptEv::MouseMove(ps[i]));
        i += 1;
        assert(r@ =~= seq![ScriptEv::MouseMove(a), ScriptEv::MouseDown(a, Button::Left, mods)] + Seq::new(
            i as nat,
            |j: int| ScriptEv::MouseMove(drag_pt(a, b, j + 1)),
        ));
    }
    r
}

/// A command can be played without an `i32` overflowing: a drag's steps stay in range.
pub open spec fn playable(c: Cmd) -> bool {
    c matches Cmd::Drag(ax, ay, bx, by) ==> drag_fits(Pt { x: ax, y: ay }, Pt { x: bx, y: by })
}

/// The events that command `c` hands the Workspace with the pointer at `cursor` and modifier
/// keys `mods`, and the pointer and modifiers after it. A click moves, presses and lets go; a
/// double click presses and lets go twice where it is; a drag ends with the button still down.
pub open spec fn script_events_spec(c: Cmd, cursor: Pt, mods: Mods) -> (Seq<ScriptEv>, Pt, Mods) {
    match c {
        Cmd::Move(x, y) => (seq![ScriptEv::MouseMove(Pt { x, y })], Pt { x, y }, mods),
        Cmd::Down => (seq![ScriptEv::MouseDown(cursor, Button::Left, mods)], cursor, mods),
        Cmd::Up | Cmd::Drop => (seq![ScriptEv::MouseUp(cursor, Button::Left, mods)], cursor, mods),
        Cmd::Click(x, y) | Cmd::RClick(x, y) => {
            let p = Pt { x, y };
            let b = if c is RClick { Button::Right } else { Button::Left };
            (seq![ScriptEv::MouseMove(p), ScriptEv::MouseDown(p, b, mods), ScriptEv::MouseUp(p, b, mods)], p, mods)
        },
        Cmd::DblClick(x, y) => {
            let p = Pt { x, y };
            let d = ScriptEv::MouseDown(p, Button::Left, mods);
            let u = ScriptEv::MouseUp(p, Button::Left, mods);
            (seq![d, u, d, u], p, mods)
        },
        Cmd::Drag(ax, ay, bx, by) => {
            let (a, b) = (Pt { x: ax, y: ay }, Pt { x: bx, y: by });
            (drag_spec(a, b, mods), b, mods)
        },
        Cmd::SetMods(m) => (seq![], cursor, m),
        Cmd::Key(k) => (seq![ScriptEv::Key(k, mods)], cursor, mods),
        Cmd::Type(t) => (typed_spec(t, mods), cursor, mods),
        Cmd::Wheel(x, y) => (seq![ScriptEv::Wheel(cursor, x, y)], cursor, mods),
        _ => (seq![], cursor, mods),
    }
}

fn char_key(c: char, mods: Mods) -> (e: ScriptEv)
    ensures
        e == ScriptEv::Key(Key::Char(c), mods),
{
    ScriptEv::Key(Key::Char(c), mods)
}

/// The key presses that typing `t` makes, one a character.
pub open spec fn typed_spec(t: Seq<char>, mods: Mods) -> Seq<ScriptEv>
    decreases t.len(),
{
    if t.len() == 0 {
        seq![]
    } else {
        typed_spec(t.drop_last(), mods).push(ScriptEv::Key(Key::Char(t.last()), mods))
    }
}

fn typed(t: &str, mods: Mods) -> (out: Vec<ScriptEv>)
    ensures
        out@ == typed_spec(t@, mods),
{
    let cs = chars_of(t);
    let mut evs: Vec<ScriptEv> = Vec::new();
    let mut i: usize = 0;
    assert(cs@.take(0) =~= Seq::<char>::empty());
    while i < cs.len()
        invariant
            i <= cs@.len(),
            evs@ == typed_spec(cs@.take(i as int), mods),
        decreases cs@.len() - i,
    {
        assert(cs@.take(i + 1).drop_last() =~= cs@.take(i as int));
        assert(cs@.take(i + 1).last() == cs@[i as int]);
        evs.push(char_key(cs[i], mods));
        i += 1;
    }
    assert(cs@.take(cs@.len() as int) =~= cs@);
    evs
}

pub fn script_events(cmd: &ScriptCmd, cursor: Pt, mods: Mods) -> (r: (Vec<ScriptEv>, Pt, Mods))
    requires
        playable(cmd@),
    ensures
        (r.0@, r.1, r.2) == script_events_spec(cmd@, cursor, mods),
{
    match cmd {
        ScriptCmd::Move(x, y) => {
            let p = pt(*x, *y);
            (vec![ScriptEv::MouseMove(p)], p, mods)
        },
        ScriptCmd::Down => (vec![ScriptEv::MouseDown(cursor, Button::Left, mods)], cursor, mods),
        ScriptCmd::Up | ScriptCmd::Drop => (vec![ScriptEv::MouseUp(cursor, Button::Left, mods)], cursor, mods),
        ScriptCmd::Click(x, y) => {
            let p = pt(*x, *y);
            (
                vec![
                    ScriptEv::MouseMove(p),
                    ScriptEv::MouseDown(p, Button::Left, mods),
                    ScriptEv::MouseUp(p, Button::Left, mods),
                ],
                p,
                mods,
            )
        },
        ScriptCmd::RClick(x, y) => {
            let p = pt(*x, *y);
            (
                vec![
                    ScriptEv::MouseMove(p),
                    ScriptEv::MouseDown(p, Button::Right, mods),
                    ScriptEv::MouseUp(p, Button::Right, mods),
                ],
                p,
                mods,
            )
        },
        ScriptCmd::DblClick(x, y) => {
            let p = pt(*x, *y);
            let d = ScriptEv::MouseDown(p, Button::Left, mods);
            let u = ScriptEv::MouseUp(p, Button::Left, mods);
            (vec![d, u, d, u], p, mods)
        },
        ScriptCmd::Drag(ax, ay, bx, by) => {
            let a = pt(*ax, *ay);
            let b = pt(*bx, *by);
            (drag_events(a, b, mods), b, mods)
        },
        ScriptCmd::SetMods(m) => (Vec::new(), cursor, *m),
        ScriptCmd::Key(k) => (vec![ScriptEv::Key(*k, mods)], cursor, mods),
        ScriptCmd::Type(t) => (typed(t.as_str(), mods), cursor, mods),
        ScriptCmd::Wheel(x, y) => (vec![ScriptEv::Wheel(cursor, *x, *y)], cursor, mods),
        _ => (Vec::new(), cursor, mods),
    }
}

/// Where `dragcell` aims: a little inside the top left corner of the cell's rectangle
/// `x y w h`, or nowhere when the rectangle is not four numbers.
pub fn cell_target(c: &Vec<i32>) -> (t: Vec<i32>)
    requires
        c@.len() == 4 ==> fits(c@[0] + 40) && fits(c@[1] + 8),
    ensures
        c@.len() == 4 ==> t@ == seq![(c@[0] + 40) as i32, (c@[1] + 8) as i32],
        c@.len() != 4 ==> t@.len() == 0,
{
    if c.len() == 4 {
        vec![c[0] + 40, c[1] + 8]
    } else {
        Vec::new()
    }
}

/// The drag that `dragsel` and `dragcell` make: from a little inside the selection's rectangle
/// `r` (`x y w h`) to the point `t`; nothing when `r` is not four numbers or `t` not two.
pub open spec fn sel_drag_spec(r: Seq<i32>, t: Seq<i32>, mods: Mods) -> Option<(Seq<ScriptEv>, Pt)> {
    if r.len() == 4 && t.len() == 2 {
        let a = Pt { x: (r[0] + 40) as i32, y: (r[1] + 8) as i32 };
        let b = Pt { x: t[0], y: t[1] };
        Some((drag_spec(a, b, mods), b))
    } else {
        None
    }
}

pub open spec fn sel_drag_fits(r: Seq<i32>, t: Seq<i32>) -> bool {
    r.len() == 4 && t.len() == 2 ==> fits(r[0] + 40) && fits(r[1] + 8) && drag_fits(
        Pt { x: (r[0] + 40) as i32, y: (r[1] + 8) as i32 },
        Pt { x: t[0], y: t[1] },
    )
}

pub fn sel_drag(r: &Vec<i32>, t: &Vec<i32>, mods: Mods) -> (out: Option<(Vec<ScriptEv>, Pt)>)
    requires
        sel_drag_fits(r@, t@),
    ensures
        out matches Some(o) ==> sel_drag_spec(r@, t@, mods) == Some((o.0@, o.1)),
        out is None <==> sel_drag_spec(r@, t@, mods) is None,
{
    if r.len() == 4 && t.len() == 2 {
        let a = pt(r[0] + 40, r[1] + 8);
        let b = pt(t[0], t[1]);
        Some((drag_events(a, b, mods), b))
    } else {
        None
    }
}

} // verus!
