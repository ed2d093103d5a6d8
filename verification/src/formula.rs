//! Improv's formulas, up to the figures: the words of a formula ("Revenue = Units * Price"), the
//! item a formula writes to, the functions it may call, and which names stand for an item or a
//! whole category. Evaluating over the figures is left to the caller.
use vstd::prelude::*;
use crate::improv::{lines, n_items, Cat, MAX_CELLS, MAX_ITEMS};
use crate::librarian::{is_ws, trim, trim_spec, ws};
use crate::text::{chars_of, string_of};

verus! {

/// `char::is_alphabetic`: Unicode's Alphabetic property; the result is named by the character.
pub uninterp spec fn alphabetic(c: char) -> bool;

/// `char::is_alphanumeric`: Alphabetic or Numeric; the result is named by the character.
pub uninterp spec fn alphanumeric(c: char) -> bool;

/// `char::is_alphabetic`.
#[verifier::external_body]
fn is_alphabetic(c: char) -> (b: bool)
    ensures
        b == alphabetic(c),
{
    c.is_alphabetic()
}

/// `char::is_alphanumeric`.
#[verifier::external_body]
fn is_alphanumeric(c: char) -> (b: bool)
    ensures
        b == alphanumeric(c),
{
    c.is_alphanumeric()
}

/// A word of a formula: a number as written, a name, or an operator. `<=`, `>=` and `<>` come as
/// the single characters `≤`, `≥` and `≠`.
#[derive(Clone, Debug, PartialEq)]
pub enum Tok {
    Num(String),
    Name(String),
    Op(char),
}

/// A word as the specification sees it.
pub enum Word {
    Num(Seq<char>),
    Name(Seq<char>),
    Op(char),
}

pub open spec fn word_of(t: Tok) -> Word {
    match t {
        Tok::Num(s) => Word::Num(s@),
        Tok::Name(s) => Word::Name(s@),
        Tok::Op(c) => Word::Op(c),
    }
}

pub open spec fn words_of(ts: Seq<Tok>) -> Seq<Word> {
    ts.map_values(|t: Tok| word_of(t))
}

pub open spec fn digit(c: char) -> bool {
    '0' <= c <= '9'
}

pub open spec fn num_char(c: char) -> bool {
    digit(c) || c == '.'
}

pub open spec fn name_char(c: char) -> bool {
    alphanumeric(c) || c == '_'
}

/// Where the run of number characters from `i` ends.
pub open spec fn num_end(s: Seq<char>, i: int) -> int
    decreases s.len() - i,
{
    if 0 <= i < s.len() && num_char(s[i]) {
        num_end(s, i + 1)
    } else {
        i
    }
}

/// Where the run of name characters from `i` ends.
pub open spec fn name_end(s: Seq<char>, i: int) -> int
    decreases s.len() - i,
{
    if 0 <= i < s.len() && name_char(s[i]) {
        name_end(s, i + 1)
    } else {
        i
    }
}

pub open spec fn dots(t: Seq<char>) -> int
    decreases t.len(),
{
    if t.len() == 0 {
        0
    } else {
        dots(t.drop_last()) + if t.last() == '.' { 1int } else { 0int }
    }
}

/// Which runs of digits and points `f64` reads: at most one point, and at least one digit.
pub open spec fn valid_number(t: Seq<char>) -> bool {
    dots(t) <= 1 && dots(t) < t.len()
}

/// The operator `<`, `>` or `=` at `i` makes, with the character after it.
pub open spec fn cmp_op(s: Seq<char>, i: int) -> (char, int) {
    let next = if i + 1 < s.len() { s[i + 1] } else { ' ' };
    if s[i] == '<' && next == '=' {
        ('≤', 2)
    } else if s[i] == '>' && next == '=' {
        ('≥', 2)
    } else if s[i] == '<' && next == '>' {
        ('≠', 2)
    } else {
        (s[i], 1)
    }
}

pub open spec fn quoted(pre: Seq<char>, t: Seq<char>) -> Seq<char> {
    pre + "“"@ + t + "”"@
}

pub open spec fn prepend(w: Word, r: Result<Seq<Word>, Seq<char>>) -> Result<Seq<Word>, Seq<char>> {
    match r {
        Ok(ws) => Ok(seq![w] + ws),
        Err(e) => Err(e),
    }
}

pub proof fn lemma_run_ends(s: Seq<char>, i: int)
    requires
        0 <= i,
    ensures
        i <= num_end(s, i),
        i <= name_end(s, i),
        i < s.len() ==> num_end(s, i) <= s.len() && name_end(s, i) <= s.len(),
    decreases s.len() - i,
{
    if 0 <= i < s.len() {
        lemma_run_ends(s, i + 1);
    }
}

/// The words of `s` from `i` on, or the message for the first character or number that is not
/// one.
pub open spec fn lex_from(s: Seq<char>, i: int) -> Result<Seq<Word>, Seq<char>>
    decreases s.len() - i,
{
    if i < 0 || i >= s.len() {
        Ok(seq![])
    } else {
        let c = s[i];
        if ws(c) {
            lex_from(s, i + 1)
        } else if num_char(c) {
            let e = num_end(s, i + 1);
            proof {
                lemma_run_ends(s, i + 1);
            }
            let t = s.subrange(i, e);
            if valid_number(t) {
                prepend(Word::Num(t), lex_from(s, e))
            } else {
                Err(quoted("bad number "@, t))
            }
        } else if alphabetic(c) || c == '_' {
            let e = name_end(s, i + 1);
            proof {
                lemma_run_ends(s, i + 1);
            }
            prepend(Word::Name(s.subrange(i, e)), lex_from(s, e))
        } else if c == '<' || c == '>' || c == '=' {
            prepend(Word::Op(cmp_op(s, i).0), lex_from(s, i + cmp_op(s, i).1))
        } else if c == '+' || c == '-' || c == '*' || c == '/' || c == '(' || c == ')' || c == ',' {
            prepend(Word::Op(c), lex_from(s, i + 1))
        } else {
            Err(quoted("unexpected "@, seq![c]))
        }
    }
}

fn is_digit(c: char) -> (b: bool)
    ensures
        b == digit(c),
{
    '0' <= c && c <= '9'
}

fn quote(pre: &str, t: &[char]) -> (m: String)
    ensures
        m@ == quoted(pre@, t@),
{
    let mut m = string_of(&chars_of(pre));
    crate::text::push_str(&mut m, "“");
    let tt = string_of(t);
    crate::text::push_str(&mut m, tt.as_str());
    crate::text::push_str(&mut m, "”");
    m
}

/// Whether a run of digits and points is a number: at most one point, and a digit.
fn number_ok(t: &[char]) -> (b: bool)
    ensures
        b == valid_number(t@),
{
    let mut d: usize = 0;
    let mut i: usize = 0;
    while i < t.len()
        invariant
            i <= t@.len(),
            d == dots(t@.take(i as int)),
            d <= i,
        decreases t@.len() - i,
    {
        assert(t@.take(i + 1).drop_last() =~= t@.take(i as int));
        if t[i] == '.' {
            d += 1;
        }
        i += 1;
    }
    assert(t@.take(t@.len() as int) =~= t@);
    d <= 1 && d < t.len()
}

/// The words of a formula's right-hand side, or what is wrong with the first thing that is not
/// a word: a character no word has, or digits and points that do not read as a number.
pub fn lex(s: &str) -> (r: Result<Vec<Tok>, String>)
    ensures
        match (r, lex_from(s@, 0)) {
            (Ok(ts), Ok(ws)) => words_of(ts@) == ws,
            (Err(e), Err(m)) => e@ == m,
            _ => false,
        },
{
    let ch = chars_of(s);
    let mut out: Vec<Tok> = Vec::new();
    let mut i: usize = 0;
    while i < ch.len()
        invariant
            i <= ch@.len(),
            ch@ == s@,
            lex_from(s@, 0) == (match lex_from(s@, i as int) {
                Ok(rest) => Ok(words_of(out@) + rest),
                Err(e) => Err(e),
            }),
        decreases ch@.len() - i,
    {
        let c = ch[i];
        let ghost before = out@;
        if is_ws(c) {
            i += 1;
        } else if is_digit(c) || c == '.' {
            let st = i;
            i += 1;
            while i < ch.len() && (is_digit(ch[i]) || ch[i] == '.')
                invariant
                    st < i <= ch@.len(),
                    num_end(s@, st + 1) == num_end(s@, i as int),
                    ch@ == s@,
                decreases ch@.len() - i,
            {
                i += 1;
            }
            let t = crate::text::slice_vec(&ch, st, i);
            if !number_ok(&t) {
                return Err(quote("bad number ", &t));
            }
            out.push(Tok::Num(string_of(&t)));
            proof {
                assert(words_of(out@) =~= words_of(before).push(Word::Num(t@)));
                assert(words_of(before) + (seq![Word::Num(t@)] + match lex_from(s@, i as int) { Ok(r) => r, Err(_) => seq![] }) =~= words_of(out@) + match lex_from(s@, i as int) { Ok(r) => r, Err(_) => seq![] });
            }
        } else if is_alphabetic(c) || c == '_' {
            let st = i;
            i += 1;
            while i < ch.len() && (is_alphanumeric(ch[i]) || ch[i] == '_')
                invariant
                    st < i <= ch@.len(),
                    name_end(s@, st + 1) == name_end(s@, i as int),
                    ch@ == s@,
                decreases ch@.len() - i,
            {
                i += 1;
            }
            let t = crate::text::slice_vec(&ch, st, i);
            out.push(Tok::Name(string_of(&t)));
            proof {
                assert(words_of(out@) =~= words_of(before).push(Word::Name(t@)));
                assert(words_of(before) + (seq![Word::Name(t@)] + match lex_from(s@, i as int) { Ok(r) => r, Err(_) => seq![] }) =~= words_of(out@) + match lex_from(s@, i as int) { Ok(r) => r, Err(_) => seq![] });
            }
        } else if c == '<' || c == '>' || c == '=' {
            let next = if i + 1 < ch.len() { ch[i + 1] } else { ' ' };
            let (op, n): (char, usize) = if c == '<' && next == '=' {
                ('≤', 2)
            } else if c == '>' && next == '=' {
                ('≥', 2)
            } else if c == '<' && next == '>' {
                ('≠', 2)
            } else {
                (c, 1)
            };
            out.push(Tok::Op(op));
            i += n;
            proof {
                assert(words_of(out@) =~= words_of(before).push(Word::Op(op)));
                assert(words_of(before) + (seq![Word::Op(op)] + match lex_from(s@, i as int) { Ok(r) => r, Err(_) => seq![] }) =~= words_of(out@) + match lex_from(s@, i as int) { Ok(r) => r, Err(_) => seq![] });
            }
        } else if c == '+' || c == '-' || c == '*' || c == '/' || c == '(' || c == ')' || c == ',' {
            out.push(Tok::Op(c));
            i += 1;
            proof {
                assert(words_of(out@) =~= words_of(before).push(Word::Op(c)));
                assert(words_of(before) + (seq![Word::Op(c)] + match lex_from(s@, i as int) { Ok(r) => r, Err(_) => seq![] }) =~= words_of(out@) + match lex_from(s@, i as int) { Ok(r) => r, Err(_) => seq![] });
            }
        } else {
            return Err(quote("unexpected ", &[c]));
        }
    }
    assert(words_of(out@) + seq![] =~= words_of(out@));
    Ok(out)
}


// ---- names ----------------------------------------------------------------------------------

/// A character's code with ASCII upper case folded to lower case.
pub open spec fn fold(c: char) -> u32 {
    let u = c as u32;
    if 65 <= u <= 90 {
        (u + 32) as u32
    } else {
        u
    }
}

/// `str::eq_ignore_ascii_case`: equal once ASCII letters are folded to lower case.
pub open spec fn same_ci(a: Seq<char>, b: Seq<char>) -> bool {
    a.len() == b.len() && forall|i: int| 0 <= i < a.len() ==> #[trigger] fold(a[i]) == fold(b[i])
}

fn fold_char(c: char) -> (u: u32)
    ensures
        u == fold(c),
{
    let u = c as u32;
    if 65 <= u && u <= 90 {
        u + 32
    } else {
        u
    }
}

/// Whether `a` and `b` are the same ignoring ASCII case.
pub fn eq_ci(a: &[char], b: &[char]) -> (r: bool)
    ensures
        r == same_ci(a@, b@),
{
    if a.len() != b.len() {
        return false;
    }
    let mut i: usize = 0;
    while i < a.len()
        invariant
            i <= a@.len(),
            a@.len() == b@.len(),
            forall|j: int| 0 <= j < i ==> #[trigger] fold(a@[j]) == fold(b@[j]),
        decreases a@.len() - i,
    {
        if fold_char(a[i]) != fold_char(b[i]) {
            return false;
        }
        i += 1;
    }
    true
}

/// The first item of `items`, from `i` on, named `name` (ignoring ASCII case).
pub open spec fn item_from(items: Seq<String>, name: Seq<char>, i: int) -> Option<int>
    decreases items.len() - i,
{
    if i < 0 || i >= items.len() {
        None
    } else if same_ci(items[i]@, name) {
        Some(i)
    } else {
        item_from(items, name, i + 1)
    }
}

/// The first category, from `c` on, with an item named `name`, and that item.
pub open spec fn find_item_from(cats: Seq<Cat>, name: Seq<char>, c: int) -> Option<(int, int)>
    decreases cats.len() - c,
{
    if c < 0 || c >= cats.len() {
        None
    } else {
        match item_from(cats[c].items@, name, 0) {
            Some(i) => Some((c, i)),
            None => find_item_from(cats, name, c + 1),
        }
    }
}

/// The first category, from `c` on, named `name`.
pub open spec fn find_cat_from(cats: Seq<Cat>, name: Seq<char>, c: int) -> Option<int>
    decreases cats.len() - c,
{
    if c < 0 || c >= cats.len() {
        None
    } else if same_ci(cats[c].name@, name) {
        Some(c)
    } else {
        find_cat_from(cats, name, c + 1)
    }
}

proof fn lemma_item_from(items: Seq<String>, name: Seq<char>, i: int)
    requires
        0 <= i,
    ensures
        item_from(items, name, i) matches Some(k) ==> i <= k < items.len(),
    decreases items.len() - i,
{
    if i < items.len() && !same_ci(items[i]@, name) {
        lemma_item_from(items, name, i + 1);
    }
}

proof fn lemma_find_item_from(cats: Seq<Cat>, name: Seq<char>, c: int)
    requires
        0 <= c,
    ensures
        find_item_from(cats, name, c) matches Some((k, i)) ==> c <= k < cats.len() && 0 <= i < cats[k].items@.len(),
    decreases cats.len() - c,
{
    if c < cats.len() {
        lemma_item_from(cats[c].items@, name, 0);
        lemma_find_item_from(cats, name, c + 1);
    }
}

proof fn lemma_item_from_is_first(items: Seq<String>, name: Seq<char>, i: int)
    requires
        0 <= i,
    ensures
        match item_from(items, name, i) {
            Some(k) => i <= k < items.len() && same_ci(items[k]@, name) && forall|j: int| i <= j < k ==> !same_ci(#[trigger] items[j]@, name),
            None => forall|j: int| i <= j < items.len() ==> !same_ci(#[trigger] items[j]@, name),
        },
    decreases items.len() - i,
{
    if i < items.len() && !same_ci(items[i]@, name) {
        lemma_item_from_is_first(items, name, i + 1);
    }
}

/// A name resolves to the first item that bears it, ignoring ASCII case, in the first category
/// that has one; it resolves to nothing when no item bears it. A category name resolves to the
/// first category that bears it.
pub proof fn law_names_resolve_to_their_bearers(cats: Seq<Cat>, name: Seq<char>, c: int)
    requires
        0 <= c,
    ensures
        match find_item_from(cats, name, c) {
            Some((k, i)) => c <= k < cats.len() && 0 <= i < cats[k].items@.len() && same_ci(cats[k].items@[i]@, name)
                && (forall|j: int| 0 <= j < i ==> !same_ci(#[trigger] cats[k].items@[j]@, name))
                && (forall|d: int, j: int| c <= d < k && 0 <= j < cats[d].items@.len() ==> !same_ci(#[trigger] cats[d].items@[j]@, name)),
            None => forall|d: int, j: int| c <= d < cats.len() && 0 <= j < cats[d].items@.len() ==> !same_ci(#[trigger] cats[d].items@[j]@, name),
        },
        match find_cat_from(cats, name, c) {
            Some(k) => c <= k < cats.len() && same_ci(cats[k].name@, name)
                && forall|d: int| c <= d < k ==> !same_ci(#[trigger] cats[d].name@, name),
            None => forall|d: int| c <= d < cats.len() ==> !same_ci(#[trigger] cats[d].name@, name),
        },
    decreases cats.len() - c,
{
    if c < cats.len() {
        lemma_item_from_is_first(cats[c].items@, name, 0);
        law_names_resolve_to_their_bearers(cats, name, c + 1);
    }
}

/// The item named `name` (ignoring ASCII case): its category and its place there. The first
/// category with such an item wins.
pub fn find_item(cats: &[Cat], name: &[char]) -> (r: Option<(usize, usize)>)
    ensures
        match r {
            Some((c, i)) => find_item_from(cats@, name@, 0) == Some((c as int, i as int)) && c < cats@.len() && i < cats@[c as int].items@.len(),
            None => find_item_from(cats@, name@, 0) is None,
        },
{
    let mut c: usize = 0;
    while c < cats.len()
        invariant
            c <= cats@.len(),
            find_item_from(cats@, name@, 0) == find_item_from(cats@, name@, c as int),
        decreases cats@.len() - c,
    {
        let items = &cats[c].items;
        let mut i: usize = 0;
        while i < items.len()
            invariant
                i <= items@.len(),
                c < cats@.len(),
                items@ == cats@[c as int].items@,
                item_from(items@, name@, 0) == item_from(items@, name@, i as int),
                find_item_from(cats@, name@, 0) == find_item_from(cats@, name@, c as int),
            decreases items@.len() - i,
        {
            let v = chars_of(items[i].as_str());
            if eq_ci(&v, name) {
                return Some((c, i));
            }
            i += 1;
        }
        c += 1;
    }
    None
}

/// The category named `name` (ignoring ASCII case).
pub fn find_cat(cats: &[Cat], name: &[char]) -> (r: Option<usize>)
    ensures
        match r {
            Some(c) => find_cat_from(cats@, name@, 0) == Some(c as int) && c < cats@.len(),
            None => find_cat_from(cats@, name@, 0) is None,
        },
{
    let mut c: usize = 0;
    while c < cats.len()
        invariant
            c <= cats@.len(),
            find_cat_from(cats@, name@, 0) == find_cat_from(cats@, name@, c as int),
        decreases cats@.len() - c,
    {
        let v = chars_of(cats[c].name.as_str());
        if eq_ci(&v, name) {
            return Some(c);
        }
        c += 1;
    }
    None
}

// ---- a formula ------------------------------------------------------------------------------

/// The position of the first `=` in `s`, from `i` on.
pub open spec fn first_eq(s: Seq<char>, i: int) -> Option<int>
    decreases s.len() - i,
{
    if i < 0 || i >= s.len() {
        None
    } else if s[i] == '=' {
        Some(i)
    } else {
        first_eq(s, i + 1)
    }
}

proof fn lemma_first_eq(s: Seq<char>, i: int)
    requires
        0 <= i,
    ensures
        first_eq(s, i) matches Some(k) ==> i <= k < s.len(),
    decreases s.len() - i,
{
    if i < s.len() && s[i] != '=' {
        lemma_first_eq(s, i + 1);
    }
}

/// What a formula `Item = expression` comes to: the item it writes to (category, item) and the
/// words of the expression; or what is wrong with it.
pub open spec fn formula_spec(cats: Seq<Cat>, s: Seq<char>) -> Result<((int, int), Seq<Word>), Seq<char>> {
    match first_eq(s, 0) {
        None => Err("expected “Item = expression”"@),
        Some(k) => {
            let name = trim_spec(s.subrange(0, k));
            match find_item_from(cats, name, 0) {
                None => Err(quoted("no item named "@, name)),
                Some(target) => match lex_from(s.subrange(k + 1, s.len() as int), 0) {
                    Err(e) => Err(e),
                    Ok(ws) => if ws.len() == 0 {
                        Err("the expression is empty"@)
                    } else {
                        Ok((target, ws))
                    },
                },
            }
        },
    }
}

/// Reads a formula `Item = expression`: the item it writes to, named on the left, and the words
/// on the right.
pub fn parse_formula(cats: &[Cat], text: &str) -> (r: Result<((usize, usize), Vec<Tok>), String>)
    ensures
        match (r, formula_spec(cats@, text@)) {
            (Ok((t, ts)), Ok((st, sw))) => t.0 == st.0 && t.1 == st.1 && words_of(ts@) == sw,
            (Err(e), Err(m)) => e@ == m,
            _ => false,
        },
{
    let ch = chars_of(text);
    proof {
        lemma_first_eq(ch@, 0);
    }
    let mut k: usize = 0;
    while k < ch.len() && ch[k] != '='
        invariant
            k <= ch@.len(),
            ch@ == text@,
            first_eq(ch@, 0) == first_eq(ch@, k as int),
        decreases ch@.len() - k,
    {
        k += 1;
    }
    if k == ch.len() {
        return Err(string_of(&chars_of("expected “Item = expression”")));
    }
    let lhs = crate::text::slice_vec(&ch, 0, k);
    let name = trim(&lhs);
    let target = match find_item(cats, &name) {
        None => return Err(quote("no item named ", &name)),
        Some(t) => t,
    };
    let rhs = string_of(&crate::text::slice_vec(&ch, k + 1, ch.len()));
    let toks = match lex(rhs.as_str()) {
        Err(e) => return Err(e),
        Ok(t) => t,
    };
    if toks.len() == 0 {
        return Err(string_of(&chars_of("the expression is empty")));
    }
    Ok((target, toks))
}

// ---- functions ------------------------------------------------------------------------------

/// The functions a formula may call. `Sum` is also `Total`; `Avg` also `Average` and `Mean`.
#[derive(Clone, Copy, PartialEq, Eq, Debug, Structural)]
pub enum Func {
    Sum,
    Count,
    Avg,
    Min,
    Max,
    Abs,
    Int,
    Sqrt,
    Round,
    If,
}

pub open spec fn func_spec(n: Seq<char>) -> Option<Func> {
    if same_ci(n, "sum"@) || same_ci(n, "total"@) {
        Some(Func::Sum)
    } else if same_ci(n, "count"@) {
        Some(Func::Count)
    } else if same_ci(n, "avg"@) || same_ci(n, "average"@) || same_ci(n, "mean"@) {
        Some(Func::Avg)
    } else if same_ci(n, "min"@) {
        Some(Func::Min)
    } else if same_ci(n, "max"@) {
        Some(Func::Max)
    } else if same_ci(n, "abs"@) {
        Some(Func::Abs)
    } else if same_ci(n, "int"@) {
        Some(Func::Int)
    } else if same_ci(n, "sqrt"@) {
        Some(Func::Sqrt)
    } else if same_ci(n, "round"@) {
        Some(Func::Round)
    } else if same_ci(n, "if"@) {
        Some(Func::If)
    } else {
        None
    }
}

/// Each function is called by its own names, in any ASCII case, and by no other: Sum (also
/// Total), Count, Avg (also Average and Mean), Min, Max, Abs, Int, Sqrt, Round and If. A name that
/// is none of these calls no function.
pub proof fn law_function_names(n: Seq<char>)
    ensures
        func_spec(n) == Some(Func::Sum) <==> same_ci(n, "sum"@) || same_ci(n, "total"@),
        func_spec(n) == Some(Func::Count) <==> same_ci(n, "count"@),
        func_spec(n) == Some(Func::Avg) <==> same_ci(n, "avg"@) || same_ci(n, "average"@) || same_ci(n, "mean"@),
        func_spec(n) == Some(Func::Min) <==> same_ci(n, "min"@),
        func_spec(n) == Some(Func::Max) <==> same_ci(n, "max"@),
        func_spec(n) == Some(Func::Abs) <==> same_ci(n, "abs"@),
        func_spec(n) == Some(Func::Int) <==> same_ci(n, "int"@),
        func_spec(n) == Some(Func::Sqrt) <==> same_ci(n, "sqrt"@),
        func_spec(n) == Some(Func::Round) <==> same_ci(n, "round"@),
        func_spec(n) == Some(Func::If) <==> same_ci(n, "if"@),
{
    reveal_strlit("sum");
    reveal_strlit("total");
    reveal_strlit("count");
    reveal_strlit("avg");
    reveal_strlit("average");
    reveal_strlit("mean");
    reveal_strlit("min");
    reveal_strlit("max");
    reveal_strlit("abs");
    reveal_strlit("int");
    reveal_strlit("sqrt");
    reveal_strlit("round");
    reveal_strlit("if");
    assert forall|a: Seq<char>, b: Seq<char>| #[trigger] same_ci(n, a) && #[trigger] same_ci(n, b) implies same_ci(a, b) by {
        assert forall|i: int| 0 <= i < a.len() implies #[trigger] fold(a[i]) == fold(b[i]) by {
            assert(fold(n[i]) == fold(a[i]));
            assert(fold(n[i]) == fold(b[i]));
        }
    }
    assert(!same_ci("sum"@, "total"@));
    assert(!same_ci("sum"@, "count"@));
    assert(!same_ci("sum"@, "avg"@)) by {
        assert(fold("sum"@[0]) != fold("avg"@[0]));
    }
    assert(!same_ci("sum"@, "average"@));
    assert(!same_ci("sum"@, "mean"@));
    assert(!same_ci("sum"@, "min"@)) by {
        assert(fold("sum"@[0]) != fold("min"@[0]));
    }
    assert(!same_ci("sum"@, "max"@)) by {
        assert(fold("sum"@[0]) != fold("max"@[0]));
    }
    assert(!same_ci("sum"@, "abs"@)) by {
        assert(fold("sum"@[0]) != fold("abs"@[0]));
    }
    assert(!same_ci("sum"@, "int"@)) by {
        assert(fold("sum"@[0]) != fold("int"@[0]));
    }
    assert(!same_ci("sum"@, "sqrt"@));
    assert(!same_ci("sum"@, "round"@));
    assert(!same_ci("sum"@, "if"@));
    assert(!same_ci("total"@, "count"@)) by {
        assert(fold("total"@[0]) != fold("count"@[0]));
    }
    assert(!same_ci("total"@, "avg"@));
    assert(!same_ci("total"@, "average"@));
    assert(!same_ci("total"@, "mean"@));
    assert(!same_ci("total"@, "min"@));
    assert(!same_ci("total"@, "max"@));
    assert(!same_ci("total"@, "abs"@));
    assert(!same_ci("total"@, "int"@));
    assert(!same_ci("total"@, "sqrt"@));
    assert(!same_ci("total"@, "round"@)) by {
        assert(fold("total"@[0]) != fold("round"@[0]));
    }
    assert(!same_ci("total"@, "if"@));
    assert(!same_ci("count"@, "avg"@));
    assert(!same_ci("count"@, "average"@));
    assert(!same_ci("count"@, "mean"@));
    assert(!same_ci("count"@, "min"@));
    assert(!same_ci("count"@, "max"@));
    assert(!same_ci("count"@, "abs"@));
    assert(!same_ci("count"@, "int"@));
    assert(!same_ci("count"@, "sqrt"@));
    assert(!same_ci("count"@, "round"@)) by {
        assert(fold("count"@[0]) != fold("round"@[0]));
    }
    assert(!same_ci("count"@, "if"@));
    assert(!same_ci("avg"@, "average"@));
    assert(!same_ci("avg"@, "mean"@));
    assert(!same_ci("avg"@, "min"@)) by {
        assert(fold("avg"@[0]) != fold("min"@[0]));
    }
    assert(!same_ci("avg"@, "max"@)) by {
        assert(fold("avg"@[0]) != fold("max"@[0]));
    }
    assert(!same_ci("avg"@, "abs"@)) by {
        assert(fold("avg"@[1]) != fold("abs"@[1]));
    }
    assert(!same_ci("avg"@, "int"@)) by {
        assert(fold("avg"@[0]) != fold("int"@[0]));
    }
    assert(!same_ci("avg"@, "sqrt"@));
    assert(!same_ci("avg"@, "round"@));
    assert(!same_ci("avg"@, "if"@));
    assert(!same_ci("average"@, "mean"@));
    assert(!same_ci("average"@, "min"@));
    assert(!same_ci("average"@, "max"@));
    assert(!same_ci("average"@, "abs"@));
    assert(!same_ci("average"@, "int"@));
    assert(!same_ci("average"@, "sqrt"@));
    assert(!same_ci("average"@, "round"@));
    assert(!same_ci("average"@, "if"@));
    assert(!same_ci("mean"@, "min"@));
    assert(!same_ci("mean"@, "max"@));
    assert(!same_ci("mean"@, "abs"@));
    assert(!same_ci("mean"@, "int"@));
    assert(!same_ci("mean"@, "sqrt"@)) by {
        assert(fold("mean"@[0]) != fold("sqrt"@[0]));
    }
    assert(!same_ci("mean"@, "round"@));
    assert(!same_ci("mean"@, "if"@));
    assert(!same_ci("min"@, "max"@)) by {
        assert(fold("min"@[1]) != fold("max"@[1]));
    }
    assert(!same_ci("min"@, "abs"@)) by {
        assert(fold("min"@[0]) != fold("abs"@[0]));
    }
    assert(!same_ci("min"@, "int"@)) by {
        assert(fold("min"@[0]) != fold("int"@[0]));
    }
    assert(!same_ci("min"@, "sqrt"@));
    assert(!same_ci("min"@, "round"@));
    assert(!same_ci("min"@, "if"@));
    assert(!same_ci("max"@, "abs"@)) by {
        assert(fold("max"@[0]) != fold("abs"@[0]));
    }
    assert(!same_ci("max"@, "int"@)) by {
        assert(fold("max"@[0]) != fold("int"@[0]));
    }
    assert(!same_ci("max"@, "sqrt"@));
    assert(!same_ci("max"@, "round"@));
    assert(!same_ci("max"@, "if"@));
    assert(!same_ci("abs"@, "int"@)) by {
        assert(fold("abs"@[0]) != fold("int"@[0]));
    }
    assert(!same_ci("abs"@, "sqrt"@));
    assert(!same_ci("abs"@, "round"@));
    assert(!same_ci("abs"@, "if"@));
    assert(!same_ci("int"@, "sqrt"@));
    assert(!same_ci("int"@, "round"@));
    assert(!same_ci("int"@, "if"@));
    assert(!same_ci("sqrt"@, "round"@));
    assert(!same_ci("sqrt"@, "if"@));
    assert(!same_ci("round"@, "if"@));
}

fn named(n: &[char], s: &str) -> (b: bool)
    ensures
        b == same_ci(n@, s@),
{
    let v = chars_of(s);
    eq_ci(n, &v)
}

/// The function a name calls, ignoring ASCII case.
pub fn func_named(name: &str) -> (f: Option<Func>)
    ensures
        f == func_spec(name@),
{
    let n = chars_of(name);
    if named(&n, "sum") || named(&n, "total") {
        Some(Func::Sum)
    } else if named(&n, "count") {
        Some(Func::Count)
    } else if named(&n, "avg") || named(&n, "average") || named(&n, "mean") {
        Some(Func::Avg)
    } else if named(&n, "min") {
        Some(Func::Min)
    } else if named(&n, "max") {
        Some(Func::Max)
    } else if named(&n, "abs") {
        Some(Func::Abs)
    } else if named(&n, "int") {
        Some(Func::Int)
    } else if named(&n, "sqrt") {
        Some(Func::Sqrt)
    } else if named(&n, "round") {
        Some(Func::Round)
    } else if named(&n, "if") {
        Some(Func::If)
    } else {
        None
    }
}

// ---- a worksheet that fits ------------------------------------------------------------------

/// All the categories, in order: the axis of every cell.
pub open spec fn all_axis(n: int) -> Seq<usize> {
    Seq::new(n as nat, |i: int| i as usize)
}

/// A worksheet that can be taken as it is: some categories, each with 1 to 256 items, and no
/// more than 100 000 cells in all.
pub open spec fn sheet_fits_spec(cats: Seq<Cat>) -> bool {
    &&& cats.len() > 0
    &&& forall|c: int| 0 <= c < cats.len() ==> 1 <= #[trigger] n_items(cats, c) <= MAX_ITEMS
    &&& lines(cats, all_axis(cats.len() as int)) <= MAX_CELLS
}

proof fn lemma_lines_grow(cats: Seq<Cat>, a: int, b: int)
    requires
        cats.len() <= usize::MAX,
        0 <= a <= b <= cats.len(),
        forall|c: int| 0 <= c < cats.len() ==> 1 <= #[trigger] n_items(cats, c),
    ensures
        1 <= lines(cats, all_axis(a)) <= lines(cats, all_axis(b)),
    decreases b - a,
{
    if a < b {
        lemma_lines_grow(cats, a, b - 1);
        assert(all_axis(b).drop_last() =~= all_axis(b - 1));
        assert(all_axis(b).last() as int == b - 1);
        let p = lines(cats, all_axis(b - 1));
        let n = n_items(cats, b - 1);
        assert(p <= p * n) by (nonlinear_arith)
            requires
                1 <= p,
                1 <= n,
        ;
    } else {
        lemma_lines_one(cats, a);
    }
}

proof fn lemma_lines_one(cats: Seq<Cat>, a: int)
    requires
        cats.len() <= usize::MAX,
        0 <= a <= cats.len(),
        forall|c: int| 0 <= c < cats.len() ==> 1 <= #[trigger] n_items(cats, c),
    ensures
        1 <= lines(cats, all_axis(a)),
    decreases a,
{
    if a > 0 {
        lemma_lines_one(cats, a - 1);
        assert(all_axis(a).drop_last() =~= all_axis(a - 1));
        assert(all_axis(a).last() as int == a - 1);
        let p = lines(cats, all_axis(a - 1));
        let n = n_items(cats, a - 1);
        assert(1 <= p * n) by (nonlinear_arith)
            requires
                1 <= p,
                1 <= n,
        ;
    }
}

/// Whether a saved worksheet can be taken as it is (else the sample one is used).
pub fn sheet_fits(cats: &[Cat]) -> (b: bool)
    ensures
        b == sheet_fits_spec(cats@),
{
    if cats.len() == 0 {
        return false;
    }
    let mut c: usize = 0;
    while c < cats.len()
        invariant
            c <= cats@.len(),
            forall|j: int| 0 <= j < c ==> 1 <= #[trigger] n_items(cats@, j) <= MAX_ITEMS,
        decreases cats@.len() - c,
    {
        let n = cats[c].items.len();
        assert(n_items(cats@, c as int) == n);
        if n < 1 || n > MAX_ITEMS {
            return false;
        }
        c += 1;
    }
    let mut total: usize = 1;
    let mut c: usize = 0;
    assert(all_axis(0) =~= Seq::<usize>::empty());
    while c < cats.len()
        invariant
            c <= cats@.len(),
            forall|j: int| 0 <= j < cats@.len() ==> 1 <= #[trigger] n_items(cats@, j) <= MAX_ITEMS,
            total == lines(cats@, all_axis(c as int)),
            total <= MAX_CELLS,
        decreases cats@.len() - c,
    {
        let n = cats[c].items.len();
        assert(n_items(cats@, c as int) == n);
        assert(all_axis(c + 1).drop_last() =~= all_axis(c as int));
        assert(all_axis(c + 1).last() as int == c);
        assert(total * n <= MAX_CELLS * MAX_ITEMS) by (nonlinear_arith)
            requires
                total <= MAX_CELLS,
                n <= MAX_ITEMS,
        ;
        total = total * n;
        if total > MAX_CELLS {
            proof {
                lemma_lines_grow(cats@, c + 1, cats@.len() as int);
            }
            return false;
        }
        c += 1;
    }
    true
}

/// Whether a saved cell's coordinate still names a cell: one item per category, each in range.
pub fn coord_fits(k: &[u8], cats: &[Cat]) -> (b: bool)
    ensures
        b == (k@.len() == cats@.len() && forall|i: int| 0 <= i < k@.len() ==> (#[trigger] k@[i] as int) < n_items(cats@, i)),
{
    if k.len() != cats.len() {
        return false;
    }
    let mut i: usize = 0;
    while i < k.len()
        invariant
            i <= k@.len(),
            k@.len() == cats@.len(),
            forall|j: int| 0 <= j < i ==> (#[trigger] k@[j] as int) < n_items(cats@, j),
        decreases k@.len() - i,
    {
        if (k[i] as usize) >= cats[i].items.len() {
            return false;
        }
        i += 1;
    }
    true
}

} // verus!
