//! Digital Librarian: full-text search over the bookshelves on the Shelf. The walk over the disk
//! happens around this module; here is what it decides — which entries to open, what a document
//! that mentions the word is worth, and the order the hits are listed in.
use vstd::prelude::*;
use crate::files::{chars_le, seq_le, lemma_seq_le_total, lemma_seq_le_trans};
use crate::icons::{ext_spec, icon_of_ext, is_text_like};
use crate::text::{chars_of, lowercase, string_of, to_lower};

verus! {

pub const MAX_HITS: usize = 300;

pub const MAX_FILES: usize = 4000;

/// How much of a document is read.
pub const MAX_BYTES: usize = 1048576;

/// The longest line shown under a hit.
pub const LINE_CHARS: usize = 160;

#[derive(Debug)]
pub struct Hit {
    pub path: String,
    pub name: String,
    pub count: u32,
    pub line: String,
}

// ---- white space --------------------------------------------------------------------------------

/// Unicode's White_Space property, which `char::is_whitespace` tests.
pub open spec fn ws(c: char) -> bool {
    let u = c as u32;
    (0x9 <= u <= 0xd) || u == 0x20 || u == 0x85 || u == 0xa0 || u == 0x1680 || (0x2000 <= u <= 0x200a)
        || u == 0x2028 || u == 0x2029 || u == 0x202f || u == 0x205f || u == 0x3000
}

pub(crate) fn is_ws(c: char) -> (b: bool)
    ensures
        b == ws(c),
{
    let u = c as u32;
    (0x9 <= u && u <= 0xd) || u == 0x20 || u == 0x85 || u == 0xa0 || u == 0x1680 || (0x2000 <= u && u
        <= 0x200a) || u == 0x2028 || u == 0x2029 || u == 0x202f || u == 0x205f || u == 0x3000
}

pub open spec fn trim_start_spec(s: Seq<char>) -> Seq<char>
    decreases s.len(),
{
    if s.len() > 0 && ws(s[0]) {
        trim_start_spec(s.drop_first())
    } else {
        s
    }
}

pub open spec fn trim_end_spec(s: Seq<char>) -> Seq<char>
    decreases s.len(),
{
    if s.len() > 0 && ws(s.last()) {
        trim_end_spec(s.drop_last())
    } else {
        s
    }
}

/// `str::trim`: white space taken off both ends.
pub open spec fn trim_spec(s: Seq<char>) -> Seq<char> {
    trim_end_spec(trim_start_spec(s))
}

pub(crate) fn trim(v: &[char]) -> (r: Vec<char>)
    ensures
        r@ == trim_spec(v@),
{
    let mut lo: usize = 0;
    assert(v@.skip(0) =~= v@);
    while lo < v.len() && is_ws(v[lo])
        invariant
            lo <= v@.len(),
            trim_start_spec(v@) == trim_start_spec(v@.skip(lo as int)),
        decreases v@.len() - lo,
    {
        assert(v@.skip(lo as int).drop_first() =~= v@.skip(lo + 1));
        lo += 1;
    }
    let ghost t = v@.skip(lo as int);
    assert(trim_start_spec(v@) == t);
    let mut hi: usize = v.len();
    assert(t.take(t.len() as int) =~= t);
    while hi > lo && is_ws(v[hi - 1])
        invariant
            lo <= hi <= v@.len(),
            t == v@.skip(lo as int),
            trim_end_spec(t) == trim_end_spec(v@.subrange(lo as int, hi as int)),
        decreases hi,
    {
        assert(v@.subrange(lo as int, hi as int).drop_last() =~= v@.subrange(lo as int, hi - 1));
        hi -= 1;
    }
    assert(v@.subrange(lo as int, v@.len() as int) =~= t);
    crate::text::slice_vec(v, lo, hi)
}

// ---- finding the word ---------------------------------------------------------------------------

/// `needle` occurs in `h` at `i`.
pub open spec fn at(h: Seq<char>, n: Seq<char>, i: int) -> bool {
    0 <= i && i + n.len() <= h.len() && h.subrange(i, i + n.len()) == n
}

/// How many times `n` occurs in `h` without overlapping, taken from the left: what
/// `str::matches(..).count()` finds.
pub open spec fn count_spec(h: Seq<char>, n: Seq<char>) -> nat
    recommends
        n.len() > 0,
    decreases h.len(),
{
    if n.len() == 0 || h.len() < n.len() {
        0
    } else if h.take(n.len() as int) == n {
        1 + count_spec(h.skip(n.len() as int), n)
    } else {
        count_spec(h.skip(1), n)
    }
}

/// Whether `n` occurs anywhere in `h`.
pub open spec fn occurs(h: Seq<char>, n: Seq<char>) -> bool {
    exists|i: int| #[trigger] at(h, n, i)
}

fn matches_at(h: &[char], n: &[char], i: usize) -> (b: bool)
    requires
        i <= h@.len(),
    ensures
        b == at(h@, n@, i as int),
{
    if n.len() > h.len() - i {
        return false;
    }
    let mut k: usize = 0;
    while k < n.len()
        invariant
            k <= n@.len(),
            i + n@.len() <= h@.len(),
            h@.len() == h.len(),
            forall|j: int| 0 <= j < k ==> h@[i + j] == n@[j],
        decreases n@.len() - k,
    {
        if h[i + k] != n[k] {
            assert(h@.subrange(i as int, i + n@.len())[k as int] != n@[k as int]);
            return false;
        }
        k += 1;
    }
    assert(h@.subrange(i as int, i + n@.len()) =~= n@);
    true
}

fn count_matches(h: &[char], n: &[char]) -> (c: usize)
    requires
        n@.len() > 0,
    ensures
        c == count_spec(h@, n@),
{
    let mut c: usize = 0;
    let mut i: usize = 0;
    assert(h@.skip(0) =~= h@);
    while i < h.len()
        invariant
            i <= h@.len(),
            n@.len() > 0,
            c <= i,
            count_spec(h@, n@) == c + count_spec(h@.skip(i as int), n@),
        decreases h@.len() - i,
    {
        let ghost rest = h@.skip(i as int);
        if matches_at(h, n, i) {
            assert(rest.take(n@.len() as int) =~= h@.subrange(i as int, i + n@.len()));
            assert(rest.skip(n@.len() as int) =~= h@.skip(i + n@.len()));
            c += 1;
            i += n.len();
        } else {
            proof {
                if rest.len() >= n@.len() {
                    assert(rest.take(n@.len() as int) =~= h@.subrange(i as int, i + n@.len()));
                }
                assert(rest.skip(1) =~= h@.skip(i + 1));
            }
            i += 1;
        }
    }
    assert(h@.skip(i as int).len() == 0);
    c
}

fn find_in(h: &[char], n: &[char]) -> (b: bool)
    ensures
        b == occurs(h@, n@),
{
    let mut i: usize = 0;
    while i < h.len()
        invariant
            i <= h@.len(),
            forall|j: int| 0 <= j < i ==> !#[trigger] at(h@, n@, j),
        decreases h@.len() - i,
    {
        if matches_at(h, n, i) {
            return true;
        }
        i += 1;
    }
    if matches_at(h, n, i) {
        return true;
    }
    assert forall|j: int| !#[trigger] at(h@, n@, j) by {
        if j > h@.len() {
            assert(!at(h@, n@, j));
        }
    }
    false
}

// ---- lines ----------------------------------------------------------------------------------------

/// Where the first line feed of `s` is, or `-1`.
pub open spec fn nl_index(s: Seq<char>) -> int
    decreases s.len(),
{
    if s.len() == 0 {
        -1
    } else if s[0] == '\n' {
        0
    } else if nl_index(s.drop_first()) < 0 {
        -1
    } else {
        nl_index(s.drop_first()) + 1
    }
}

pub proof fn lemma_nl_index(s: Seq<char>)
    ensures
        -1 <= nl_index(s) < s.len(),
        nl_index(s) >= 0 ==> s[nl_index(s)] == '\n',
        forall|j: int| 0 <= j < s.len() && (nl_index(s) < 0 || j < nl_index(s)) ==> s[j] != '\n',
    decreases s.len(),
{
    if s.len() > 0 && s[0] != '\n' {
        lemma_nl_index(s.drop_first());
        assert forall|j: int| 0 <= j < s.len() && (nl_index(s) < 0 || j < nl_index(s)) implies s[j] != '\n' by {
            if j > 0 {
                assert(s[j] == s.drop_first()[j - 1]);
            }
        }
    }
}

/// A line that ended in `\r\n` loses its `\r`.
pub open spec fn strip_cr(l: Seq<char>) -> Seq<char> {
    if l.len() > 0 && l.last() == '\r' {
        l.drop_last()
    } else {
        l
    }
}

/// The lines of `s` as `str::lines` gives them: split at each line feed, a `\r` before it taken
/// off, and no empty line after a final line feed.
pub open spec fn lines_spec(s: Seq<char>) -> Seq<Seq<char>>
    decreases s.len(),
{
    if s.len() == 0 {
        seq![]
    } else if nl_index(s) < 0 {
        seq![s]
    } else {
        proof {
            lemma_nl_index(s);
        }
        seq![strip_cr(s.take(nl_index(s)))] + lines_spec(s.skip(nl_index(s) + 1))
    }
}

/// The first of `ls` in which `needle` occurs once it is lower-cased, or an empty line.
pub open spec fn first_match(ls: Seq<Seq<char>>, needle: Seq<char>) -> Seq<char>
    decreases ls.len(),
{
    if ls.len() == 0 {
        seq![]
    } else if occurs(lowercase(ls[0]), needle) {
        ls[0]
    } else {
        first_match(ls.drop_first(), needle)
    }
}

/// The first line of `text` that mentions `needle` (case-insensitively), or an empty line.
fn first_line_with(text: &[char], needle: &str) -> (l: Vec<char>)
    ensures
        l@ == first_match(lines_spec(text@), needle@),
{
    let nv = chars_of(needle);
    let mut i: usize = 0;
    assert(text@.skip(0) =~= text@);
    while i < text.len()
        invariant
            i <= text@.len(),
            nv@ == needle@,
            first_match(lines_spec(text@), needle@) == first_match(lines_spec(text@.skip(i as int)), needle@),
        decreases text@.len() - i,
    {
        let ghost rest = text@.skip(i as int);
        proof {
            lemma_nl_index(rest);
        }
        let mut e = i;
        while e < text.len() && text[e] != '\n'
            invariant
                i <= e <= text@.len(),
                rest == text@.skip(i as int),
                forall|j: int| i <= j < e ==> text@[j] != '\n',
            decreases text@.len() - e,
        {
            e += 1;
        }
        proof {
            if e < text@.len() {
                assert(rest[e - i] == '\n');
                assert(nl_index(rest) == e - i) by {
                    if nl_index(rest) >= 0 && nl_index(rest) < e - i {
                        assert(rest[nl_index(rest)] == text@[i + nl_index(rest)]);
                    }
                    if nl_index(rest) < 0 {
                        assert(rest[e - i] != '\n');
                    }
                }
            } else {
                assert(nl_index(rest) < 0) by {
                    if nl_index(rest) >= 0 {
                        assert(rest[nl_index(rest)] == text@[i + nl_index(rest)]);
                    }
                }
            }
        }
        let mut end = e;
        if e < text.len() && end > i && text[end - 1] == '\r' {
            end -= 1;
        }
        let line = crate::text::slice_vec(text, i, end);
        proof {
            if e < text@.len() {
                assert(line@ =~= strip_cr(rest.take(e - i)));
            } else {
                assert(line@ =~= rest);
            }
        }
        let low = to_lower(string_of(line.as_slice()).as_str());
        let lv = chars_of(low.as_str());
        if find_in(lv.as_slice(), nv.as_slice()) {
            return line;
        }
        proof {
            assert(low@ == lowercase(line@));
            if e < text@.len() {
                assert(rest.skip(e - i + 1) =~= text@.skip(e + 1));
                let ls = lines_spec(rest);
                assert(ls[0] == line@);
                assert(ls.drop_first() =~= lines_spec(text@.skip(e + 1)));
            } else {
                assert(lines_spec(rest) =~= seq![rest]);
                assert(lines_spec(rest).drop_first() =~= Seq::<Seq<char>>::empty());
                assert(text@.skip(text@.len() as int) =~= Seq::<char>::empty());
            }
        }
        i = if e < text.len() {
            e + 1
        } else {
            e
        };
    }
    assert(text@.skip(i as int) =~= Seq::<char>::empty());
    Vec::new()
}

/// What is shown of a line: trimmed, tabs made spaces, and at most 160 characters of it.
pub open spec fn shown_line(l: Seq<char>) -> Seq<char> {
    let t = trim_spec(l);
    let u = Seq::new(t.len(), |i: int| if t[i] == '\t' { ' ' } else { t[i] });
    if u.len() > LINE_CHARS { u.take(LINE_CHARS as int) } else { u }
}

fn shown(l: &[char]) -> (r: String)
    ensures
        r@ == shown_line(l@),
{
    let t = trim(l);
    let mut u: Vec<char> = Vec::new();
    let mut i: usize = 0;
    while i < t.len() && i < LINE_CHARS
        invariant
            i <= t@.len(),
            i <= LINE_CHARS,
            u@ =~= Seq::new(i as nat, |j: int| if t@[j] == '\t' { ' ' } else { t@[j] }),
        decreases t@.len() - i,
    {
        u.push(if t[i] == '\t' { ' ' } else { t[i] });
        i += 1;
    }
    string_of(u.as_slice())
}

// ---- the search ---------------------------------------------------------------------------------

/// The word searched for: the query trimmed and lower-cased; nothing when the query is blank.
pub fn needle_of(query: &str) -> (r: Option<String>)
    ensures
        r matches Some(n) ==> n@ == lowercase(trim_spec(query@)) && n@.len() > 0,
        r is None ==> lowercase(trim_spec(query@)).len() == 0,
{
    let q = chars_of(query);
    let t = trim(q.as_slice());
    let low = to_lower(string_of(t.as_slice()).as_str());
    if chars_of(low.as_str()).len() == 0 {
        None
    } else {
        Some(low)
    }
}

/// What the walk does with an entry of a bookshelf.
#[derive(Clone, Copy, PartialEq, Eq, Debug, Structural)]
pub enum Visit {
    Skip,
    Descend,
    Read,
}

/// Dot entries are passed over; folders are walked into; text-like files are read.
pub fn visit(name: &str, is_dir: bool, is_file: bool) -> (v: Visit)
    ensures
        v == (if name@.len() > 0 && name@[0] == '.' {
            Visit::Skip
        } else if is_dir {
            Visit::Descend
        } else if is_file && (icon_of_ext(ext_spec(name@)) == "file-text"@ || icon_of_ext(ext_spec(name@))
            == "file-code"@) {
            Visit::Read
        } else {
            Visit::Skip
        }),
{
    let v = chars_of(name);
    if v.len() > 0 && v[0] == '.' {
        return Visit::Skip;
    }
    if is_dir {
        return Visit::Descend;
    }
    if !is_file || !is_text_like(name) {
        return Visit::Skip;
    }
    Visit::Read
}

/// The walk stops after 4000 documents or 300 hits.
pub fn keep_going(scanned: usize, hits: usize) -> (b: bool)
    ensures
        b == (scanned < MAX_FILES && hits < MAX_HITS),
{
    scanned < MAX_FILES && hits < MAX_HITS
}

/// The hit for a document with `text` that mentions `needle` (already lower-cased): how often
/// its lower-cased text holds the word, and the first line that does. A document that does not
/// mention it is no hit.
pub fn hit_for(path: String, name: String, text: &str, needle: &str) -> (r: Option<Hit>)
    requires
        needle@.len() > 0,
    ensures
        r is None <==> (count_spec(lowercase(text@), needle@) as u32) == 0,
        r matches Some(h) ==> h.path == path && h.name == name
            && h.count == count_spec(lowercase(text@), needle@) as u32
            && h.line@ == shown_line(first_match(lines_spec(text@), needle@)),
{
    let low = to_lower(text);
    let lv = chars_of(low.as_str());
    let nv = chars_of(needle);
    let count = count_matches(lv.as_slice(), nv.as_slice()) as u32;
    if count == 0 {
        return None;
    }
    let tv = chars_of(text);
    let line = first_line_with(tv.as_slice(), needle);
    Some(Hit { path, name, count, line: shown(line.as_slice()) })
}

/// The order hits are listed in: most mentions first, then by name.
pub open spec fn hit_le(a: Hit, b: Hit) -> bool {
    a.count > b.count || (a.count == b.count && seq_le(a.name@, b.name@))
}

pub open spec fn ranked(s: Seq<Hit>) -> bool {
    forall|i: int, j: int| 0 <= i < j < s.len() ==> hit_le(#[trigger] s[i], #[trigger] s[j])
}

fn hit_before(a: &Hit, b: &Hit) -> (r: bool)
    ensures
        r == hit_le(*a, *b),
{
    if a.count != b.count {
        return a.count > b.count;
    }
    let na = chars_of(a.name.as_str());
    let nb = chars_of(b.name.as_str());
    chars_le(&na, &nb)
}

proof fn lemma_insert_ranked(before: Seq<Hit>, p: int, x: Hit)
    requires
        ranked(before),
        0 <= p <= before.len(),
        forall|q: int| 0 <= q < p ==> hit_le(#[trigger] before[q], x),
        forall|q: int| p <= q < before.len() ==> hit_le(x, #[trigger] before[q]),
    ensures
        ranked(before.insert(p, x)),
{
    let out = before.insert(p, x);
    assert forall|i: int, j: int| 0 <= i < j < out.len() implies hit_le(#[trigger] out[i], #[trigger] out[j]) by {
        let a = if i < p { before[i] } else if i == p { x } else { before[i - 1] };
        let b = if j < p { before[j] } else if j == p { x } else { before[j - 1] };
        assert(out[i] == a);
        assert(out[j] == b);
    }
}

/// Puts the hits in listing order: most mentions first, then by name.
#[verifier::spinoff_prover]
pub fn rank(v: &mut Vec<Hit>)
    ensures
        final(v)@.to_multiset() == old(v)@.to_multiset(),
        ranked(final(v)@),
{
    broadcast use vstd::seq_lib::group_to_multiset_ensures;
    broadcast use vstd::multiset::group_multiset_axioms;

    let ghost orig = v@;
    let n0 = v.len();
    let mut out: Vec<Hit> = Vec::new();
    let mut taken: usize = 0;
    while v.len() > 0
        invariant
            orig.len() == n0,
            taken + v@.len() == orig.len(),
            v@ == orig.skip(taken as int),
            out@.to_multiset() == orig.take(taken as int).to_multiset(),
            ranked(out@),
        decreases v@.len(),
    {
        let x = v.remove(0);
        assert(orig.take(taken + 1) == orig.take(taken as int).push(x));
        proof {
            orig.take(taken as int).to_multiset_ensures();
        }
        assert(v@ =~= orig.skip(taken + 1));
        let mut p = out.len();
        while p > 0 && !hit_before(&out[p - 1], &x)
            invariant
                p <= out@.len(),
                forall|q: int| p <= q < out@.len() ==> !hit_le(#[trigger] out@[q], x),
            decreases p,
        {
            p -= 1;
        }
        proof {
            assert forall|q: int| p <= q < out@.len() implies hit_le(x, #[trigger] out@[q]) by {
                lemma_seq_le_total(out@[q].name@, x.name@);
            }
            assert forall|q: int| 0 <= q < p implies hit_le(#[trigger] out@[q], x) by {
                if q < p - 1 {
                    let (a, b) = (out@[q], out@[p - 1]);
                    if a.count == b.count && b.count == x.count {
                        lemma_seq_le_trans(a.name@, b.name@, x.name@);
                    }
                }
            }
        }
        let ghost before = out@;
        out.insert(p, x);
        proof {
            lemma_insert_ranked(before, p as int, x);
            assert(out@.remove(p as int) =~= before);
            out@.to_multiset_ensures();
            assert(out@.to_multiset().remove(x) == before.to_multiset());
            assert(out@.contains(x));
            assert(out@.to_multiset() =~= before.to_multiset().insert(x));
        }
        taken += 1;
    }
    assert(orig.take(orig.len() as int) == orig);
    *v = out;
}

} // verus!
