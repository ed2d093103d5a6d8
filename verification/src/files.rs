//! File-system rules: which paths are acceptable, which are protected, how a folder is listed and
//! how new names are found. The reads and writes themselves happen around this module.
use vstd::prelude::*;
use base64::Engine;
use crate::icons::{is_sep, trim_end};
use crate::text::{chars_of, push_char, push_str, same, slice_vec, string_of, to_lower, lowercase};

verus! {

/// The host platform, which decides what an application bundle is.
#[derive(Clone, Copy, PartialEq, Eq, Debug, Structural)]
pub enum Os {
    MacOs,
    Windows,
    Other,
}

#[derive(Clone, Debug)]
pub struct Entry {
    pub name: String,
    pub path: String,
    pub is_dir: bool,
    pub is_symlink: bool,
    pub is_app: bool,
    pub size: u64,
    pub modified: i64,
    pub hidden: bool,
}

#[derive(Debug)]
pub struct Meta {
    pub created: Option<i64>,
    pub modified: i64,
    pub size: u64,
    pub mode: String,
    pub owner: Option<String>,
    pub is_dir: bool,
}

// ---- absolute paths ------------------------------------------------------------------------------

/// A path separator on a host: `/` everywhere, and `\` too on Windows.
pub open spec fn sep_on(c: char, win: bool) -> bool {
    c == '/' || (win && c == '\\')
}

pub open spec fn ascii_letter(c: char) -> bool {
    ('a' <= c && c <= 'z') || ('A' <= c && c <= 'Z')
}

/// An absolute path on the host: one starting at `/` on Unix; on Windows a drive path such as
/// `C:\…` or `C:/…`, or a network path `\\server\…`.
pub open spec fn absolute_on(p: Seq<char>, win: bool) -> bool {
    if win {
        (p.len() >= 3 && ascii_letter(p[0]) && p[1] == ':' && sep_on(p[2], true)) || (p.len() >= 3
            && p[0] == '\\' && p[1] == '\\')
    } else {
        p.len() >= 1 && p[0] == '/'
    }
}

/// The path has a `..` segment, between the host's separators or at an end.
pub open spec fn has_dotdot_on(p: Seq<char>, win: bool) -> bool {
    exists|i: int| #[trigger] dotdot_on(p, win, i)
}

/// A `..` segment starts at `i`.
pub open spec fn dotdot_on(p: Seq<char>, win: bool, i: int) -> bool {
    0 <= i && i + 2 <= p.len() && p[i] == '.' && p[i + 1] == '.' && (i == 0 || sep_on(p[i - 1], win))
        && (i + 2 == p.len() || sep_on(p[i + 2], win))
}

/// What checking `p` on a host gives: `p` back, or why it is refused.
pub open spec fn check_spec(p: Seq<char>, win: bool) -> Result<Seq<char>, Seq<char>> {
    if !absolute_on(p, win) {
        Err("not an absolute path: "@ + p)
    } else if has_dotdot_on(p, win) {
        Err("path contains '..': "@ + p)
    } else {
        Ok(p)
    }
}

pub open spec fn result_view(r: Result<String, String>) -> Result<Seq<char>, Seq<char>> {
    match r {
        Ok(s) => Ok(s@),
        Err(e) => Err(e@),
    }
}

fn is_sep_on(c: char, win: bool) -> (b: bool)
    ensures
        b == sep_on(c, win),
{
    c == '/' || (win && c == '\\')
}

fn dotdot_at(v: &[char], win: bool, i: usize) -> (b: bool)
    requires
        i + 2 <= v@.len(),
    ensures
        b == dotdot_on(v@, win, i as int),
{
    v[i] == '.' && v[i + 1] == '.' && (i == 0 || is_sep_on(v[i - 1], win)) && (i + 2 == v.len()
        || is_sep_on(v[i + 2], win))
}

/// Reject relative paths and anything with a `..` segment by the rules of a host (Windows
/// where `win`); give back the path otherwise.
pub fn check_on(path: &str, win: bool) -> (r: Result<String, String>)
    ensures
        result_view(r) == check_spec(path@, win),
{
    let v = chars_of(path);
    let abs = if win {
        (v.len() >= 3 && (('a' <= v[0] && v[0] <= 'z') || ('A' <= v[0] && v[0] <= 'Z')) && v[1] == ':'
            && is_sep_on(v[2], true)) || (v.len() >= 3 && v[0] == '\\' && v[1] == '\\')
    } else {
        v.len() >= 1 && v[0] == '/'
    };
    if !abs {
        let mut e = String::from_str("not an absolute path: ");
        push_str(&mut e, path);
        return Err(e);
    }
    if v.len() >= 2 {
        let mut i: usize = 0;
        while i < v.len() - 1
            invariant
                v@ == path@,
                absolute_on(path@, win),
                v@.len() >= 2,
                i + 1 <= v@.len(),
                forall|j: int| 0 <= j < i ==> !#[trigger] dotdot_on(v@, win, j),
            decreases v@.len() - i,
        {
            if dotdot_at(&v, win, i) {
                let mut e = String::from_str("path contains '..': ");
                push_str(&mut e, path);
                return Err(e);
            }
            i += 1;
        }
    }
    assert(!has_dotdot_on(path@, win)) by {
        if has_dotdot_on(path@, win) {
            let j = choose|j: int| #[trigger] dotdot_on(path@, win, j);
            assert(j < v@.len());
        }
    }
    Ok(String::from_str(path))
}

/// `std::path::MAIN_SEPARATOR`: the host's main path separator, `\` on Windows and `/`
/// elsewhere. Claimed: it is one of the two.
#[verifier::external_body]
fn main_separator() -> (c: char)
    ensures
        c == '/' || c == '\\',
{
    std::path::MAIN_SEPARATOR
}

/// Reject relative paths and anything with a `..` segment, by the rules of the host the
/// program runs on; give back the path otherwise.
pub fn check(path: &str) -> (r: Result<String, String>)
    ensures
        result_view(r) == check_spec(path@, false) || result_view(r) == check_spec(path@, true),
{
    check_on(path, main_separator() == '\\')
}

// ---- path components -----------------------------------------------------------------------------

/// Splits `p` at `/` into its pieces (empty ones included).
pub open spec fn pieces(p: Seq<char>) -> Seq<Seq<char>>
    decreases p.len(),
{
    if p.len() == 0 {
        seq![Seq::empty()]
    } else {
        let rest = pieces(p.drop_last());
        if p.last() == '/' {
            rest.push(Seq::empty())
        } else {
            rest.update(rest.len() - 1, rest.last().push(p.last()))
        }
    }
}

/// The pieces that name something: not empty, and not `.` except as the first piece of a relative
/// path.
pub open spec fn keep_piece(p: Seq<char>, i: int, s: Seq<char>) -> bool {
    s.len() > 0 && !(s =~= seq!['.'] && !(i == 0 && !(p.len() > 0 && p[0] == '/')))
}

pub open spec fn kept_upto(p: Seq<char>, ps: Seq<Seq<char>>, n: int) -> Seq<Seq<char>>
    decreases n,
{
    if n <= 0 {
        Seq::empty()
    } else if keep_piece(p, n - 1, ps[n - 1]) {
        kept_upto(p, ps, n - 1).push(ps[n - 1])
    } else {
        kept_upto(p, ps, n - 1)
    }
}

/// The components of a path as `std::path::Path` sees them with `/` separators: whether it has a
/// root, then its named parts.
pub open spec fn components(p: Seq<char>) -> (bool, Seq<Seq<char>>) {
    (p.len() > 0 && p[0] == '/', kept_upto(p, pieces(p), pieces(p).len() as int))
}

proof fn lemma_pieces_nonempty(p: Seq<char>)
    ensures
        pieces(p).len() >= 1,
    decreases p.len(),
{
    if p.len() > 0 {
        lemma_pieces_nonempty(p.drop_last());
    }
}

/// The pieces of `p`, split at `/`.
fn split_pieces(v: &[char]) -> (r: Vec<Vec<char>>)
    ensures
        r@.map_values(|x: Vec<char>| x@) == pieces(v@),
{
    let mut out: Vec<Vec<char>> = Vec::new();
    out.push(Vec::new());
    let mut i: usize = 0;
    assert(out@.map_values(|x: Vec<char>| x@) =~= pieces(v@.take(0)));
    while i < v.len()
        invariant
            i <= v@.len(),
            out@.map_values(|x: Vec<char>| x@) == pieces(v@.take(i as int)),
            out@.len() >= 1,
        decreases v@.len() - i,
    {
        let ghost before = out@.map_values(|x: Vec<char>| x@);
        assert(v@.take(i + 1).drop_last() == v@.take(i as int));
        assert(v@.take(i + 1).last() == v@[i as int]);
        if v[i] == '/' {
            out.push(Vec::new());
            assert(out@.map_values(|x: Vec<char>| x@) =~= before.push(Seq::empty()));
        } else {
            let n = out.len();
            let mut last = out.pop().unwrap();
            let ghost l0 = last@;
            assert(l0 == before[n - 1]);
            last.push(v[i]);
            out.push(last);
            assert(out@.map_values(|x: Vec<char>| x@) =~= before.update(n - 1, before.last().push(v@[i as int])));
        }
        i += 1;
    }
    assert(v@.take(v@.len() as int) == v@);
    out
}

/// The components of `p`, as `components` describes them.
fn component_list(v: &[char]) -> (r: (bool, Vec<Vec<char>>))
    ensures
        r.0 == components(v@).0,
        r.1@.map_values(|x: Vec<char>| x@) == components(v@).1,
{
    let rooted = v.len() > 0 && v[0] == '/';
    let ps = split_pieces(v);
    let ghost pv = pieces(v@);
    let mut out: Vec<Vec<char>> = Vec::new();
    let mut i: usize = 0;
    while i < ps.len()
        invariant
            i <= ps@.len(),
            ps@.map_values(|x: Vec<char>| x@) == pv,
            pv == pieces(v@),
            rooted == (v@.len() > 0 && v@[0] == '/'),
            out@.map_values(|x: Vec<char>| x@) == kept_upto(v@, pv, i as int),
        decreases ps@.len() - i,
    {
        let ghost before = out@.map_values(|x: Vec<char>| x@);
        assert(ps@[i as int]@ == pv[i as int]);
        let s = &ps[i];
        let dot = s.len() == 1 && s[0] == '.';
        assert(dot == (pv[i as int] =~= seq!['.']));
        let keep = s.len() > 0 && !(dot && !(i == 0 && !rooted));
        if keep {
            let c = slice_vec(s, 0, s.len());
            assert(c@ =~= pv[i as int]);
            out.push(c);
            assert(out@.map_values(|x: Vec<char>| x@) =~= before.push(pv[i as int]));
        }
        i += 1;
    }
    (rooted, out)
}

fn chars_eq(x: &Vec<char>, y: &Vec<char>) -> (r: bool)
    ensures
        r == (x@ == y@),
{
    if x.len() != y.len() {
        return false;
    }
    let mut k: usize = 0;
    while k < x.len()
        invariant
            k <= x@.len(),
            x@.len() == y@.len(),
            forall|j: int| 0 <= j < k ==> x@[j] == y@[j],
        decreases x@.len() - k,
    {
        if x[k] != y[k] {
            return false;
        }
        k += 1;
    }
    assert(x@ =~= y@);
    true
}

/// Whether two paths name the same place component by component, as `Path`'s `==` does.
pub fn same_path(a: &str, b: &str) -> (r: bool)
    ensures
        r == (components(a@) == components(b@)),
{
    let va = chars_of(a);
    let vb = chars_of(b);
    let (ra, ca) = component_list(&va);
    let (rb, cb) = component_list(&vb);
    if ra != rb || ca.len() != cb.len() {
        proof {
            if ca.len() != cb.len() {
                assert(ca@.map_values(|x: Vec<char>| x@).len() != cb@.map_values(|x: Vec<char>| x@).len());
            }
        }
        return false;
    }
    let mut i: usize = 0;
    while i < ca.len()
        invariant
            i <= ca@.len(),
            ca@.len() == cb@.len(),
            forall|j: int| 0 <= j < i ==> ca@[j]@ == cb@[j]@,
            ca@.map_values(|x: Vec<char>| x@) == components(a@).1,
            cb@.map_values(|x: Vec<char>| x@) == components(b@).1,
        decreases ca@.len() - i,
    {
        if !chars_eq(&ca[i], &cb[i]) {
            assert(ca@.map_values(|x: Vec<char>| x@)[i as int] != cb@.map_values(|x: Vec<char>| x@)[i as int]);
            assert(components(a@).1 != components(b@).1);
            return false;
        }
        i += 1;
    }
    assert(ca@.map_values(|x: Vec<char>| x@) =~= cb@.map_values(|x: Vec<char>| x@));
    true
}

/// `Path::starts_with`: `base`'s components begin `p`'s, roots alike.
pub open spec fn starts_with_path(p: Seq<char>, base: Seq<char>) -> bool {
    let (rp, cp) = components(p);
    let (rb, cb) = components(base);
    rp == rb && cb.len() <= cp.len() && cp.take(cb.len() as int) == cb
}

/// `p.parent() == Some(dir)`: `p` has a last component, and what comes before it is `dir`.
pub open spec fn parent_is(p: Seq<char>, dir: Seq<char>) -> bool {
    let (rp, cp) = components(p);
    let (rd, cd) = components(dir);
    rp == rd && cp.len() > 0 && cp.drop_last() == cd
}

fn same_upto(a: &Vec<Vec<char>>, b: &Vec<Vec<char>>, n: usize) -> (r: bool)
    requires
        n <= a@.len(),
        n <= b@.len(),
    ensures
        r == (a@.map_values(|x: Vec<char>| x@).take(n as int) == b@.map_values(|x: Vec<char>| x@).take(n as int)),
{
    let ghost va = a@.map_values(|x: Vec<char>| x@);
    let ghost vb = b@.map_values(|x: Vec<char>| x@);
    let mut i: usize = 0;
    while i < n
        invariant
            i <= n <= a@.len(),
            n <= b@.len(),
            va == a@.map_values(|x: Vec<char>| x@),
            vb == b@.map_values(|x: Vec<char>| x@),
            forall|j: int| 0 <= j < i ==> va[j] == vb[j],
        decreases n - i,
    {
        if !chars_eq(&a[i], &b[i]) {
            assert(va.take(n as int)[i as int] != vb.take(n as int)[i as int]);
            return false;
        }
        i += 1;
    }
    assert(va.take(n as int) =~= vb.take(n as int));
    true
}

/// What moving `src` into the folder `dir` (as `dst`) comes to: nothing where it is there
/// already, a refusal where `dir` lies inside `src` or `dst` is taken (`dst_exists`, which the
/// disk tells), else the move.
#[derive(Clone, Copy, Debug, PartialEq, Eq, Structural)]
pub enum MoveStep {
    Skip,
    Go,
    IntoItself,
    Taken,
}

pub open spec fn move_step_spec(src: Seq<char>, dir: Seq<char>, dst: Seq<char>, dst_exists: bool) -> MoveStep {
    if components(src) == components(dst) || parent_is(src, dir) {
        MoveStep::Skip
    } else if starts_with_path(dir, src) {
        MoveStep::IntoItself
    } else if dst_exists {
        MoveStep::Taken
    } else {
        MoveStep::Go
    }
}

pub fn move_step(src: &str, dir: &str, dst: &str, dst_exists: bool) -> (r: MoveStep)
    ensures
        r == move_step_spec(src@, dir@, dst@, dst_exists),
{
    let vs = chars_of(src);
    let vd = chars_of(dir);
    let (rs, cs) = component_list(&vs);
    let (rd, cd) = component_list(&vd);
    let ghost gs = cs@.map_values(|x: Vec<char>| x@);
    let ghost gd = cd@.map_values(|x: Vec<char>| x@);
    assert(gs.len() == cs@.len() && gd.len() == cd@.len());
    assert(vs@ == src@ && vd@ == dir@);
    let same = same_path(src, dst);
    let parent = rs == rd && cs.len() > 0 && cs.len() - 1 == cd.len() && same_upto(&cs, &cd, cd.len());
    proof {
        if rs == rd && cs.len() > 0 && cs.len() - 1 == cd.len() {
            assert(gd.take(cd@.len() as int) =~= gd);
            assert(gs.take(cd@.len() as int) =~= gs.drop_last());
        }
    }
    if same || parent {
        return MoveStep::Skip;
    }
    let inside = rs == rd && cs.len() <= cd.len() && same_upto(&cd, &cs, cs.len());
    proof {
        if rs == rd && cs.len() <= cd.len() {
            assert(gs.take(cs@.len() as int) =~= gs);
        }
    }
    assert(parent_is(src@, dir@) == (rs == rd && gs.len() > 0 && gs.drop_last() == gd));
    assert(starts_with_path(dir@, src@) == (rs == rd && gs.len() <= gd.len() && gd.take(gs.len() as int) == gs));
    if inside {
        MoveStep::IntoItself
    } else if dst_exists {
        MoveStep::Taken
    } else {
        MoveStep::Go
    }
}

/// Whether a listing shows `e`: all entries when hidden ones are shown, else the others.
pub open spec fn shown(e: Entry, show_hidden: bool) -> bool {
    show_hidden || !e.hidden
}

proof fn lemma_filter_step(o: Seq<Entry>, k: int, show_hidden: bool)
    requires
        0 <= k < o.len(),
    ensures
        o.take(k + 1).filter(|e: Entry| shown(e, show_hidden)) == o.take(k).filter(|e: Entry| shown(e, show_hidden))
            + (if shown(o[k], show_hidden) { seq![o[k]] } else { Seq::<Entry>::empty() }),
{
    let p = |e: Entry| shown(e, show_hidden);
    assert(o.take(k + 1) =~= o.take(k) + seq![o[k]]);
    Seq::<Entry>::filter_distributes_over_add(o.take(k), seq![o[k]], p);
    Seq::<Entry>::empty().lemma_filter_prepend(o[k], p);
    assert(seq![o[k]] + Seq::<Entry>::empty() =~= seq![o[k]]);
    assert(Seq::<Entry>::empty().filter(p) =~= Seq::<Entry>::empty()) by {
        reveal(Seq::filter);
    }
}

/// Drops the hidden entries from a listing unless they are to be shown; the rest keep their order.
pub fn keep_shown(v: &mut Vec<Entry>, show_hidden: bool)
    ensures
        final(v)@ == old(v)@.filter(|e: Entry| shown(e, show_hidden)),
{
    let ghost o = v@;
    let ghost mut k: int = 0;
    let mut i: usize = 0;
    assert(o.take(0).filter(|e: Entry| shown(e, show_hidden)) =~= Seq::<Entry>::empty()) by {
        reveal(Seq::filter);
        assert(o.take(0) =~= Seq::<Entry>::empty());
    }
    assert(v@.take(0) =~= Seq::<Entry>::empty());
    assert(v@.skip(0) =~= o.skip(0));
    while i < v.len()
        invariant
            0 <= k <= o.len(),
            i <= v@.len(),
            v@.len() - i == o.len() - k,
            v@.take(i as int) == o.take(k).filter(|e: Entry| shown(e, show_hidden)),
            v@.skip(i as int) == o.skip(k),
        decreases v@.len() - i,
    {
        proof {
            lemma_filter_step(o, k, show_hidden);
            assert(v@[i as int] == o.skip(k)[0]);
        }
        let keep = show_hidden || !v[i].hidden;
        if keep {
            let ghost before = v@;
            i += 1;
            proof {
                assert(v@.take(i as int) =~= before.take(i - 1) + seq![o[k]]);
                assert(v@.skip(i as int) =~= before.skip(i - 1).skip(1));
                assert(o.skip(k + 1) =~= o.skip(k).skip(1));
                k = k + 1;
            }
        } else {
            let ghost before = v@;
            v.remove(i);
            proof {
                assert(v@.take(i as int) =~= before.take(i as int));
                assert(v@.skip(i as int) =~= before.skip(i as int).skip(1));
                assert(o.skip(k + 1) =~= o.skip(k).skip(1));
                k = k + 1;
            }
        }
    }
    assert(o.skip(k).len() == 0);
    assert(k == o.len());
    assert(o.take(k) =~= o);
    assert(v@.take(i as int) =~= v@);
}

// ---- file contents as base64 --------------------------------------------------------------------

/// What `base64::engine::general_purpose::STANDARD.encode` gives for `b`: RFC 4648 base64 with
/// the standard alphabet and `=` padding.
pub uninterp spec fn base64_std(b: Seq<u8>) -> Seq<char>;

/// `base64::engine::general_purpose::STANDARD.encode`. Claimed: the result is `base64_std` of
/// the bytes, a function of them alone. The encoded length must fit a `usize`, else the crate
/// panics; `requires` leaves that out.
#[verifier::external_body]
fn b64_encode(bytes: &[u8]) -> (r: String)
    requires
        bytes@.len() / 3 * 4 + 4 <= usize::MAX,
    ensures
        r@ == base64_std(bytes@),
{
    base64::engine::general_purpose::STANDARD.encode(bytes)
}

/// The refusal of a file of `len` bytes at `path` that is over `max_bytes`.
pub open spec fn too_large_msg(path: Seq<char>, len: u64) -> Seq<char> {
    path + ": file is too large ("@ + decimal(len as nat) + " bytes)"@
}

/// Whether a file of `len` bytes may be read whole: not when it is over `max_bytes`.
pub fn size_verdict(path: &str, len: u64, max_bytes: u64) -> (r: Result<(), String>)
    ensures
        r is Err <==> len > max_bytes,
        r matches Err(e) ==> e@ == too_large_msg(path@, len),
{
    if len > max_bytes {
        let mut e = String::from_str(path);
        push_str(&mut e, ": file is too large (");
        let digits = string_of(&decimal_chars(len));
        push_str(&mut e, digits.as_str());
        push_str(&mut e, " bytes)");
        Err(e)
    } else {
        Ok(())
    }
}

/// A file's contents as base64, for a file of `len` bytes at `path` whose bytes are `bytes`:
/// refused when it is over `max_bytes`.
pub fn file_b64(path: &str, len: u64, max_bytes: u64, bytes: &[u8]) -> (r: Result<String, String>)
    requires
        bytes@.len() / 3 * 4 + 4 <= usize::MAX,
    ensures
        r is Err <==> len > max_bytes,
        r matches Err(e) ==> e@ == too_large_msg(path@, len),
        r matches Ok(s) ==> s@ == base64_std(bytes@),
{
    match size_verdict(path, len, max_bytes) {
        Err(e) => Err(e),
        Ok(()) => Ok(b64_encode(bytes)),
    }
}

// ---- protected roots -----------------------------------------------------------------------------

/// `dirs::home_dir`: the user's home directory as the environment and the password database give
/// it, if there is one. Nothing is stated of the result, which depends on the environment.
#[verifier::external_body]
fn home_dir() -> (h: Option<String>) {
    dirs::home_dir().map(|p| p.to_string_lossy().into_owned())
}

pub open spec fn fixed_protected(p: Seq<char>) -> bool {
    components(p) == components("/"@) || components(p) == components("/Users"@) || components(p)
        == components("/System"@) || components(p) == components("/Applications"@) || components(p)
        == components("C:\\"@) || components(p) == components("C:\\Windows"@)
}

pub open spec fn starts_with(s: Seq<char>, pre: Seq<char>) -> bool {
    pre.len() <= s.len() && s.take(pre.len() as int) == pre
}

/// `C:\Program Files` or `C:\Program Files (x86)` (any case, any trailing separators), and not a
/// folder inside them.
pub open spec fn program_files(p: Seq<char>) -> bool {
    let s = trim_end(lowercase(p));
    starts_with(s, "c:\\program files"@) && !s.skip(16).contains('\\')
}

/// Roots that destroy and empty must never touch, given the home directory `home`.
pub open spec fn protected_spec(p: Seq<char>, home: Option<Seq<char>>) -> bool {
    fixed_protected(p) || (home matches Some(h) && components(h) == components(p)) || program_files(p)
}

fn program_files_path(p: &str) -> (r: bool)
    ensures
        r == program_files(p@),
{
    let low = to_lower(p);
    let v = chars_of(low.as_str());
    let n = trimmed_len(&v);
    let t = slice_vec(&v, 0, n);
    proof {
        crate::icons::lemma_trim_end(v@);
    }
    assert(t@ == trim_end(lowercase(p@)));
    let pre = chars_of("c:\\program files");
    proof {
        reveal_strlit("c:\\program files");
    }
    assert(pre@.len() == 16);
    if t.len() < 16 {
        assert(!starts_with(t@, "c:\\program files"@));
        return false;
    }
    let head = slice_vec(&t, 0, 16);
    if !same(&head, "c:\\program files") {
        assert(t@.take(16) == head@);
        return false;
    }
    assert(t@.take(16) == head@);
    let mut i: usize = 16;
    while i < t.len()
        invariant
            16 <= i <= t@.len(),
            t@ == trim_end(lowercase(p@)),
            forall|j: int| 16 <= j < i ==> t@[j] != '\\',
        decreases t@.len() - i,
    {
        if t[i] == '\\' {
            assert(t@.skip(16)[i - 16] == '\\');
            assert(t@.skip(16).contains('\\'));
            return false;
        }
        i += 1;
    }
    assert(!t@.skip(16).contains('\\')) by {
        if t@.skip(16).contains('\\') {
            let j = choose|j: int| 0 <= j < t@.skip(16).len() && t@.skip(16)[j] == '\\';
            assert(t@[j + 16] == '\\');
        }
    }
    true
}

fn trimmed_len(v: &[char]) -> (n: usize)
    ensures
        n == trim_end(v@).len(),
        n <= v@.len(),
{
    proof {
        crate::icons::lemma_trim_end(v@);
    }
    let mut n = v.len();
    assert(v@.take(n as int) == v@);
    while n > 0 && (v[n - 1] == '/' || v[n - 1] == '\\')
        invariant
            n <= v@.len(),
            trim_end(v@) == trim_end(v@.take(n as int)),
        decreases n,
    {
        assert(v@.take(n as int).drop_last() == v@.take(n - 1));
        n -= 1;
    }
    assert(v@.take(n as int).len() == n);
    n
}

/// Whether `p` is protected, given the home directory `home`.
pub fn protected_with(p: &str, home: Option<&str>) -> (r: bool)
    ensures
        r == protected_spec(p@, match home {
            Some(h) => Some(h@),
            None => None,
        }),
{
    let fixed = same_path(p, "/") || same_path(p, "/Users") || same_path(p, "/System") || same_path(
        p,
        "/Applications",
    ) || same_path(p, "C:\\") || same_path(p, "C:\\Windows");
    if fixed {
        return true;
    }
    if let Some(h) = home {
        if same_path(h, p) {
            return true;
        }
    }
    program_files_path(p)
}

/// Roots that destroy and empty must never touch: fixed system roots, the home directory and
/// `C:\Program Files*` themselves.
pub fn protected(p: &str) -> (r: bool)
    ensures
        fixed_protected(p@) || program_files(p@) ==> r,
        !r ==> !fixed_protected(p@) && !program_files(p@),
        exists|home: Option<Seq<char>>| r == #[trigger] protected_spec(p@, home),
{
    let home = home_dir();
    match home {
        Some(h) => protected_with(p, Some(h.as_str())),
        None => protected_with(p, None),
    }
}

/// What `checked_unprotected` may give for `path` on a host (Windows where `win`): what
/// `check` refuses is refused alike; a fixed root or `C:\\Program Files*` is refused as
/// protected; another path is given back, or refused as protected where it is the home folder.
pub open spec fn unprotected_spec(path: Seq<char>, win: bool, r: Result<Seq<char>, Seq<char>>) -> bool {
    match check_spec(path, win) {
        Err(e) => r == Err::<Seq<char>, Seq<char>>(e),
        Ok(p) => {
            let refused = Err::<Seq<char>, Seq<char>>("refusing to operate on protected path "@ + p);
            if fixed_protected(p) || program_files(p) {
                r == refused
            } else {
                r == Ok::<Seq<char>, Seq<char>>(p) || r == refused
            }
        },
    }
}

/// `check`, and then refuse protected paths.
pub fn checked_unprotected(path: &str) -> (r: Result<String, String>)
    ensures
        unprotected_spec(path@, false, result_view(r)) || unprotected_spec(path@, true, result_view(r)),
{
    let p = check(path)?;
    if protected(p.as_str()) {
        let mut e = String::from_str("refusing to operate on protected path ");
        push_str(&mut e, p.as_str());
        return Err(e);
    }
    Ok(p)
}


/// Every path's check, in order: all the checked paths when none was refused, else the first
/// refusal.
pub open spec fn all_or_first_refusal(rs: Seq<Result<Seq<char>, Seq<char>>>) -> Result<Seq<Seq<char>>, Seq<char>>
    decreases rs.len(),
{
    if rs.len() == 0 {
        Ok(seq![])
    } else {
        match rs[0] {
            Err(e) => Err(e),
            Ok(p) => match all_or_first_refusal(rs.drop_first()) {
                Err(e) => Err(e),
                Ok(v) => Ok(seq![p] + v),
            },
        }
    }
}

pub open spec fn results_view(rs: Seq<Result<String, String>>) -> Seq<Result<Seq<char>, Seq<char>>> {
    rs.map_values(|r: Result<String, String>| result_view(r))
}

pub open spec fn list_view(r: Result<Vec<String>, String>) -> Result<Seq<Seq<char>>, Seq<char>> {
    match r {
        Ok(v) => Ok(v@.map_values(|s: String| s@)),
        Err(e) => Err(e@),
    }
}

/// The checked paths when every check passed, else the first refusal, so that nothing is
/// touched unless everything may be.
pub fn first_refusal(rs: &Vec<Result<String, String>>) -> (r: Result<Vec<String>, String>)
    ensures
        list_view(r) == all_or_first_refusal(results_view(rs@)),
{
    let ghost rv = results_view(rs@);
    let mut out: Vec<String> = Vec::new();
    let mut i: usize = 0;
    assert(rv.skip(0) =~= rv);
    assert(out@.map_values(|s: String| s@) =~= Seq::<Seq<char>>::empty());
    while i < rs.len()
        invariant
            i <= rs@.len(),
            rv == results_view(rs@),
            all_or_first_refusal(rv) == match all_or_first_refusal(rv.skip(i as int)) {
                Err(e) => Err(e),
                Ok(v) => Ok(out@.map_values(|s: String| s@) + v),
            },
        decreases rs@.len() - i,
    {
        assert(rv.skip(i as int).drop_first() =~= rv.skip(i + 1));
        assert(rv.skip(i as int)[0] == result_view(rs@[i as int]));
        match &rs[i] {
            Ok(p) => {
                let ghost before = out@.map_values(|s: String| s@);
                out.push(String::from_str(p.as_str()));
                assert(out@.map_values(|s: String| s@) =~= before.push(p@));
                assert forall|v: Seq<Seq<char>>| before + (seq![p@] + v) =~= before.push(p@) + v by {}
            },
            Err(e) => {
                return Err(String::from_str(e.as_str()));
            },
        }
        i += 1;
    }
    assert(rv.skip(i as int) =~= Seq::<Result<Seq<char>, Seq<char>>>::empty());
    assert(out@.map_values(|s: String| s@) + Seq::<Seq<char>>::empty() =~= out@.map_values(|s: String| s@));
    Ok(out)
}

/// Checks every path as `checked_unprotected` does before anything is done to any: the checked
/// paths, or the first refusal. What each check gives rests on the host and the home folder.
pub fn check_all(paths: &Vec<String>) -> (r: Result<Vec<String>, String>)
    ensures
        exists|rs: Seq<Result<Seq<char>, Seq<char>>>|
            rs.len() == paths@.len() && (forall|i: int|
                0 <= i < rs.len() ==> unprotected_spec(paths@[i]@, false, #[trigger] rs[i]) || unprotected_spec(
                    paths@[i]@,
                    true,
                    rs[i],
                )) && list_view(r) == all_or_first_refusal(rs),
{
    let mut rs: Vec<Result<String, String>> = Vec::new();
    let mut i: usize = 0;
    while i < paths.len()
        invariant
            i <= paths@.len(),
            rs@.len() == i,
            forall|j: int|
                0 <= j < i ==> unprotected_spec(paths@[j]@, false, result_view(#[trigger] rs@[j]))
                    || unprotected_spec(paths@[j]@, true, result_view(rs@[j])),
        decreases paths@.len() - i,
    {
        rs.push(checked_unprotected(paths[i].as_str()));
        i += 1;
    }
    let r = first_refusal(&rs);
    assert(forall|j: int| 0 <= j < rs@.len() ==> #[trigger] results_view(rs@)[j] == result_view(rs@[j]));
    r
}

// ---- names -------------------------------------------------------------------------------------

/// The lower-cased extension of a file name as `Path::extension` finds it: none for `.` and `..`,
/// none without a dot or with only a leading one, otherwise what follows the last dot.
pub open spec fn ext_of_spec(name: Seq<char>) -> Seq<char> {
    let i = crate::text::last_of(name, '.');
    if name =~= seq!['.'] || name =~= seq!['.', '.'] || i <= 0 {
        Seq::empty()
    } else {
        lowercase(name.skip(i + 1))
    }
}

/// The lower-cased extension of the file name `name` (one path component).
pub fn ext_of(name: &str) -> (e: String)
    ensures
        e@ == ext_of_spec(name@),
{
    let v = chars_of(name);
    if (v.len() == 1 && v[0] == '.') || (v.len() == 2 && v[0] == '.' && v[1] == '.') {
        proof {
            if v@.len() == 1 {
                assert(v@ =~= seq!['.']);
            } else {
                assert(v@ =~= seq!['.', '.']);
            }
        }
        return String::new();
    }
    proof {
        crate::text::lemma_last_of(v@, '.');
    }
    match crate::text::rfind(&v, '.') {
        Some(i) => {
            if i > 0 {
                let tail = string_of(&slice_vec(&v, i + 1, v.len()));
                assert(v@.subrange(i + 1, v@.len() as int) == v@.skip(i + 1));
                to_lower(tail.as_str())
            } else {
                String::new()
            }
        },
        None => String::new(),
    }
}

/// Application bundles: `.app` folders on macOS, `.exe` and `.lnk` files on Windows.
pub open spec fn is_app_spec(name: Seq<char>, is_dir: bool, os: Os) -> bool {
    let e = ext_of_spec(name);
    match os {
        Os::MacOs => is_dir && e == "app"@,
        Os::Windows => !is_dir && (e == "exe"@ || e == "lnk"@),
        Os::Other => false,
    }
}

pub fn is_app(name: &str, is_dir: bool, os: Os) -> (b: bool)
    ensures
        b == is_app_spec(name@, is_dir, os),
{
    let e = ext_of(name);
    let ev = chars_of(e.as_str());
    match os {
        Os::MacOs => is_dir && same(&ev, "app"),
        Os::Windows => !is_dir && (same(&ev, "exe") || same(&ev, "lnk")),
        Os::Other => false,
    }
}

/// Dot files are hidden, and so is anything the host marks hidden.
pub fn is_hidden(name: &str, os_hidden: bool) -> (b: bool)
    ensures
        b == ((name@.len() > 0 && name@[0] == '.') || os_hidden),
{
    let v = chars_of(name);
    (v.len() > 0 && v[0] == '.') || os_hidden
}

// ---- sorting -----------------------------------------------------------------------------------

/// Lexicographic order of character sequences by code point, which is also the byte order of their
/// UTF-8 encodings (the order of `String`).
pub open spec fn seq_le(a: Seq<char>, b: Seq<char>) -> bool
    decreases a.len(),
{
    if a.len() == 0 {
        true
    } else if b.len() == 0 {
        false
    } else if (a[0] as u32) < (b[0] as u32) {
        true
    } else if (a[0] as u32) == (b[0] as u32) {
        seq_le(a.drop_first(), b.drop_first())
    } else {
        false
    }
}

pub proof fn lemma_seq_le_total(a: Seq<char>, b: Seq<char>)
    ensures
        seq_le(a, b) || seq_le(b, a),
    decreases a.len(),
{
    if a.len() > 0 && b.len() > 0 && (a[0] as u32) == (b[0] as u32) {
        lemma_seq_le_total(a.drop_first(), b.drop_first());
    }
}

pub proof fn lemma_seq_le_trans(a: Seq<char>, b: Seq<char>, c: Seq<char>)
    requires
        seq_le(a, b),
        seq_le(b, c),
    ensures
        seq_le(a, c),
    decreases a.len(),
{
    if a.len() > 0 && b.len() > 0 && c.len() > 0 && (a[0] as u32) == (b[0] as u32) && (b[0] as u32) == (c[0] as u32) {
        lemma_seq_le_trans(a.drop_first(), b.drop_first(), c.drop_first());
    }
}

/// Directories first, then files; each group case-insensitively alphabetical.
pub open spec fn entry_le(a: Entry, b: Entry) -> bool {
    (a.is_dir && !b.is_dir) || (a.is_dir == b.is_dir && seq_le(lowercase(a.name@), lowercase(b.name@)))
}

proof fn lemma_entry_le_total(a: Entry, b: Entry)
    ensures
        entry_le(a, b) || entry_le(b, a),
{
    lemma_seq_le_total(lowercase(a.name@), lowercase(b.name@));
}

proof fn lemma_entry_le_trans(a: Entry, b: Entry, c: Entry)
    requires
        entry_le(a, b),
        entry_le(b, c),
    ensures
        entry_le(a, c),
{
    if a.is_dir == b.is_dir && b.is_dir == c.is_dir {
        lemma_seq_le_trans(lowercase(a.name@), lowercase(b.name@), lowercase(c.name@));
    }
}

pub(crate) fn chars_le(a: &Vec<char>, b: &Vec<char>) -> (r: bool)
    ensures
        r == seq_le(a@, b@),
{
    let mut i: usize = 0;
    assert(a@.skip(0) == a@ && b@.skip(0) == b@);
    while i < a.len()
        invariant
            i <= a@.len(),
            i <= b@.len() || i == 0,
            seq_le(a@, b@) == seq_le(a@.skip(i as int), b@.skip(i as int)),
        decreases a@.len() - i,
    {
        if i >= b.len() {
            assert(b@.skip(i as int).len() == 0);
            return false;
        }
        let (x, y) = (a[i] as u32, b[i] as u32);
        assert(a@.skip(i as int)[0] == a@[i as int]);
        assert(b@.skip(i as int)[0] == b@[i as int]);
        if x < y {
            return true;
        }
        if x != y {
            return false;
        }
        assert(a@.skip(i as int).drop_first() == a@.skip(i + 1));
        assert(b@.skip(i as int).drop_first() == b@.skip(i + 1));
        i += 1;
    }
    true
}

fn entry_before(a: &Entry, b: &Entry) -> (r: bool)
    ensures
        r == entry_le(*a, *b),
{
    if a.is_dir != b.is_dir {
        return a.is_dir;
    }
    let la = chars_of(to_lower(a.name.as_str()).as_str());
    let lb = chars_of(to_lower(b.name.as_str()).as_str());
    chars_le(&la, &lb)
}

pub open spec fn sorted_entries(s: Seq<Entry>) -> bool {
    forall|i: int, j: int| 0 <= i < j < s.len() ==> entry_le(#[trigger] s[i], #[trigger] s[j])
}

/// Directories first, then files; each group case-insensitively alphabetical.
/// `f` is `o` reordered by `idx` (entry `k` of `f` is entry `idx[k]` of `o`, each taken once),
/// and entries with equal keys keep their old relative order.
pub open spec fn stable_perm(o: Seq<Entry>, f: Seq<Entry>, idx: Seq<int>) -> bool {
    &&& idx.len() == f.len()
    &&& forall|k: int| 0 <= k < f.len() ==> 0 <= #[trigger] idx[k] < o.len() && f[k] == o[idx[k]]
    &&& forall|k: int, l: int| 0 <= k < l < f.len() ==> #[trigger] idx[k] != #[trigger] idx[l]
    &&& forall|k: int, l: int|
        0 <= k < l < f.len() && entry_le(#[trigger] f[k], #[trigger] f[l]) && entry_le(f[l], f[k]) ==> idx[k] < idx[l]
}

#[verifier::spinoff_prover]
pub fn sort_entries(v: &mut Vec<Entry>)
    ensures
        final(v)@.to_multiset() == old(v)@.to_multiset(),
        sorted_entries(final(v)@),
        exists|idx: Seq<int>| stable_perm(old(v)@, final(v)@, idx),
{
    broadcast use vstd::seq_lib::group_to_multiset_ensures;
    broadcast use vstd::multiset::group_multiset_axioms;

    let ghost orig = v@;
    let n0 = v.len();
    let mut out: Vec<Entry> = Vec::new();
    let mut taken: usize = 0;
    let ghost mut idx: Seq<int> = Seq::empty();
    while v.len() > 0
        invariant
            orig.len() == n0,
            taken + v@.len() == orig.len(),
            v@ == orig.skip(taken as int),
            out@.to_multiset() == orig.take(taken as int).to_multiset(),
            sorted_entries(out@),
            stable_perm(orig, out@, idx),
            forall|k: int| 0 <= k < idx.len() ==> #[trigger] idx[k] < taken,
        decreases v@.len(),
    {
        let x = v.remove(0);
        assert(x == orig[taken as int]);
        assert(orig.take(taken + 1) == orig.take(taken as int).push(x));
        proof {
            orig.take(taken as int).to_multiset_ensures();
        }
        assert(v@ =~= orig.skip(taken + 1));
        let mut p = out.len();
        while p > 0 && !entry_before(&out[p - 1], &x)
            invariant
                p <= out@.len(),
                forall|q: int| p <= q < out@.len() ==> !entry_le(#[trigger] out@[q], x),
            decreases p,
        {
            p -= 1;
        }
        proof {
            assert forall|q: int| p <= q < out@.len() implies entry_le(x, #[trigger] out@[q]) by {
                lemma_entry_le_total(out@[q], x);
            }
            assert forall|q: int| 0 <= q < p implies entry_le(#[trigger] out@[q], x) by {
                if q < p - 1 {
                    lemma_entry_le_trans(out@[q], out@[p - 1], x);
                }
            }
        }
        let ghost before = out@;
        out.insert(p, x);
        proof {
            assert(out@ == before.insert(p as int, x));
            assert(out@.remove(p as int) =~= before);
            assert(out@[p as int] == x);
            out@.to_multiset_ensures();
            assert(out@.remove(p as int).to_multiset() == out@.to_multiset().remove(out@[p as int]));
            assert(out@.to_multiset().remove(x) == before.to_multiset());
            assert(out@.contains(x));
            assert(out@.to_multiset().count(x) > 0);
            assert(out@.to_multiset() =~= before.to_multiset().insert(x));
            assert forall|i: int, j: int| 0 <= i < j < out@.len() implies entry_le(#[trigger] out@[i], #[trigger] out@[j]) by {
                let a = if i < p { before[i] } else if i == p { x } else { before[i - 1] };
                let b = if j < p { before[j] } else if j == p { x } else { before[j - 1] };
                assert(out@[i] == a);
                assert(out@[j] == b);
            }
            let ghost ni = idx.insert(p as int, taken as int);
            assert forall|k: int| 0 <= k < out@.len() implies 0 <= #[trigger] ni[k] < orig.len() && out@[k] == orig[ni[k]] by {
                if k < p {
                    assert(ni[k] == idx[k]);
                } else if k > p {
                    assert(ni[k] == idx[k - 1]);
                }
            }
            assert forall|k: int, l: int| 0 <= k < l < out@.len() implies #[trigger] ni[k] != #[trigger] ni[l] by {
                let ik = if k < p { idx[k] } else if k == p { taken as int } else { idx[k - 1] };
                let il = if l < p { idx[l] } else if l == p { taken as int } else { idx[l - 1] };
                assert(ni[k] == ik && ni[l] == il);
                if k != p && l != p {
                    let a = if k < p { k } else { k - 1 };
                    let b = if l < p { l } else { l - 1 };
                    assert(idx[a] != idx[b]);
                }
            }
            assert forall|k: int, l: int|
                0 <= k < l < out@.len() && entry_le(#[trigger] out@[k], #[trigger] out@[l]) && entry_le(out@[l], out@[k]) implies ni[k] < ni[l] by {
                let a = if k < p { k } else { k - 1 };
                let b = if l < p { l } else { l - 1 };
                if k == p {
                    assert(!entry_le(before[b], x));
                } else if l == p {
                    assert(ni[k] == idx[a]);
                } else {
                    assert(out@[k] == before[a] && out@[l] == before[b]);
                    assert(idx[a] < idx[b]);
                }
            }
            idx = ni;
        }
        taken += 1;
    }
    assert(orig.take(orig.len() as int) == orig);
    *v = out;
}

// ---- new names -----------------------------------------------------------------------------------

pub open spec fn digit(d: int) -> char {
    if d == 0 { '0' } else if d == 1 { '1' } else if d == 2 { '2' } else if d == 3 { '3' } else if d == 4 {
        '4'
    } else if d == 5 { '5' } else if d == 6 { '6' } else if d == 7 { '7' } else if d == 8 { '8' } else {
        '9'
    }
}

/// The decimal digits of `n`.
pub open spec fn decimal(n: nat) -> Seq<char>
    decreases n,
{
    if n < 10 {
        seq![digit(n as int)]
    } else {
        decimal(n / 10).push(digit((n % 10) as int))
    }
}

proof fn lemma_decimal_len(n: nat)
    ensures
        decimal(n).len() >= 1,
        n >= 10 ==> decimal(n).len() >= 2,
    decreases n,
{
    if n >= 10 {
        lemma_decimal_len(n / 10);
    }
}

/// Different numbers are written differently.
pub proof fn lemma_decimal_injective(a: nat, b: nat)
    requires
        decimal(a) == decimal(b),
    ensures
        a == b,
    decreases a,
{
    lemma_decimal_len(a);
    lemma_decimal_len(b);
    if a >= 10 && b >= 10 {
        assert(decimal(a).drop_last() =~= decimal(a / 10));
        assert(decimal(b).drop_last() =~= decimal(b / 10));
        lemma_decimal_injective(a / 10, b / 10);
        assert(decimal(a).last() == digit((a % 10) as int));
        assert(decimal(b).last() == digit((b % 10) as int));
    } else if a < 10 && b < 10 {
        assert(decimal(a)[0] == digit(a as int));
        assert(decimal(b)[0] == digit(b as int));
    }
}

fn digit_char(d: u64) -> (c: char)
    requires
        d < 10,
    ensures
        c == digit(d as int),
{
    if d == 0 { '0' } else if d == 1 { '1' } else if d == 2 { '2' } else if d == 3 { '3' } else if d == 4 {
        '4'
    } else if d == 5 { '5' } else if d == 6 { '6' } else if d == 7 { '7' } else if d == 8 { '8' } else {
        '9'
    }
}

/// The decimal digits of `n`, as `to_string` writes them.
pub fn decimal_chars(n: u64) -> (v: Vec<char>)
    ensures
        v@ == decimal(n as nat),
    decreases n,
{
    if n < 10 {
        let mut v = Vec::new();
        v.push(digit_char(n));
        assert(v@ =~= seq![digit(n as int)]);
        v
    } else {
        let mut v = decimal_chars(n / 10);
        v.push(digit_char(n % 10));
        v
    }
}

/// `name` split into stem and extension (with its dot) for copies; folders and dot-names keep
/// their whole name as stem.
pub open spec fn split_ext(name: Seq<char>, dir_like: bool) -> (Seq<char>, Seq<char>) {
    let i = crate::text::last_of(name, '.');
    if i > 0 && !dir_like {
        (name.take(i), name.skip(i))
    } else {
        (name, Seq::empty())
    }
}

/// The `n`-th name tried: `base`, `base 2`, `base 3`… for folders, `stem copy.ext`,
/// `stem copy 2.ext`… for copies.
pub open spec fn candidate(name: Seq<char>, copy: bool, n: nat, dir_like: bool) -> Seq<char> {
    let (stem, ext) = split_ext(name, dir_like);
    if !copy {
        if n == 1 {
            name
        } else {
            name + " "@ + decimal(n)
        }
    } else if n == 1 {
        stem + " copy"@ + ext
    } else {
        stem + " copy "@ + decimal(n) + ext
    }
}

/// The `n`-th name that `unique_name` tries for `name`.
pub fn candidate_name(name: &str, copy: bool, n: u32, dir_like: bool) -> (r: String)
    ensures
        r@ == candidate(name@, copy, n as nat, dir_like),
{
    let v = chars_of(name);
    proof {
        crate::text::lemma_last_of(v@, '.');
    }
    let (stem, ext) = match crate::text::rfind(&v, '.') {
        Some(i) => {
            if i > 0 && !dir_like {
                (slice_vec(&v, 0, i), slice_vec(&v, i, v.len()))
            } else {
                (slice_vec(&v, 0, v.len()), Vec::new())
            }
        },
        None => (slice_vec(&v, 0, v.len()), Vec::new()),
    };
    assert(v@.subrange(0, v@.len() as int) == v@);
    let ghost parts = split_ext(name@, dir_like);
    assert(stem@ == parts.0 && ext@ == parts.1);
    let digits = string_of(&decimal_chars(n as u64));
    if !copy {
        let mut out = String::from_str(name);
        if n != 1 {
            push_str(&mut out, " ");
            push_str(&mut out, digits.as_str());
        }
        out
    } else {
        let mut out = string_of(&stem);
        if n == 1 {
            push_str(&mut out, " copy");
        } else {
            push_str(&mut out, " copy ");
            push_str(&mut out, digits.as_str());
        }
        let e = string_of(&ext);
        push_str(&mut out, e.as_str());
        out
    }
}

/// Whether `c` separates path components on a host whose main separator is `sep`: `/` always.
pub open spec fn joins_at(c: char, sep: char) -> bool {
    c == '/' || c == sep
}

/// `Path::join` on a host whose main separator is `sep`: a `name` that starts with a separator
/// replaces `dir`; otherwise `sep` is put between them unless `dir` is empty or already ends
/// with a separator.
pub open spec fn path_join_spec(dir: Seq<char>, name: Seq<char>, sep: char) -> Seq<char> {
    if name.len() > 0 && joins_at(name[0], sep) {
        name
    } else if dir.len() > 0 && !joins_at(dir.last(), sep) {
        dir + seq![sep] + name
    } else {
        dir + name
    }
}

pub fn path_join_on(dir: &str, name: &str, sep: char) -> (r: String)
    ensures
        r@ == path_join_spec(dir@, name@, sep),
{
    let n = chars_of(name);
    if n.len() > 0 && (n[0] == '/' || n[0] == sep) {
        return String::from_str(name);
    }
    let d = chars_of(dir);
    let mut out = String::from_str(dir);
    if d.len() > 0 && !(d[d.len() - 1] == '/' || d[d.len() - 1] == sep) {
        push_char(&mut out, sep);
    }
    push_str(&mut out, name);
    out
}

/// `Path::join` with the host's main separator (`\` on Windows, `/` elsewhere).
pub fn path_join(dir: &str, name: &str) -> (r: String)
    ensures
        exists|sep: char| (sep == '/' || sep == '\\') && r@ == #[trigger] path_join_spec(dir@, name@, sep),
{
    let sep = main_separator();
    path_join_on(dir, name, sep)
}

/// `Path::exists`: whether something is at `p` on disk right now. Nothing is stated of the result,
/// which depends on the disk.
#[verifier::external_body]
pub(crate) fn path_exists(p: &str) -> bool {
    std::path::Path::new(p).exists()
}

/// `Path::is_dir`: whether a folder is at `p` on disk right now. Nothing is stated of the result,
/// which depends on the disk.
#[verifier::external_body]
fn path_is_dir(p: &str) -> bool {
    std::path::Path::new(p).is_dir()
}

/// Whether `name` in `dir` is a folder (not an application bundle), so that a copy of it keeps its
/// whole name as stem. What is on disk decides; the result is not stated.
pub fn copy_is_dir_like(dir: &str, name: &str, os: Os) -> (b: bool)
    ensures
        exists|d: bool| b == #[trigger] dir_like_spec(d, name@, os),
{
    let p = path_join(dir, name);
    dir_like(path_is_dir(p.as_str()), name, os)
}

/// A folder (`is_dir`) that is no application bundle: its copy keeps its whole name as stem.
pub open spec fn dir_like_spec(is_dir: bool, name: Seq<char>, os: Os) -> bool {
    is_dir && !is_app_spec(name, true, os)
}

/// Whether `name`, a folder where `is_dir`, copies as a folder (see `dir_like_spec`).
pub fn dir_like(is_dir: bool, name: &str, os: Os) -> (b: bool)
    ensures
        b == dir_like_spec(is_dir, name@, os),
{
    is_dir && !is_app(name, true, os)
}

/// The number of the first candidate from `k` on that `taken` does not mark as taken
/// (`taken[j]` is about candidate `j + 1`); past the end of `taken` every candidate is free.
pub open spec fn first_free_from(taken: Seq<bool>, k: int) -> nat
    decreases taken.len() - k,
{
    if k < 0 || k >= taken.len() || !taken[k] {
        (if k < 0 { 1 } else { k + 1 }) as nat
    } else {
        first_free_from(taken, k + 1)
    }
}

/// The first candidate name (see `candidate`) that `taken` does not mark as taken, where
/// `taken[j]` says whether candidate `j + 1` is taken.
pub fn first_free(name: &str, copy: bool, dir_like: bool, taken: &Vec<bool>) -> (r: String)
    requires
        taken@.len() < u32::MAX,
    ensures
        r@ == candidate(name@, copy, first_free_from(taken@, 0), dir_like),
{
    let mut k: usize = 0;
    while k < taken.len() && taken[k]
        invariant
            k <= taken@.len() < u32::MAX,
            first_free_from(taken@, 0) == first_free_from(taken@, k as int),
        decreases taken@.len() - k,
    {
        k += 1;
    }
    candidate_name(name, copy, (k + 1) as u32, dir_like)
}

/// The first candidate name that is free in `dir`. What is on disk decides which one that is:
/// the candidates are asked about in turn, and the answers go to `first_free`.
pub fn unique_name(dir: &str, name: &str, copy: bool, os: Os) -> (r: String)
    ensures
        exists|taken: Seq<bool>, dl: bool|
            taken.len() < u32::MAX && r@ == #[trigger] candidate(name@, copy, first_free_from(taken, 0), dl)
            && (dl ==> !is_app_spec(name@, true, os)),
{
    let v = chars_of(name);
    let dl = match crate::text::rfind(&v, '.') {
        Some(i) => i > 0 && copy_is_dir_like(dir, name, os),
        None => false,
    };
    let mut taken: Vec<bool> = Vec::new();
    loop
        invariant
            taken@.len() < u32::MAX,
            dl ==> !is_app_spec(name@, true, os),
        decreases u32::MAX - taken@.len(),
    {
        if taken.len() == u32::MAX as usize - 1 {
            break;
        }
        let c = candidate_name(name, copy, (taken.len() + 1) as u32, dl);
        if !path_exists(path_join(dir, c.as_str()).as_str()) {
            break;
        }
        taken.push(true);
    }
    first_free(name, copy, dl, &taken)
}

// ---- file names and modes ------------------------------------------------------------------------

/// The last component of a path as `Path::file_name` gives it: none for a root, `.` or `..`.
pub open spec fn file_name_spec(p: Seq<char>) -> Option<Seq<char>> {
    let cs = components(p).1;
    if cs.len() == 0 || cs.last() =~= seq!['.'] || cs.last() =~= seq!['.', '.'] {
        None
    } else {
        Some(cs.last())
    }
}

/// The file name of `p`, or an error naming the path.
pub fn name_of(p: &str) -> (r: Result<String, String>)
    ensures
        r matches Ok(n) ==> file_name_spec(p@) == Some(n@),
        r matches Err(e) ==> file_name_spec(p@) is None && e@ == p@ + ": no file name"@,
        file_name_spec(p@) is Some ==> r is Ok,
{
    let v = chars_of(p);
    let (_rooted, cs) = component_list(&v);
    let ghost cv = cs@.map_values(|x: Vec<char>| x@);
    if cs.len() == 0 {
        let mut e = String::from_str(p);
        push_str(&mut e, ": no file name");
        return Err(e);
    }
    let last = &cs[cs.len() - 1];
    assert(cv.last() == last@);
    let dot = last.len() == 1 && last[0] == '.';
    let dotdot = last.len() == 2 && last[0] == '.' && last[1] == '.';
    assert(dot == (last@ =~= seq!['.']));
    assert(dotdot == (last@ =~= seq!['.', '.']));
    if dot || dotdot {
        let mut e = String::from_str(p);
        push_str(&mut e, ": no file name");
        return Err(e);
    }
    Ok(string_of(last))
}

/// `drwxr-xr-x`-style permissions: the kind, then read, write and execute for owner, group and
/// others.
pub open spec fn mode_spec(mode: u32, is_symlink: bool, is_dir: bool) -> Seq<char> {
    let t = if is_symlink { 'l' } else if is_dir { 'd' } else { '-' };
    seq![
        t,
        if mode & 0o400 != 0 { 'r' } else { '-' },
        if mode & 0o200 != 0 { 'w' } else { '-' },
        if mode & 0o100 != 0 { 'x' } else { '-' },
        if mode & 0o040 != 0 { 'r' } else { '-' },
        if mode & 0o020 != 0 { 'w' } else { '-' },
        if mode & 0o010 != 0 { 'x' } else { '-' },
        if mode & 0o004 != 0 { 'r' } else { '-' },
        if mode & 0o002 != 0 { 'w' } else { '-' },
        if mode & 0o001 != 0 { 'x' } else { '-' },
    ]
}

pub fn mode_string(mode: u32, is_symlink: bool, is_dir: bool) -> (s: String)
    ensures
        s@ == mode_spec(mode, is_symlink, is_dir),
{
    let mut v: Vec<char> = Vec::new();
    v.push(if is_symlink { 'l' } else if is_dir { 'd' } else { '-' });
    v.push(if mode & 0o400 != 0 { 'r' } else { '-' });
    v.push(if mode & 0o200 != 0 { 'w' } else { '-' });
    v.push(if mode & 0o100 != 0 { 'x' } else { '-' });
    v.push(if mode & 0o040 != 0 { 'r' } else { '-' });
    v.push(if mode & 0o020 != 0 { 'w' } else { '-' });
    v.push(if mode & 0o010 != 0 { 'x' } else { '-' });
    v.push(if mode & 0o004 != 0 { 'r' } else { '-' });
    v.push(if mode & 0o002 != 0 { 'w' } else { '-' });
    v.push(if mode & 0o001 != 0 { 'x' } else { '-' });
    assert(v@ =~= mode_spec(mode, is_symlink, is_dir));
    string_of(&v)
}

/// Permissions where the host has no mode bits: only whether the file is read-only.
pub fn access_string(readonly: bool) -> (s: String)
    ensures
        s@ == (if readonly { "Read-only"@ } else { "Read/Write"@ }),
{
    if readonly {
        String::from_str("Read-only")
    } else {
        String::from_str("Read/Write")
    }
}

// ---- the Dock ------------------------------------------------------------------------------------

/// The host applications the Dock starts with, where they exist.
pub open spec fn dock_candidates_spec(os: Os) -> Seq<Seq<char>> {
    match os {
        Os::MacOs => seq![
            "/System/Applications/Utilities/Terminal.app"@,
            "/System/Applications/TextEdit.app"@,
            "/Applications/Safari.app"@,
        ],
        Os::Windows => seq![
            "C:\\Windows\\System32\\notepad.exe"@,
            "C:\\Windows\\System32\\calc.exe"@,
            "C:\\Program Files (x86)\\Microsoft\\Edge\\Application\\msedge.exe"@,
            "C:\\Program Files\\Microsoft\\Edge\\Application\\msedge.exe"@,
        ],
        Os::Other => Seq::empty(),
    }
}

pub fn dock_candidates(os: Os) -> (v: Vec<&'static str>)
    ensures
        v@.map_values(|s: &str| s@) == dock_candidates_spec(os),
{
    let v = match os {
        Os::MacOs => vec![
            "/System/Applications/Utilities/Terminal.app",
            "/System/Applications/TextEdit.app",
            "/Applications/Safari.app",
        ],
        Os::Windows => vec![
            "C:\\Windows\\System32\\notepad.exe",
            "C:\\Windows\\System32\\calc.exe",
            "C:\\Program Files (x86)\\Microsoft\\Edge\\Application\\msedge.exe",
            "C:\\Program Files\\Microsoft\\Edge\\Application\\msedge.exe",
        ],
        Os::Other => vec![],
    };
    assert(v@.map_values(|s: &str| s@) =~= dock_candidates_spec(os));
    v
}

/// The items of `s` whose flag in `keep` is set, in order.
pub open spec fn pick(s: Seq<Seq<char>>, keep: Seq<bool>) -> Seq<Seq<char>>
    decreases s.len(),
{
    if s.len() == 0 || keep.len() == 0 {
        Seq::empty()
    } else {
        let rest = pick(s.drop_last(), keep.drop_last());
        if keep.last() {
            rest.push(s.last())
        } else {
            rest
        }
    }
}

/// The candidates that `present` marks as on the disk, in order.
pub fn keep_existing(cands: &Vec<&str>, present: &Vec<bool>) -> (v: Vec<String>)
    requires
        present@.len() == cands@.len(),
    ensures
        v@.map_values(|s: String| s@) == pick(cands@.map_values(|s: &str| s@), present@),
{
    let ghost cs = cands@.map_values(|s: &str| s@);
    let mut out: Vec<String> = Vec::new();
    let mut i: usize = 0;
    while i < cands.len()
        invariant
            i <= cands@.len() == present@.len(),
            cs == cands@.map_values(|s: &str| s@),
            out@.map_values(|s: String| s@) == pick(cs.take(i as int), present@.take(i as int)),
        decreases cands@.len() - i,
    {
        let ghost before = out@.map_values(|s: String| s@);
        assert(cs.take(i + 1).drop_last() == cs.take(i as int));
        assert(cs.take(i + 1).last() == cands@[i as int]@);
        assert(present@.take(i + 1).drop_last() == present@.take(i as int));
        if present[i] {
            out.push(String::from_str(cands[i]));
            assert(out@.map_values(|s: String| s@) =~= before.push(cands@[i as int]@));
        }
        i += 1;
    }
    assert(cs.take(cands@.len() as int) == cs);
    assert(present@.take(cands@.len() as int) == present@);
    out
}

/// Default Dock apps that exist on this machine, in the order of `dock_candidates`.
pub fn default_dock(os: Os) -> (v: Vec<String>)
    ensures
        exists|keep: Seq<bool>|
            keep.len() == dock_candidates_spec(os).len() && v@.map_values(|s: String| s@)
                == #[trigger] pick(dock_candidates_spec(os), keep),
{
    let c = dock_candidates(os);
    let mut present: Vec<bool> = Vec::new();
    let mut i: usize = 0;
    while i < c.len()
        invariant
            i <= c@.len(),
            present@.len() == i,
        decreases c@.len() - i,
    {
        present.push(path_exists(c[i]));
        i += 1;
    }
    keep_existing(&c, &present)
}

} // verus!
