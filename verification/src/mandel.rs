//! Mandelbrot's Knight's Tour dithering matrix: an 8×8 threshold matrix from a knight's tour of the
//! board found by Warnsdorff's rule.
use vstd::prelude::*;

verus! {

/// The Mandelbrot window's fixed frame.
pub const WIN_W: i32 = 520;

pub const WIN_H: i32 = 528;

#[derive(Clone, Copy, PartialEq, Eq, Debug, Structural)]
pub enum MBtn {
    Radio(usize),
    DepthUp,
    DepthDown,
    Reset,
    Save,
}

/// The eight knight moves, in the order they are tried.
pub open spec fn move_spec(k: int) -> (int, int) {
    if k == 0 {
        (1, 2)
    } else if k == 1 {
        (2, 1)
    } else if k == 2 {
        (2, -1)
    } else if k == 3 {
        (1, -2)
    } else if k == 4 {
        (-1, -2)
    } else if k == 5 {
        (-2, -1)
    } else if k == 6 {
        (-2, 1)
    } else {
        (-1, 2)
    }
}

fn knight_step(k: usize) -> (d: (i32, i32))
    requires
        k < 8,
    ensures
        (d.0 as int, d.1 as int) == move_spec(k as int),
{
    if k == 0 {
        (1, 2)
    } else if k == 1 {
        (2, 1)
    } else if k == 2 {
        (2, -1)
    } else if k == 3 {
        (1, -2)
    } else if k == 4 {
        (-1, -2)
    } else if k == 5 {
        (-2, -1)
    } else if k == 6 {
        (-2, 1)
    } else {
        (-1, 2)
    }
}

/// Squares `a` and `b` (numbered row by row) are a knight's move apart.
pub open spec fn knight_apart(a: int, b: int) -> bool {
    exists|k: int|
        0 <= k < 8 && #[trigger] move_spec(k) == (b % 8 - a % 8, b / 8 - a / 8)
}

pub open spec fn on_board(x: int, y: int) -> bool {
    0 <= x < 8 && 0 <= y < 8
}

/// Number of moves from (x, y) that land on an unvisited square, among the moves `0..k`.
pub open spec fn degree_upto(v: Seq<bool>, x: int, y: int, k: int) -> int
    decreases k,
{
    if k <= 0 {
        0
    } else {
        let (dx, dy) = move_spec(k - 1);
        let (nx, ny) = (x + dx, y + dy);
        degree_upto(v, x, y, k - 1) + if on_board(nx, ny) && !v[ny * 8 + nx] {
            1int
        } else {
            0int
        }
    }
}

fn degree(v: &[bool; 64], x: i32, y: i32) -> (d: usize)
    requires
        on_board(x as int, y as int),
    ensures
        d == degree_upto(v@, x as int, y as int, 8),
        d <= 8,
{
    let mut d: usize = 0;
    let mut k: usize = 0;
    while k < 8
        invariant
            k <= 8,
            on_board(x as int, y as int),
            d == degree_upto(v@, x as int, y as int, k as int),
            d <= k,
        decreases 8 - k,
    {
        let (dx, dy) = knight_step(k);
        let (nx, ny) = (x + dx, y + dy);
        if 0 <= nx && nx < 8 && 0 <= ny && ny < 8 && !v[(ny * 8 + nx) as usize] {
            d += 1;
        }
        k += 1;
    }
    d
}

/// Every value below 64 appears exactly once: a threshold matrix.
pub open spec fn is_matrix(m: Seq<u8>) -> bool {
    &&& m.len() == 64
    &&& forall|i: int| 0 <= i < 64 ==> #[trigger] m[i] < 64
    &&& forall|i: int, j: int| 0 <= i < j < 64 ==> #[trigger] m[i] != #[trigger] m[j]
}

/// Each step of the tour is a knight's move: the square holding `v` and the one holding `v + 1`.
pub open spec fn is_knight_tour(m: Seq<u8>) -> bool {
    forall|a: int, b: int|
        0 <= a < 64 && 0 <= b < 64 && #[trigger] m[b] == #[trigger] m[a] + 1 ==> knight_apart(a, b)
}

/// The fallback: the Bayer-like transposed ramp.
pub open spec fn fallback(i: int) -> int {
    ((i % 8) * 8 + i / 8) % 64
}

proof fn lemma_fallback(i: int)
    requires
        0 <= i < 64,
    ensures
        0 <= i / 8 < 8,
        0 <= i % 8 < 8,
        i == (i / 8) * 8 + i % 8,
        fallback(i) == (i % 8) * 8 + i / 8,
{
}

proof fn lemma_path_covers(path: Seq<int>)
    requires
        path.len() == 64,
        path.no_duplicates(),
        forall|k: int| 0 <= k < 64 ==> 0 <= #[trigger] path[k] < 64,
    ensures
        forall|s: int| 0 <= s < 64 ==> path.contains(s),
{
    path.unique_seq_to_set();
    vstd::set_lib::lemma_int_range(0, 64);
    let r = vstd::set_lib::set_int_range(0, 64);
    assert(path.to_set().subset_of(r));
    vstd::set_lib::lemma_len_subset(path.to_set(), r);
    vstd::set_lib::lemma_subset_equality(path.to_set(), r);
    assert forall|s: int| 0 <= s < 64 implies path.contains(s) by {
        assert(r.contains(s));
        assert(path.to_set().contains(s));
    }
}

/// Warnsdorff's choice among the moves `0..k` from (x, y): the first unvisited square on the board
/// with the fewest onward moves, with that count.
#[verifier::opaque]
pub open spec fn best_upto(v: Seq<bool>, x: int, y: int, k: int) -> Option<(int, int, int)>
    decreases k,
{
    if k <= 0 {
        None
    } else {
        let b = best_upto(v, x, y, k - 1);
        let (dx, dy) = move_spec(k - 1);
        let (nx, ny) = (x + dx, y + dy);
        if on_board(nx, ny) && !v[ny * 8 + nx] {
            let d = degree_upto(v, nx, ny, 8);
            match b {
                None => Some((d, nx, ny)),
                Some(bb) => if d < bb.0 { Some((d, nx, ny)) } else { b },
            }
        } else {
            b
        }
    }
}

/// The walk from (x, y) at move `step`, with squares `v` visited and `ord` the move number of each:
/// the finished numbering, or `None` where it gets stuck before all 64 squares.
pub open spec fn walk(v: Seq<bool>, ord: Seq<u8>, x: int, y: int, step: int) -> Option<Seq<u8>>
    decreases 64 - step,
{
    if step >= 64 {
        Some(ord)
    } else {
        match best_upto(v, x, y, 8) {
            None => None,
            Some((_, nx, ny)) => walk(v.update(ny * 8 + nx, true), ord.update(ny * 8 + nx, step as u8), nx, ny, step + 1),
        }
    }
}

/// Warnsdorff's walk from square `s`.
pub open spec fn tour_from(s: int) -> Option<Seq<u8>> {
    walk(Seq::new(64, |i: int| false).update(s, true), Seq::new(64, |i: int| 0u8).update(s, 0u8), s % 8, s / 8, 1)
}

/// The walk from the first start square, counting from `s`, that completes.
pub open spec fn search_from(s: int) -> Option<Seq<u8>>
    decreases 64 - s,
{
    if s >= 64 {
        None
    } else {
        match tour_from(s) {
            Some(o) => Some(o),
            None => search_from(s + 1),
        }
    }
}

/// One more move tried: how `best_upto` grows.
proof fn lemma_best_step(v: Seq<bool>, x: int, y: int, k: int)
    requires
        0 <= k,
    ensures
        best_upto(v, x, y, 0) is None,
        best_upto(v, x, y, k + 1) == ({
            let b = best_upto(v, x, y, k);
            let (dx, dy) = move_spec(k);
            let (nx, ny) = (x + dx, y + dy);
            if on_board(nx, ny) && !v[ny * 8 + nx] {
                let d = degree_upto(v, nx, ny, 8);
                match b {
                    None => Some((d, nx, ny)),
                    Some(bb) => if d < bb.0 { Some((d, nx, ny)) } else { b },
                }
            } else {
                b
            }
        }),
{
    reveal(best_upto);
}

#[verifier::rlimit(60)]
fn warnsdorff(visited: &[bool; 64], x: i32, y: i32) -> (best: Option<(usize, i32, i32)>)
    requires
        on_board(x as int, y as int),
    ensures
        match best {
            None => best_upto(visited@, x as int, y as int, 8) is None,
            Some(b) => best_upto(visited@, x as int, y as int, 8) == Some((b.0 as int, b.1 as int, b.2 as int)),
        },
        best matches Some(b) ==> on_board(b.1 as int, b.2 as int) && !visited@[b.2 * 8 + b.1]
            && knight_apart(y * 8 + x, b.2 * 8 + b.1),
{
    let mut best: Option<(usize, i32, i32)> = None;
    let mut k: usize = 0;
    proof {
        lemma_best_step(visited@, x as int, y as int, 0);
    }
    while k < 8
        invariant
            k <= 8,
            on_board(x as int, y as int),
            match best {
                None => best_upto(visited@, x as int, y as int, k as int) is None,
                Some(b) => best_upto(visited@, x as int, y as int, k as int) == Some((b.0 as int, b.1 as int, b.2 as int)),
            },
            best matches Some(b) ==> on_board(b.1 as int, b.2 as int) && !visited@[b.2 * 8 + b.1]
                && knight_apart(y * 8 + x, b.2 * 8 + b.1),
        decreases 8 - k,
    {
        proof {
            lemma_best_step(visited@, x as int, y as int, k as int);
        }
        let (dx, dy) = knight_step(k);
        let (nx, ny) = (x + dx, y + dy);
        if 0 <= nx && nx < 8 && 0 <= ny && ny < 8 && !visited[(ny * 8 + nx) as usize] {
            let d = degree(visited, nx, ny);
            let better = match best {
                None => true,
                Some((bd, _, _)) => d < bd,
            };
            if better {
                proof {
                    let a = y * 8 + x;
                    let b = ny * 8 + nx;
                    assert(b % 8 == nx && b / 8 == ny);
                    assert(a % 8 == x && a / 8 == y);
                    assert(move_spec(k as int) == (b % 8 - a % 8, b / 8 - a / 8));
                }
                best = Some((d, nx, ny));
            }
        }
        k += 1;
    }
    best
}

/// Threshold matrix from a knight's tour of the 8×8 board (Warnsdorff's rule from the first start
/// square that completes; the transposed ramp if none does).
pub fn knights_tour() -> (m: [u8; 64])
    ensures
        is_matrix(m@),
        is_knight_tour(m@) || (forall|i: int| 0 <= i < 64 ==> m@[i] == fallback(i)),
        match search_from(0) {
            Some(o) => m@ == o,
            None => forall|i: int| 0 <= i < 64 ==> m@[i] == fallback(i),
        },
{
    let mut start: i32 = 0;
    while start < 64
        invariant
            0 <= start <= 64,
            search_from(0) == search_from(start as int),
        decreases 64 - start,
    {
        let mut visited = [false; 64];
        let mut order = [0u8; 64];
        let mut x = start % 8;
        let mut y = start / 8;
        visited[start as usize] = true;
        order[start as usize] = 0;
        let ghost mut path: Seq<int> = seq![start as int];
        let mut ok = true;
        let mut step: u8 = 1;
        assert(visited@ =~= Seq::new(64, |i: int| false).update(start as int, true));
        assert(order@ =~= Seq::new(64, |i: int| 0u8).update(start as int, 0u8));
        proof {
            assert forall|s: int| 0 <= s < 64 implies (visited@[s] <==> path.contains(s)) by {
                if s == start {
                    assert(path[0] == s);
                }
            }
        }
        while step < 64
            invariant_except_break
                ok,
            invariant
                1 <= step <= 64,
                0 <= start < 64,
                ok ==> walk(visited@, order@, x as int, y as int, step as int) == tour_from(start as int),
                on_board(x as int, y as int),
                path.len() == step,
                path.no_duplicates(),
                path.last() == y * 8 + x,
                forall|k: int| 0 <= k < path.len() ==> 0 <= #[trigger] path[k] < 64,
                forall|s: int| 0 <= s < 64 ==> (visited@[s] <==> path.contains(s)),
                forall|k: int| 0 <= k < path.len() ==> order@[#[trigger] path[k]] == k,
                forall|k: int| 0 <= k < path.len() - 1 ==> knight_apart(#[trigger] path[k], path[k + 1]),
            ensures
                ok ==> tour_from(start as int) == Some(order@),
                !ok ==> tour_from(start as int) is None,
                ok ==> step == 64 && path.len() == 64 && path.no_duplicates()
                    && (forall|k: int| 0 <= k < path.len() ==> 0 <= #[trigger] path[k] < 64)
                    && (forall|k: int| 0 <= k < path.len() ==> order@[#[trigger] path[k]] == k)
                    && (forall|k: int| 0 <= k < path.len() - 1 ==> knight_apart(#[trigger] path[k], path[k + 1])),
            decreases 64 - step,
        {
            let best = warnsdorff(&visited, x, y);
            match best {
                Some((_, nx, ny)) => {
                    let ghost prev = path;
                    let ghost v0 = visited@;
                    let ghost o0 = order@;
                    let ghost (x0, y0) = (x as int, y as int);
                    x = nx;
                    y = ny;
                    let sq = (y * 8 + x) as usize;
                    visited[sq] = true;
                    order[sq] = step;
                    proof {
                        assert(walk(v0, o0, x0, y0, step as int) == walk(visited@, order@, x as int, y as int, step + 1));
                        path = path.push(sq as int);
                        assert forall|s: int| 0 <= s < 64 implies (visited@[s] <==> path.contains(s)) by {
                            if s == sq {
                                assert(path[path.len() - 1] == s);
                            } else if prev.contains(s) {
                                let k = choose|k: int| 0 <= k < prev.len() && prev[k] == s;
                                assert(path[k] == s);
                            } else if path.contains(s) {
                                let k = choose|k: int| 0 <= k < path.len() && path[k] == s;
                                if k < prev.len() {
                                    assert(prev[k] == s);
                                }
                            }
                        }
                        assert(!prev.contains(sq as int));
                        assert forall|i: int, j: int| 0 <= i < path.len() && 0 <= j < path.len() && i != j implies path[i] != path[j] by {
                            if i < prev.len() && j < prev.len() {
                                assert(prev[i] != prev[j]);
                            } else if i < prev.len() {
                                assert(prev.contains(path[i]));
                            } else if j < prev.len() {
                                assert(prev.contains(path[j]));
                            }
                        }
                        assert forall|k: int| 0 <= k < path.len() implies order@[#[trigger] path[k]] == k by {
                            if k < prev.len() {
                                assert(prev[k] != sq);
                                assert(prev.contains(prev[k]));
                            }
                        }
                        assert forall|k: int| 0 <= k < path.len() - 1 implies knight_apart(#[trigger] path[k], path[k + 1]) by {
                            if k < prev.len() - 1 {
                                assert(path[k] == prev[k] && path[k + 1] == prev[k + 1]);
                            } else {
                                assert(path[k] == prev.last());
                            }
                        }
                    }
                },
                None => {
                    assert(walk(visited@, order@, x as int, y as int, step as int) is None);
                    ok = false;
                    break;
                },
            }
            step += 1;
        }
        proof {
            if ok {
                assert(walk(visited@, order@, x as int, y as int, 64) == Some(order@));
            }
        }
        if ok {
            proof {
                lemma_path_covers(path);
                assert forall|i: int| 0 <= i < 64 implies #[trigger] order@[i] < 64 by {
                    assert(path.contains(i));
                    let k = choose|k: int| 0 <= k < path.len() && path[k] == i;
                }
                assert forall|i: int, j: int| 0 <= i < j < 64 implies #[trigger] order@[i] != #[trigger] order@[j] by {
                    assert(path.contains(i));
                    assert(path.contains(j));
                    let ki = choose|k: int| 0 <= k < path.len() && path[k] == i;
                    let kj = choose|k: int| 0 <= k < path.len() && path[k] == j;
                }
                assert forall|a: int, b: int| 0 <= a < 64 && 0 <= b < 64 && #[trigger] order@[b] == #[trigger] order@[a] + 1 implies knight_apart(a, b) by {
                    assert(path.contains(a));
                    assert(path.contains(b));
                    let ka = choose|k: int| 0 <= k < path.len() && path[k] == a;
                    let kb = choose|k: int| 0 <= k < path.len() && path[k] == b;
                    assert(kb == ka + 1);
                }
            }
            return order;
        }
        start += 1;
    }
    assert(search_from(64) is None);
    let mut m = [0u8; 64];
    let mut i: usize = 0;
    while i < 64
        invariant
            i <= 64,
            forall|j: int| 0 <= j < i ==> m@[j] == fallback(j),
        decreases 64 - i,
    {
        m[i] = (((i % 8) * 8 + i / 8) % 64) as u8;
        i += 1;
    }
    proof {
        assert forall|i: int| 0 <= i < 64 implies #[trigger] m@[i] < 64 by {
            lemma_fallback(i);
        }
        assert forall|i: int, j: int| 0 <= i < j < 64 implies #[trigger] m@[i] != #[trigger] m@[j] by {
            lemma_fallback(i);
            lemma_fallback(j);
        }
    }
    m
}

} // verus!
