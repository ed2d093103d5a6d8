//! The Workspace's windows on the Screen: which one is key, how they stack, and where the
//! miniaturized ones wait along the bottom edge. What a window does when it opens (listing a
//! folder, starting a shell) happens around this module.
use vstd::prelude::*;
use crate::chrome::{Win, WinKind, WinPart};
use crate::geom::{div2, fits, half, larger, rect, Pt, Rect};
use crate::workspace::{Alert, Pending};
use crate::state::{WinState, Windows};
use crate::chrome::{BTN_H, RESIZE_H, SCROLL_W, TITLE_H};
use crate::workspace::{kinds, lemma_slots, slot_of, wi};

verus! {

pub struct Desk {
    /// One window per kind that has a slot, in slot order.
    pub wins: Vec<Win>,
    pub key: Option<WinKind>,
    /// The stacking counter: the window brought forward last has this `z`.
    pub zc: u32,
    /// Windows activated explicitly since the front end last asked, oldest first, each once.
    pub activations: Vec<WinKind>,
}

/// A window that can take the key when `excl` gives it up: shown, and neither `excl` nor the
/// alert panel.
pub open spec fn eligible(w: Win, excl: WinKind) -> bool {
    w.visible && w.mini is None && w.kind != excl && w.kind != WinKind::Alert
}

/// The topmost eligible window among the first `n`: the highest `z`, the later one of equals.
pub open spec fn top_upto(wins: Seq<Win>, excl: WinKind, n: int) -> Option<int>
    decreases n,
{
    if n <= 0 {
        None
    } else {
        let b = top_upto(wins, excl, n - 1);
        if eligible(wins[n - 1], excl) && (b is None || wins[n - 1].z >= wins[b->0].z) {
            Some(n - 1)
        } else {
            b
        }
    }
}

/// The window that becomes key when `excl` gives the key up.
pub open spec fn next_key(wins: Seq<Win>, excl: WinKind) -> Option<WinKind> {
    match top_upto(wins, excl, wins.len() as int) {
        Some(i) => Some(wins[i].kind),
        None => None,
    }
}

/// How many of the first `n` windows are miniaturized.
pub open spec fn minis_upto(wins: Seq<Win>, n: int) -> nat
    decreases n,
{
    if n <= 0 {
        0
    } else {
        minis_upto(wins, n - 1) + if wins[n - 1].mini is Some { 1nat } else { 0nat }
    }
}

/// The miniwindows numbered again from 0, in window order.
pub open spec fn repacked(wins: Seq<Win>) -> Seq<Win> {
    Seq::new(
        wins.len(),
        |i: int|
            if wins[i].mini is Some {
                Win { mini: Some(minis_upto(wins, i) as usize), ..wins[i] }
            } else {
                wins[i]
            },
    )
}

/// The miniwindows take the slots `0..m` along the bottom, one each.
pub open spec fn packed(wins: Seq<Win>) -> bool {
    &&& forall|i: int| 0 <= i < wins.len() && wins[i].mini is Some ==> (#[trigger] wins[i].mini)->0 < minis_upto(wins, wins.len() as int)
    &&& forall|i: int, j: int|
        0 <= i < j < wins.len() && wins[i].mini is Some && wins[j].mini is Some ==> #[trigger] wins[i].mini
            != #[trigger] wins[j].mini
}

/// The topmost shown window (the alert panel aside) whose frame holds `p`: the highest `z`, the
/// earlier one of equals.
pub open spec fn hit_upto(wins: Seq<Win>, p: Pt, n: int) -> Option<int>
    decreases n,
{
    if n <= 0 {
        None
    } else {
        let b = hit_upto(wins, p, n - 1);
        let w = wins[n - 1];
        if w.visible && w.mini is None && w.kind != WinKind::Alert && w.r.has(p) && (b is None
            || w.z > wins[b->0].z) {
            Some(n - 1)
        } else {
            b
        }
    }
}

proof fn lemma_top_upto(wins: Seq<Win>, excl: WinKind, n: int)
    requires
        0 <= n <= wins.len(),
    ensures
        top_upto(wins, excl, n) matches Some(i) ==> 0 <= i < n && eligible(wins[i], excl)
            && (forall|j: int| 0 <= j < n && eligible(wins[j], excl) ==> wins[j].z <= wins[i].z),
        top_upto(wins, excl, n) is None ==> forall|j: int| 0 <= j < n ==> !eligible(wins[j], excl),
    decreases n,
{
    if n > 0 {
        lemma_top_upto(wins, excl, n - 1);
    }
}

proof fn lemma_hit_upto(wins: Seq<Win>, p: Pt, n: int)
    requires
        0 <= n <= wins.len(),
    ensures
        hit_upto(wins, p, n) matches Some(i) ==> 0 <= i < n,
    decreases n,
{
    if n > 0 {
        lemma_hit_upto(wins, p, n - 1);
    }
}

proof fn lemma_minis_bound(wins: Seq<Win>, n: int)
    requires
        0 <= n <= wins.len(),
    ensures
        minis_upto(wins, n) <= n,
    decreases n,
{
    if n > 0 {
        lemma_minis_bound(wins, n - 1);
    }
}

proof fn lemma_minis_mono(wins: Seq<Win>, a: int, b: int)
    requires
        0 <= a <= b <= wins.len(),
    ensures
        minis_upto(wins, a) <= minis_upto(wins, b),
        a < b && wins[a].mini is Some ==> minis_upto(wins, a) < minis_upto(wins, b),
    decreases b - a,
{
    if a < b {
        lemma_minis_mono(wins, a, b - 1);
        if a < b - 1 {
            lemma_minis_mono(wins, a + 1, b);
        }
    }
}

/// Changing a window's fields other than `mini` changes no count of miniwindows.
proof fn lemma_minis_same(a: Seq<Win>, b: Seq<Win>, n: int)
    requires
        0 <= n <= a.len(),
        a.len() == b.len(),
        forall|i: int| 0 <= i < a.len() ==> (#[trigger] a[i].mini is Some) == b[i].mini is Some,
    ensures
        minis_upto(a, n) == minis_upto(b, n),
    decreases n,
{
    if n > 0 {
        lemma_minis_same(a, b, n - 1);
    }
}

/// Numbering the miniwindows again packs them.
proof fn lemma_repacked_is_packed(w: Seq<Win>)
    requires
        w.len() <= usize::MAX,
    ensures
        packed(repacked(w)),
{
    let r = repacked(w);
    assert forall|i: int| 0 <= i < r.len() implies (#[trigger] r[i].mini is Some) == w[i].mini is Some by {}
    lemma_minis_same(r, w, r.len() as int);
    assert forall|i: int| 0 <= i < r.len() && r[i].mini is Some implies (#[trigger] r[i].mini)->0 < minis_upto(r, r.len() as int) by {
        assert(r[i].mini == Some(minis_upto(w, i) as usize));
        lemma_minis_mono(w, i, w.len() as int);
        lemma_minis_bound(w, i);
    }
    assert forall|i: int, j: int| 0 <= i < j < r.len() && r[i].mini is Some && r[j].mini is Some implies #[trigger] r[i].mini
        != #[trigger] r[j].mini by {
        assert(w[i].mini is Some && w[j].mini is Some);
        assert(r[i].mini == Some(minis_upto(w, i) as usize));
        assert(r[j].mini == Some(minis_upto(w, j) as usize));
        lemma_minis_mono(w, i, j);
        lemma_minis_bound(w, j);
        lemma_minis_bound(w, i);
    }
}

/// Packing depends on the miniwindow slots alone.
proof fn lemma_packed_keeps(a: Seq<Win>, b: Seq<Win>)
    requires
        packed(a),
        a.len() == b.len(),
        forall|i: int| 0 <= i < a.len() ==> (#[trigger] b[i]).mini == a[i].mini,
    ensures
        packed(b),
{
    assert forall|i: int| 0 <= i < a.len() implies (#[trigger] a[i].mini is Some) == b[i].mini is Some by {}
    lemma_minis_same(a, b, a.len() as int);
    assert forall|i: int| 0 <= i < b.len() && b[i].mini is Some implies (#[trigger] b[i].mini)->0 < minis_upto(b, b.len() as int) by {
        assert(a[i].mini == b[i].mini);
    }
    assert forall|i: int, j: int| 0 <= i < j < b.len() && b[i].mini is Some && b[j].mini is Some implies #[trigger] b[i].mini
        != #[trigger] b[j].mini by {
        assert(a[i].mini == b[i].mini);
        assert(a[j].mini == b[j].mini);
    }
}

impl Desk {
    /// One window per slot, in slot order, none stacked above the counter.
    pub open spec fn ok(&self) -> bool {
        &&& self.wins@.len() == kinds().len()
        &&& forall|i: int| 0 <= i < kinds().len() ==> (#[trigger] self.wins@[i]).kind == kinds()[i]
        &&& forall|i: int| 0 <= i < self.wins@.len() ==> (#[trigger] self.wins@[i]).z <= self.zc
    }

    pub open spec fn win_spec(&self, k: WinKind) -> Win {
        self.wins@[slot_of(k)]
    }

    /// Every window's geometry and every Screen size used stay inside an `i32`.
    pub open spec fn geom_ok(&self) -> bool {
        forall|i: int| 0 <= i < self.wins@.len() ==> (#[trigger] self.wins@[i]).geom_fits()
    }

    pub fn win(&self, k: WinKind) -> (w: &Win)
        requires
            self.ok(),
        ensures
            *w == self.win_spec(k),
    {
        &self.wins[wi(k)]
    }

    fn set_z(&mut self, i: usize, z: u32)
        requires
            i < old(self).wins@.len(),
        ensures
            final(self).wins@ == old(self).wins@.update(i as int, Win { z, ..old(self).wins@[i as int] }),
            final(self).key == old(self).key,
            final(self).zc == old(self).zc,
            final(self).activations == old(self).activations,
    {
        let mut w = self.wins.remove(i);
        w.z = z;
        self.wins.insert(i, w);
        assert(self.wins@ =~= old(self).wins@.update(i as int, Win { z, ..old(self).wins@[i as int] }));
    }

    fn set_mini(&mut self, i: usize, m: Option<usize>)
        requires
            i < old(self).wins@.len(),
        ensures
            final(self).wins@ == old(self).wins@.update(i as int, Win { mini: m, ..old(self).wins@[i as int] }),
            final(self).key == old(self).key,
            final(self).zc == old(self).zc,
            final(self).activations == old(self).activations,
    {
        let mut w = self.wins.remove(i);
        w.mini = m;
        self.wins.insert(i, w);
        assert(self.wins@ =~= old(self).wins@.update(i as int, Win { mini: m, ..old(self).wins@[i as int] }));
    }

    fn set_visible(&mut self, i: usize, v: bool)
        requires
            i < old(self).wins@.len(),
        ensures
            final(self).wins@ == old(self).wins@.update(i as int, Win { visible: v, ..old(self).wins@[i as int] }),
            final(self).key == old(self).key,
            final(self).zc == old(self).zc,
            final(self).activations == old(self).activations,
    {
        let mut w = self.wins.remove(i);
        w.visible = v;
        self.wins.insert(i, w);
        assert(self.wins@ =~= old(self).wins@.update(i as int, Win { visible: v, ..old(self).wins@[i as int] }));
    }

    /// Brings window `k` to the front of the stack.
    pub fn front(&mut self, k: WinKind)
        requires
            old(self).ok(),
            old(self).zc < u32::MAX,
        ensures
            final(self).ok(),
            final(self).zc == old(self).zc + 1,
            final(self).wins@ == old(self).wins@.update(slot_of(k), Win { z: final(self).zc, ..old(self).win_spec(k) }),
            final(self).key == old(self).key,
            final(self).activations == old(self).activations,
            forall|i: int| 0 <= i < final(self).wins@.len() && i != slot_of(k) ==> #[trigger] final(self).wins@[i].z < final(self).win_spec(k).z,
    {
        proof {
            lemma_slots(k);
        }
        self.zc = self.zc + 1;
        let i = wi(k);
        let z = self.zc;
        self.set_z(i, z);
    }

    /// Makes `k` the key window, in front of the others.
    pub fn make_key(&mut self, k: WinKind)
        requires
            old(self).ok(),
            old(self).zc < u32::MAX,
        ensures
            final(self).ok(),
            final(self).zc == old(self).zc + 1,
            final(self).wins@ == old(self).wins@.update(slot_of(k), Win { z: final(self).zc, ..old(self).win_spec(k) }),
            final(self).key == Some(k),
            final(self).activations == old(self).activations,
    {
        self.front(k);
        self.key = Some(k);
    }

    /// An explicit activation: `k` becomes key, and is queued (once, last) for the front end to
    /// raise its OS window. Focus notifications from the OS use `make_key` alone.
    pub fn activate(&mut self, k: WinKind)
        requires
            old(self).ok(),
            old(self).zc < u32::MAX,
        ensures
            final(self).ok(),
            final(self).zc == old(self).zc + 1,
            final(self).wins@ == old(self).wins@.update(slot_of(k), Win { z: final(self).zc, ..old(self).win_spec(k) }),
            final(self).key == Some(k),
            final(self).activations@ == old(self).activations@.filter(|x: WinKind| x != k).push(k),
    {
        self.make_key(k);
        let mut rest: Vec<WinKind> = Vec::new();
        let mut i: usize = 0;
        while i < self.activations.len()
            invariant
                i <= self.activations@.len(),
                self.activations == old(self).activations,
                rest@ == self.activations@.take(i as int).filter(|x: WinKind| x != k),
            decreases self.activations@.len() - i,
        {
            let a = self.activations[i];
            proof {
                let t = self.activations@.take(i + 1);
                assert(t.drop_last() =~= self.activations@.take(i as int));
                assert(t.last() == a);
                reveal(Seq::filter);
            }
            if a != k {
                rest.push(a);
            }
            i += 1;
        }
        assert(self.activations@.take(self.activations@.len() as int) =~= self.activations@);
        rest.push(k);
        self.activations = rest;
    }

    /// The windows activated since the last call, oldest first.
    pub fn take_activations(&mut self) -> (a: Vec<WinKind>)
        ensures
            a@ == old(self).activations@,
            final(self).activations@.len() == 0,
            final(self).wins == old(self).wins,
            final(self).key == old(self).key,
            final(self).zc == old(self).zc,
    {
        let mut out: Vec<WinKind> = Vec::new();
        std::mem::swap(&mut out, &mut self.activations);
        out
    }

    /// The key window went away: the topmost remaining shown window takes the key.
    pub fn drop_key(&mut self, k: WinKind)
        requires
            old(self).ok(),
        ensures
            final(self).ok(),
            final(self).wins == old(self).wins,
            final(self).zc == old(self).zc,
            final(self).activations == old(self).activations,
            final(self).key == (if old(self).key == Some(k) { next_key(old(self).wins@, k) } else { old(self).key }),
    {
        if self.key != Some(k) {
            return;
        }
        let mut best: Option<usize> = None;
        let mut i: usize = 0;
        while i < self.wins.len()
            invariant
                i <= self.wins@.len(),
                self.wins == old(self).wins,
                best matches Some(b) ==> b < i,
                (match best {
                    Some(b) => Some(b as int),
                    None => None::<int>,
                }) == top_upto(self.wins@, k, i as int),
            decreases self.wins@.len() - i,
        {
            let w = &self.wins[i];
            if w.shown() && w.kind != k && w.kind != WinKind::Alert {
                let better = match best {
                    None => true,
                    Some(b) => w.z >= self.wins[b].z,
                };
                if better {
                    best = Some(i);
                }
            }
            i += 1;
        }
        self.key = match best {
            Some(b) => Some(self.wins[b].kind),
            None => None,
        };
    }

    /// Closes window `k` (the alert panel closes only through its buttons).
    pub fn close(&mut self, k: WinKind)
        requires
            old(self).ok(),
        ensures
            final(self).ok(),
            k == WinKind::Alert ==> *final(self) == *old(self),
            k != WinKind::Alert ==> {
                let w = Win { visible: false, mini: None::<usize>, ..old(self).win_spec(k) };
                &&& final(self).wins@ == old(self).wins@.update(slot_of(k), w)
                &&& final(self).key == (if old(self).key == Some(k) {
                    next_key(old(self).wins@.update(slot_of(k), w), k)
                } else {
                    old(self).key
                })
            },
            final(self).zc == old(self).zc,
            final(self).activations == old(self).activations,
    {
        if k == WinKind::Alert {
            return;
        }
        proof {
            lemma_slots(k);
        }
        let i = wi(k);
        self.set_visible(i, false);
        self.set_mini(i, None);
        assert(self.wins@ =~= old(self).wins@.update(slot_of(k), Win { visible: false, mini: None::<usize>, ..old(self).win_spec(k) }));
        self.drop_key(k);
    }

    /// How many windows are miniaturized.
    fn minis(&self) -> (n: usize)
        ensures
            n == minis_upto(self.wins@, self.wins@.len() as int),
    {
        let mut n: usize = 0;
        let mut i: usize = 0;
        while i < self.wins.len()
            invariant
                i <= self.wins@.len(),
                n == minis_upto(self.wins@, i as int),
            decreases self.wins@.len() - i,
        {
            proof {
                lemma_minis_bound(self.wins@, i as int);
            }
            if self.wins[i].mini.is_some() {
                n += 1;
            }
            i += 1;
        }
        n
    }

    /// Miniaturizes window `k` into the slot after the others, and gives its key away.
    pub fn miniaturize(&mut self, k: WinKind)
        requires
            old(self).ok(),
        ensures
            final(self).ok(),
            (old(self).win_spec(k).mini is Some || !old(self).win_spec(k).visible || k == WinKind::Alert)
                ==> *final(self) == *old(self),
            !(old(self).win_spec(k).mini is Some || !old(self).win_spec(k).visible || k == WinKind::Alert) ==> {
                let m = minis_upto(old(self).wins@, old(self).wins@.len() as int);
                let w = Win { mini: Some(m as usize), ..old(self).win_spec(k) };
                &&& final(self).wins@ == old(self).wins@.update(slot_of(k), w)
                &&& final(self).key == (if old(self).key == Some(k) {
                    next_key(old(self).wins@.update(slot_of(k), w), k)
                } else {
                    old(self).key
                })
            },
            final(self).zc == old(self).zc,
            final(self).activations == old(self).activations,
    {
        proof {
            lemma_slots(k);
        }
        let i = wi(k);
        if self.wins[i].mini.is_some() || !self.wins[i].visible || k == WinKind::Alert {
            return;
        }
        let slot = self.minis();
        self.set_mini(i, Some(slot));
        self.drop_key(k);
    }

    /// Numbers the miniwindows again from 0, in window order.
    fn repack(&mut self)
        requires
            old(self).ok(),
        ensures
            final(self).ok(),
            final(self).wins@ == repacked(old(self).wins@),
            final(self).key == old(self).key,
            final(self).zc == old(self).zc,
            final(self).activations == old(self).activations,
    {
        let ghost orig = self.wins@;
        let mut n: usize = 0;
        let mut i: usize = 0;
        while i < self.wins.len()
            invariant
                i <= self.wins@.len(),
                self.wins@.len() == orig.len(),
                orig.len() == kinds().len(),
                n == minis_upto(orig, i as int),
                forall|j: int| 0 <= j < i ==> #[trigger] self.wins@[j] == repacked(orig)[j],
                forall|j: int| i <= j < orig.len() ==> #[trigger] self.wins@[j] == orig[j],
                self.key == old(self).key,
                self.zc == old(self).zc,
                self.activations == old(self).activations,
                orig == old(self).wins@,
            decreases orig.len() - i,
        {
            proof {
                lemma_minis_bound(orig, i as int);
            }
            if self.wins[i].mini.is_some() {
                self.set_mini(i, Some(n));
                n += 1;
            }
            i += 1;
        }
        assert(self.wins@ =~= repacked(orig));
    }

    /// Brings a miniaturized window `k` back: the others close ranks, and `k` becomes key.
    pub fn restore(&mut self, k: WinKind)
        requires
            old(self).ok(),
            old(self).zc < u32::MAX,
        ensures
            final(self).ok(),
            old(self).win_spec(k).mini is None ==> *final(self) == *old(self),
            old(self).win_spec(k).mini is Some ==> {
                let back = repacked(old(self).wins@.update(slot_of(k), Win { mini: None::<usize>, ..old(self).win_spec(k) }));
                &&& final(self).wins@ == back.update(slot_of(k), Win { z: final(self).zc, ..back[slot_of(k)] })
                &&& final(self).key == Some(k)
                &&& final(self).zc == old(self).zc + 1
                &&& final(self).activations@ == old(self).activations@.filter(|x: WinKind| x != k).push(k)
            },
            old(self).win_spec(k).mini is Some ==> packed(final(self).wins@),
    {
        proof {
            lemma_slots(k);
        }
        let i = wi(k);
        if self.wins[i].mini.is_none() {
            return;
        }
        self.set_mini(i, None);
        let ghost x = self.wins@;
        self.repack();
        let ghost back = self.wins@;
        self.activate(k);
        proof {
            lemma_repacked_is_packed(x);
            lemma_packed_keeps(back, self.wins@);
        }
    }

    fn set_frame(&mut self, i: usize, sw: i32, sh: i32, center: bool)
        requires
            i < old(self).wins@.len(),
            old(self).wins@[i as int].clamp_fits(sw as int, sh as int),
            center ==> fits(sw - old(self).wins@[i as int].r.w),
        ensures
            final(self).wins@ == old(self).wins@.update(
                i as int,
                Win { r: framed(old(self).wins@[i as int].r, sw as int, sh as int, center), ..old(self).wins@[i as int] },
            ),
            final(self).key == old(self).key,
            final(self).zc == old(self).zc,
            final(self).activations == old(self).activations,
    {
        let mut w = self.wins.remove(i);
        w.clamp(sw, sh);
        if center {
            let d = sw - w.r.w;
            w.r.x = crate::geom::div2(d);
        }
        self.wins.insert(i, w);
        assert(self.wins@ =~= old(self).wins@.update(
            i as int,
            Win { r: framed(old(self).wins@[i as int].r, sw as int, sh as int, center), ..old(self).wins@[i as int] },
        ));
    }

    /// Shows window `k` on a Screen of `sw`×`sh`: back from its miniwindow if it was one, kept on
    /// the Screen (the Info panel centred across it), in front, and key.
    pub fn show(&mut self, k: WinKind, sw: i32, sh: i32)
        requires
            old(self).ok(),
            old(self).zc < u32::MAX - 1,
            old(self).win_spec(k).clamp_fits(sw as int, sh as int),
            k == WinKind::Info ==> fits(sw - old(self).win_spec(k).r.w),
        ensures
            final(self).ok(),
            final(self).key == Some(k),
            final(self).win_spec(k).visible,
            final(self).win_spec(k).mini is None,
            final(self).win_spec(k).r == framed(old(self).win_spec(k).r, sw as int, sh as int, k == WinKind::Info),
            forall|i: int| 0 <= i < final(self).wins@.len() && i != slot_of(k) ==> #[trigger] final(self).wins@[i].z
                < final(self).win_spec(k).z,
            forall|i: int| 0 <= i < final(self).wins@.len() && i != slot_of(k) ==> (#[trigger] final(self).wins@[i]).visible
                == old(self).wins@[i].visible && final(self).wins@[i].r == old(self).wins@[i].r,
            old(self).win_spec(k).mini is Some ==> packed(final(self).wins@),
            final(self).activations@ == old(self).activations@.filter(|x: WinKind| x != k).push(k),
    {
        proof {
            lemma_slots(k);
        }
        let i = wi(k);
        let ghost w0 = self.wins@;
        let ghost a0 = self.activations@;
        if self.wins[i].mini.is_some() {
            self.restore(k);
        }
        let ghost w1 = self.wins@;
        assert(forall|j: int| 0 <= j < w1.len() ==> (#[trigger] w1[j]).visible == w0[j].visible && w1[j].r == w0[j].r);
        self.set_visible(i, true);
        self.set_frame(i, sw, sh, k == WinKind::Info);
        let ghost w2 = self.wins@;
        proof {
            if w0[i as int].mini is Some {
                lemma_packed_keeps(w1, w2);
            }
        }
        self.activate(k);
        proof {
            if w0[i as int].mini is Some {
                lemma_packed_keeps(w2, self.wins@);
                lemma_filter_push_other(a0.filter(|x: WinKind| x != k), k);
                lemma_filter_twice(a0, k);
            }
        }
    }

    /// Raises a shown window `k` to the front, as the OS did when it was clicked.
    pub fn raise(&mut self, k: WinKind)
        requires
            old(self).ok(),
            old(self).zc < u32::MAX,
        ensures
            final(self).ok(),
            !(old(self).win_spec(k).visible && old(self).win_spec(k).mini is None) ==> *final(self) == *old(self),
            old(self).win_spec(k).visible && old(self).win_spec(k).mini is None ==> final(self).wins@ == old(self).wins@.update(
                slot_of(k),
                Win { z: final(self).zc, ..old(self).win_spec(k) },
            ) && final(self).zc == old(self).zc + 1,
            final(self).key == old(self).key,
    {
        if self.win(k).shown() {
            self.front(k);
        }
    }

    /// The topmost shown window under `p` (the alert panel aside) and the part of it there.
    pub fn win_hit(&self, p: Pt) -> (r: Option<(WinKind, WinPart)>)
        requires
            self.ok(),
            self.geom_ok(),
        ensures
            r == (match hit_upto(self.wins@, p, self.wins@.len() as int) {
                Some(i) => match self.wins@[i].hit_spec(p) {
                    Some(part) => Some((self.wins@[i].kind, part)),
                    None => None,
                },
                None => None,
            }),
    {
        let mut best: Option<usize> = None;
        let mut i: usize = 0;
        while i < self.wins.len()
            invariant
                i <= self.wins@.len(),
                self.geom_ok(),
                best matches Some(b) ==> b < i,
                (match best {
                    Some(b) => Some(b as int),
                    None => None::<int>,
                }) == hit_upto(self.wins@, p, i as int),
            decreases self.wins@.len() - i,
        {
            let w = &self.wins[i];
            assert(w.geom_fits());
            if w.shown() && w.kind != WinKind::Alert && w.r.contains(p) {
                let better = match best {
                    None => true,
                    Some(b) => w.z > self.wins[b].z,
                };
                if better {
                    best = Some(i);
                }
            }
            i += 1;
        }
        match best {
            Some(b) => {
                let w = &self.wins[b];
                assert(w.geom_fits());
                match w.hit(p) {
                    Some(part) => Some((w.kind, part)),
                    None => None,
                }
            },
            None => None,
        }
    }
}

/// The windows Arrange in Front brings forward: the shown ones, the alert panel aside.
pub open spec fn arranged(w: Win) -> bool {
    w.visible && w.mini is None && w.kind != WinKind::Alert
}

/// Where index `j` stands in `o`, or -1.
pub open spec fn index_in(o: Seq<usize>, j: int) -> int {
    if o.contains(j as usize) {
        choose|s: int| 0 <= s < o.len() && o[s] == j as usize
    } else {
        -1
    }
}

pub open spec fn distinct(o: Seq<usize>) -> bool {
    forall|s: int, t: int| 0 <= s < t < o.len() ==> #[trigger] o[s] != #[trigger] o[t]
}

proof fn lemma_index_in(o: Seq<usize>, s: int)
    requires
        distinct(o),
        0 <= s < o.len(),
    ensures
        index_in(o, o[s] as int) == s,
{
    assert(o.contains(o[s]));
    let t = index_in(o, o[s] as int);
    if t != s {
        if t < s {
            assert(o[t] != o[s]);
        } else {
            assert(o[s] != o[t]);
        }
    }
}

/// The order in which Arrange in Front brings windows forward: every arranged window once,
/// lowest `z` first.
pub open spec fn arrange_ok(w: Seq<Win>, o: Seq<usize>) -> bool {
    &&& forall|s: int| 0 <= s < o.len() ==> #[trigger] o[s] < w.len() && arranged(w[o[s] as int])
    &&& forall|i: int| 0 <= i < w.len() && arranged(#[trigger] w[i]) ==> o.contains(i as usize)
    &&& distinct(o)
    &&& forall|s: int, t: int| 0 <= s < t < o.len() ==> w[#[trigger] o[s] as int].z <= w[#[trigger] o[t] as int].z
}

/// The stack after the windows of `o` (the first `t` of them) came forward in turn from `z0`.
pub open spec fn stepped(w0: Seq<Win>, o: Seq<usize>, z0: int, t: int, j: int) -> Win {
    let s = index_in(o, j);
    if 0 <= s < t {
        Win { z: (z0 + s + 1) as u32, ..w0[j] }
    } else {
        w0[j]
    }
}

proof fn lemma_insert_sorted(w: Seq<Win>, before: Seq<usize>, p: int, i: usize, n: int)
    requires
        0 <= i < n <= w.len(),
        0 <= p <= before.len(),
        arranged(w[i as int]),
        forall|s: int| 0 <= s < before.len() ==> #[trigger] before[s] < i && arranged(w[before[s] as int]),
        forall|j: int| 0 <= j < i && arranged(#[trigger] w[j]) ==> before.contains(j as usize),
        distinct(before),
        forall|s: int, t: int| 0 <= s < t < before.len() ==> w[#[trigger] before[s] as int].z <= w[#[trigger] before[t] as int].z,
        forall|q: int| 0 <= q < p ==> w[#[trigger] before[q] as int].z <= w[i as int].z,
        forall|q: int| p <= q < before.len() ==> w[#[trigger] before[q] as int].z > w[i as int].z,
    ensures
        ({
            let o = before.insert(p, i);
            &&& forall|s: int| 0 <= s < o.len() ==> #[trigger] o[s] < i + 1 && arranged(w[o[s] as int])
            &&& forall|j: int| 0 <= j < i + 1 && arranged(#[trigger] w[j]) ==> o.contains(j as usize)
            &&& distinct(o)
            &&& forall|s: int, t: int| 0 <= s < t < o.len() ==> w[#[trigger] o[s] as int].z <= w[#[trigger] o[t] as int].z
        }),
{
    let o = before.insert(p, i);
    assert(o.len() == before.len() + 1);
    assert forall|s: int| 0 <= s < o.len() implies o[s] == (if s < p { before[s] } else if s == p { i } else { before[s - 1] }) by {}
    assert forall|s: int, t: int| 0 <= s < t < o.len() implies #[trigger] o[s] != #[trigger] o[t] by {
        let a = if s < p { before[s] } else if s == p { i } else { before[s - 1] };
        let b = if t < p { before[t] } else if t == p { i } else { before[t - 1] };
        assert(o[s] == a && o[t] == b);
    }
    assert forall|j: int| 0 <= j < i + 1 && arranged(#[trigger] w[j]) implies o.contains(j as usize) by {
        if j == i {
            assert(o[p] == i);
        } else {
            let s = choose|s: int| 0 <= s < before.len() && before[s] == j as usize;
            if s < p {
                assert(o[s] == j as usize);
            } else {
                assert(o[s + 1] == j as usize);
            }
        }
    }
    assert forall|s: int, t: int| 0 <= s < t < o.len() implies w[#[trigger] o[s] as int].z <= w[#[trigger] o[t] as int].z by {
        let a = if s < p { before[s] } else if s == p { i } else { before[s - 1] };
        let b = if t < p { before[t] } else if t == p { i } else { before[t - 1] };
        assert(o[s] == a && o[t] == b);
        if s < p && t == p {
            assert(w[before[s] as int].z <= w[i as int].z);
        } else if s == p && t > p {
            assert(w[before[t - 1] as int].z > w[i as int].z);
        }
    }
}

impl Desk {
    /// The indices of the windows to arrange, lowest first (window order among equals).
    fn arrange_order(&self) -> (o: Vec<usize>)
        requires
            self.ok(),
        ensures
            arrange_ok(self.wins@, o@),
            o@.len() <= self.wins@.len(),
    {
        let mut o: Vec<usize> = Vec::new();
        let mut i: usize = 0;
        while i < self.wins.len()
            invariant
                i <= self.wins@.len(),
                o@.len() <= i,
                forall|s: int| 0 <= s < o@.len() ==> #[trigger] o@[s] < i && arranged(self.wins@[o@[s] as int]),
                forall|j: int| 0 <= j < i && arranged(#[trigger] self.wins@[j]) ==> o@.contains(j as usize),
                distinct(o@),
                forall|s: int, t: int| 0 <= s < t < o@.len() ==> self.wins@[#[trigger] o@[s] as int].z <= self.wins@[#[trigger] o@[t] as int].z,
            decreases self.wins@.len() - i,
        {
            let w = &self.wins[i];
            if w.shown() && w.kind != WinKind::Alert {
                let z = w.z;
                let mut p = o.len();
                while p > 0 && self.wins[o[p - 1]].z > z
                    invariant
                        p <= o@.len(),
                        forall|s: int| 0 <= s < o@.len() ==> #[trigger] o@[s] < i,
                        i < self.wins@.len(),
                        z == self.wins@[i as int].z,
                        forall|q: int| p <= q < o@.len() ==> self.wins@[#[trigger] o@[q] as int].z > z,
                    decreases p,
                {
                    p -= 1;
                }
                proof {
                    assert forall|q: int| 0 <= q < p implies self.wins@[#[trigger] o@[q] as int].z <= z by {
                        if q < p - 1 {
                            assert(self.wins@[o@[q] as int].z <= self.wins@[o@[p - 1] as int].z);
                        }
                    }
                    lemma_insert_sorted(self.wins@, o@, p as int, i, self.wins@.len() as int);
                }
                o.insert(p, i);
            }
            i += 1;
        }
        o
    }

    /// Arrange in Front: every shown window comes forward in its stacking order, the topmost last,
    /// so that it ends up key.
    #[verifier::rlimit(100)]
    #[verifier::spinoff_prover]
    pub fn arrange_front(&mut self)
        requires
            old(self).ok(),
            old(self).zc + kinds().len() <= u32::MAX,
        ensures
            final(self).ok(),
            forall|i: int| 0 <= i < old(self).wins@.len() && !arranged(old(self).wins@[i]) ==> #[trigger] final(self).wins@[i]
                == old(self).wins@[i],
            forall|i: int| 0 <= i < old(self).wins@.len() && arranged(old(self).wins@[i]) ==> #[trigger] final(self).wins@[i]
                == (Win { z: final(self).wins@[i].z, ..old(self).wins@[i] }),
            forall|i: int, j: int|
                0 <= i < old(self).wins@.len() && 0 <= j < old(self).wins@.len() && arranged(old(self).wins@[i]) && arranged(
                    old(self).wins@[j],
                ) && old(self).wins@[i].z < old(self).wins@[j].z ==> #[trigger] final(self).wins@[i].z < #[trigger] final(self).wins@[j].z,
            forall|i: int, j: int|
                0 <= i < old(self).wins@.len() && 0 <= j < old(self).wins@.len() && arranged(old(self).wins@[i]) && !arranged(
                    old(self).wins@[j],
                ) ==> #[trigger] final(self).wins@[j].z < #[trigger] final(self).wins@[i].z,
            (forall|i: int| 0 <= i < old(self).wins@.len() ==> !arranged(#[trigger] old(self).wins@[i])) ==> final(self).key
                == old(self).key,
            (exists|i: int| 0 <= i < old(self).wins@.len() && arranged(#[trigger] old(self).wins@[i])) ==> (final(self).key matches Some(k)
                && arranged(old(self).win_spec(k)) && forall|j: int|
                0 <= j < old(self).wins@.len() && arranged(old(self).wins@[j]) ==> #[trigger] final(self).wins@[j].z
                    <= final(self).win_spec(k).z),
            exists|o: Seq<usize>| arrange_ok(old(self).wins@, o) && final(self).activations@ == #[trigger] activated(
                old(self).activations@,
                kinds_at(old(self).wins@, o),
            ),
    {
        let o = self.arrange_order();
        let ghost w0 = self.wins@;
        let ghost z0 = self.zc as int;
        let ghost key0 = self.key;
        let ghost a0 = self.activations@;
        proof {
            lemma_activated_none(a0, w0, o@);
            assert forall|j: int| 0 <= j < w0.len() implies #[trigger] self.wins@[j] == stepped(w0, o@, z0, 0, j) by {}
        }
        let mut t: usize = 0;
        while t < o.len()
            invariant
                t <= o@.len(),
                o@.len() <= w0.len(),
                w0.len() == kinds().len(),
                self.ok(),
                self.wins@.len() == w0.len(),
                self.zc == z0 + t,
                z0 + kinds().len() <= u32::MAX,
                arrange_ok(w0, o@),
                forall|j: int| 0 <= j < w0.len() ==> #[trigger] self.wins@[j] == stepped(w0, o@, z0, t as int, j),
                t > 0 ==> self.key == Some(kinds()[o@[t - 1] as int]),
                t == 0 ==> self.key == key0,
                forall|j: int| 0 <= j < w0.len() ==> (#[trigger] w0[j]).z <= z0,
                self.activations@ == activated(a0, kinds_at(w0, o@.take(t as int))),
            decreases o@.len() - t,
        {
            let i = o[t];
            let k = self.wins[i].kind;
            proof {
                lemma_slots(k);
                lemma_index_in(o@, t as int);
            }
            assert(k == w0[i as int].kind);
            self.activate(k);
            proof {
                lemma_activated_step(a0, w0, o@, t as int);
                assert forall|j: int| 0 <= j < w0.len() implies #[trigger] self.wins@[j] == stepped(w0, o@, z0, t + 1, j) by {
                    if j != i {
                        if index_in(o@, j) == t {
                            assert(o@.contains(j as usize));
                        }
                    }
                }
            }
            t += 1;
        }
        assert(self.activations@ == activated(a0, kinds_at(w0, o@))) by {
            assert(o@.take(o@.len() as int) =~= o@);
        }
        assert(arrange_ok(w0, o@));
        proof {
            lemma_arranged_final(w0, self.wins@, o@, z0);
            if exists|i: int| 0 <= i < w0.len() && arranged(#[trigger] w0[i]) {
                let i = choose|i: int| 0 <= i < w0.len() && arranged(#[trigger] w0[i]);
                assert(o@.contains(i as usize));
                let last = o@[o@.len() - 1] as int;
                lemma_index_in(o@, o@.len() - 1);
                lemma_slots(kinds()[last]);
                assert(slot_of(kinds()[last]) == last);
                assert forall|j: int| 0 <= j < w0.len() && arranged(w0[j]) implies #[trigger] self.wins@[j].z
                    <= self.wins@[last].z by {
                    assert(o@.contains(j as usize));
                }
            } else if o@.len() > 0 {
                assert(arranged(w0[o@[0] as int]));
            }
        }
    }
}

/// The activation queue `q` once the windows of kinds `ks` were activated in turn: each goes
/// to the end, once.
#[verifier::opaque]
pub open spec fn activated(q: Seq<WinKind>, ks: Seq<WinKind>) -> Seq<WinKind>
    decreases ks.len(),
{
    if ks.len() == 0 {
        q
    } else {
        activated(q, ks.drop_last()).filter(|x: WinKind| x != ks.last()).push(ks.last())
    }
}

proof fn lemma_activated_none(a0: Seq<WinKind>, w0: Seq<Win>, o: Seq<usize>)
    ensures
        activated(a0, kinds_at(w0, o.take(0))) == a0,
{
    reveal(activated);
    assert(kinds_at(w0, o.take(0)) =~= Seq::<WinKind>::empty());
}

proof fn lemma_activated_step(a0: Seq<WinKind>, w0: Seq<Win>, o: Seq<usize>, t: int)
    requires
        0 <= t < o.len(),
    ensures
        activated(a0, kinds_at(w0, o.take(t + 1))) == activated(a0, kinds_at(w0, o.take(t))).filter(
            |x: WinKind| x != w0[o[t] as int].kind,
        ).push(w0[o[t] as int].kind),
{
    reveal(activated);
    let k = w0[o[t] as int].kind;
    let ks = kinds_at(w0, o.take(t + 1));
    assert(ks.drop_last() =~= kinds_at(w0, o.take(t)));
    assert(ks.last() == k);
    assert((|x: WinKind| x != ks.last()) =~= (|x: WinKind| x != k));
}

/// The kinds of the windows at the slots `o`, in order.
pub open spec fn kinds_at(w: Seq<Win>, o: Seq<usize>) -> Seq<WinKind> {
    o.map_values(|i: usize| w[i as int].kind)
}

proof fn lemma_filter_push_other(s: Seq<WinKind>, k: WinKind)
    ensures
        s.push(k).filter(|x: WinKind| x != k) == s.filter(|x: WinKind| x != k),
{
    reveal(Seq::filter);
    assert(s.push(k).drop_last() =~= s);
}

proof fn lemma_filter_twice(s: Seq<WinKind>, k: WinKind)
    ensures
        s.filter(|x: WinKind| x != k).filter(|x: WinKind| x != k) == s.filter(|x: WinKind| x != k),
    decreases s.len(),
{
    reveal(Seq::filter);
    if s.len() > 0 {
        lemma_filter_twice(s.drop_last(), k);
        let f = s.filter(|x: WinKind| x != k);
        if s.last() != k {
            assert(f == s.drop_last().filter(|x: WinKind| x != k).push(s.last()));
            assert(f.drop_last() =~= s.drop_last().filter(|x: WinKind| x != k));
            assert(f.last() == s.last());
        } else {
            assert(f == s.drop_last().filter(|x: WinKind| x != k));
        }
    }
}

/// What the stack looks like once all of `o` came forward.
proof fn lemma_arranged_final(w0: Seq<Win>, w1: Seq<Win>, o: Seq<usize>, z0: int)
    requires
        arrange_ok(w0, o),
        w1.len() == w0.len(),
        forall|j: int| 0 <= j < w0.len() ==> #[trigger] w1[j] == stepped(w0, o, z0, o.len() as int, j),
        forall|j: int| 0 <= j < w0.len() ==> (#[trigger] w0[j]).z <= z0,
        z0 + w0.len() <= u32::MAX,
        o.len() <= w0.len(),
    ensures
        forall|i: int| 0 <= i < w0.len() && !arranged(w0[i]) ==> #[trigger] w1[i] == w0[i],
        forall|i: int| 0 <= i < w0.len() && arranged(w0[i]) ==> #[trigger] w1[i] == (Win { z: w1[i].z, ..w0[i] }),
        forall|i: int| 0 <= i < w0.len() && arranged(w0[i]) ==> #[trigger] w1[i].z == z0 + index_in(o, i) + 1 && 0 <= index_in(o, i) < o.len(),
        forall|i: int, j: int|
            0 <= i < w0.len() && 0 <= j < w0.len() && arranged(w0[i]) && arranged(w0[j]) && w0[i].z < w0[j].z
                ==> #[trigger] w1[i].z < #[trigger] w1[j].z,
        forall|i: int, j: int|
            0 <= i < w0.len() && 0 <= j < w0.len() && arranged(w0[i]) && !arranged(w0[j]) ==> #[trigger] w1[j].z
                < #[trigger] w1[i].z,
{
    assert forall|i: int| 0 <= i < w0.len() && !arranged(w0[i]) implies #[trigger] w1[i] == w0[i] by {
        if o.contains(i as usize) {
            let s = index_in(o, i);
            assert(arranged(w0[o[s] as int]));
        }
    }
    assert forall|i: int| 0 <= i < w0.len() && arranged(w0[i]) implies #[trigger] w1[i].z == z0 + index_in(o, i) + 1 && 0
        <= index_in(o, i) < o.len() by {
        assert(o.contains(i as usize));
    }
    assert forall|i: int, j: int|
        0 <= i < w0.len() && 0 <= j < w0.len() && arranged(w0[i]) && arranged(w0[j]) && w0[i].z < w0[j].z implies #[trigger] w1[i].z
            < #[trigger] w1[j].z by {
        assert(o.contains(i as usize));
        assert(o.contains(j as usize));
        let si = index_in(o, i);
        let sj = index_in(o, j);
        if sj < si {
            assert(w0[o[sj] as int].z <= w0[o[si] as int].z);
        }
        if sj == si {
            assert(o[si] == o[sj]);
        }
    }
    assert forall|i: int, j: int|
        0 <= i < w0.len() && 0 <= j < w0.len() && arranged(w0[i]) && !arranged(w0[j]) implies #[trigger] w1[j].z
            < #[trigger] w1[i].z by {
        assert(o.contains(i as usize));
        if o.contains(j as usize) {
            let s = index_in(o, j);
            assert(arranged(w0[o[s] as int]));
        }
    }
}

/// A window's frame when it is shown on a Screen of `sw`×`sh`: kept on the Screen, and for the
/// Info panel centred across it.
pub open spec fn framed(r: crate::geom::Rect, sw: int, sh: int, center: bool) -> crate::geom::Rect {
    let c = Win::clamped(r, sw, sh);
    if center {
        crate::geom::Rect { x: crate::geom::half(sw - c.w) as i32, ..c }
    } else {
        c
    }
}

/// When the key window gives the key up, it goes to the topmost of the windows that can take it:
/// shown, not the one giving it up, not the alert panel. When none can, no window is key.
pub proof fn law_next_key_is_topmost(wins: Seq<Win>, excl: WinKind)
    ensures
        next_key(wins, excl) matches Some(n) ==> exists|i: int|
            0 <= i < wins.len() && #[trigger] wins[i].kind == n && eligible(wins[i], excl) && (forall|j: int|
                0 <= j < wins.len() && eligible(wins[j], excl) ==> wins[j].z <= wins[i].z),
        next_key(wins, excl) is None ==> forall|j: int| 0 <= j < wins.len() ==> !eligible(#[trigger] wins[j], excl),
{
    lemma_top_upto(wins, excl, wins.len() as int);
    if let Some(i) = top_upto(wins, excl, wins.len() as int) {
        assert(wins[i].kind == next_key(wins, excl)->0);
    }
}


/// Where the alert panel stands on a Screen of `sw`×`sh`: 380×176, centred.
pub open spec fn alert_rect(sw: int, sh: int) -> Rect {
    Rect { x: half(sw - 380) as i32, y: half(sh - 176) as i32, w: 380, h: 176 }
}

impl Desk {
    fn set_rect(&mut self, i: usize, r: Rect)
        requires
            i < old(self).wins@.len(),
        ensures
            final(self).wins@ == old(self).wins@.update(i as int, Win { r, ..old(self).wins@[i as int] }),
            final(self).key == old(self).key,
            final(self).zc == old(self).zc,
            final(self).activations == old(self).activations,
    {
        let mut w = self.wins.remove(i);
        w.r = r;
        self.wins.insert(i, w);
        assert(self.wins@ =~= old(self).wins@.update(i as int, Win { r, ..old(self).wins@[i as int] }));
    }

    /// Puts up the modal alert on a Screen of `sw`×`sh`: the panel is centred, shown and key,
    /// and the returned alert remembers the window that was key before, to give the key back.
    pub fn show_alert(&mut self, message: String, detail: String, buttons: Vec<String>, pending: Pending, sw: i32, sh: i32) -> (a: Alert)
        requires
            old(self).ok(),
            old(self).zc < u32::MAX,
            fits(sw - 380),
            fits(sh - 176),
        ensures
            final(self).ok(),
            final(self).key == Some(WinKind::Alert),
            final(self).zc == old(self).zc + 1,
            final(self).wins@ == old(self).wins@.update(
                slot_of(WinKind::Alert),
                Win { r: alert_rect(sw as int, sh as int), visible: true, z: final(self).zc, ..old(self).win_spec(WinKind::Alert) },
            ),
            final(self).activations@ == old(self).activations@.filter(|x: WinKind| x != WinKind::Alert).push(WinKind::Alert),
            a.message == message,
            a.detail == detail,
            a.buttons == buttons,
            a.pending == pending,
            a.prev_key == old(self).key,
    {
        proof {
            lemma_slots(WinKind::Alert);
        }
        let prev_key = self.key;
        let i = wi(WinKind::Alert);
        self.set_rect(i, rect(div2(sw - 380), div2(sh - 176), 380, 176));
        self.set_visible(i, true);
        self.activate(WinKind::Alert);
        assert(self.wins@ =~= old(self).wins@.update(
            slot_of(WinKind::Alert),
            Win { r: alert_rect(sw as int, sh as int), visible: true, z: self.zc, ..old(self).win_spec(WinKind::Alert) },
        ));
        Alert { message, detail, buttons, pending, prev_key }
    }

    /// Answers the alert with its button `i`: the panel goes away, the window that was key
    /// before gets the key back where it is still shown, and the rightmost button of an alert
    /// with a choice hands back what is to be done.
    pub fn alert_button(&mut self, a: Alert, i: usize) -> (r: Option<Pending>)
        requires
            old(self).ok(),
            a.buttons@.len() > 0,
        ensures
            final(self).ok(),
            final(self).zc == old(self).zc,
            final(self).activations == old(self).activations,
            final(self).wins@ == old(self).wins@.update(
                slot_of(WinKind::Alert),
                Win { visible: false, ..old(self).win_spec(WinKind::Alert) },
            ),
            final(self).key == (match a.prev_key {
                Some(k) => if kinds().contains(k) && final(self).win_spec(k).visible && final(self).win_spec(k).mini is None {
                    Some(k)
                } else {
                    None
                },
                None => None,
            }),
            r == (if i == a.buttons@.len() - 1 && a.buttons@.len() > 1 { Some(a.pending) } else { None }),
    {
        proof {
            lemma_slots(WinKind::Alert);
        }
        let ai = wi(WinKind::Alert);
        self.set_visible(ai, false);
        self.key = match a.prev_key {
            Some(k) => {
                proof {
                    lemma_slots(k);
                }
                if self.win(k).shown() {
                    Some(k)
                } else {
                    None
                }
            },
            None => None,
        };
        if i == a.buttons.len() - 1 && a.buttons.len() > 1 {
            Some(a.pending)
        } else {
            None
        }
    }
}


/// A saved window frame as a rectangle.
pub open spec fn saved_rect(w: WinState) -> Rect {
    Rect { x: w.x, y: w.y, w: w.w, h: w.h }
}

/// The Shell window's least size: 20 character cells and 5 lines, with the padding, the
/// scroll bar, the title bar and the resize bar.
pub const SHELL_MIN_W: i32 = 20 * crate::shell::CELL_W + SCROLL_W + 2 * crate::shell::PAD;

pub const SHELL_MIN_H: i32 = 5 * crate::shell::CELL_H + 2 * crate::shell::PAD + TITLE_H + RESIZE_H;

fn saved(w: &WinState) -> (r: Rect)
    ensures
        r == saved_rect(*w),
{
    rect(w.x, w.y, w.w, w.h)
}

impl Desk {
    /// The windows of the Workspace as saved in `s`, all hidden: the File Viewer, Console,
    /// Recycler and Shell at their saved frames, the Inspector and Mandelbrot windows at their
    /// saved places with their fixed sizes, the Info panel and the alert at their own places.
    /// Each keeps the least size, buttons and resize bar it has.
    pub fn from_windows(s: &Windows) -> (d: Desk)
        ensures
            d.ok(),
            d.key is None,
            d.zc == 0,
            d.activations@.len() == 0,
            forall|i: int| 0 <= i < d.wins@.len() ==> !(#[trigger] d.wins@[i]).visible && d.wins@[i].mini is None && d.wins@[i].z == 0 && d.wins@[i].chrome,
            d.wins@[0].r == saved_rect(s.file_viewer) && d.wins@[0].min_w == 480 && d.wins@[0].min_h == 320 && d.wins@[0].resizable && d.wins@[0].mini_btn && d.wins@[0].close_btn,
            d.wins@[1].r == (Rect { x: s.inspector.x, y: s.inspector.y, w: 272, h: 400 }) && !d.wins@[1].resizable && !d.wins@[1].mini_btn && d.wins@[1].close_btn,
            d.wins@[2].r == saved_rect(s.console) && d.wins@[2].min_w == 240 && d.wins@[2].min_h == 100 && d.wins@[2].resizable && d.wins@[2].mini_btn,
            d.wins@[3].r == (Rect { x: 0, y: 120, w: 300, h: 200 }) && !d.wins@[3].resizable && !d.wins@[3].mini_btn && d.wins@[3].close_btn,
            d.wins@[4].r == saved_rect(s.recycler) && d.wins@[4].min_w == 200 && d.wins@[4].min_h == 120 && d.wins@[4].resizable,
            d.wins@[5].r == (Rect { x: s.mandelbrot.x, y: s.mandelbrot.y, w: crate::mandel::WIN_W, h: crate::mandel::WIN_H }) && !d.wins@[5].resizable && d.wins@[5].mini_btn,
            d.wins@[6].r == saved_rect(s.shell) && d.wins@[6].min_w == SHELL_MIN_W && d.wins@[6].min_h == SHELL_MIN_H && d.wins@[6].resizable,
            d.wins@[7].r == (Rect { x: 0, y: 0, w: 380, h: 176 }) && !d.wins@[7].resizable && !d.wins@[7].mini_btn && !d.wins@[7].close_btn,
            d.wins@[8].r == (Rect { x: 120, y: 80, w: 600, h: 420 }),
            d.wins@[9].r == saved_rect(s.concurrence),
            d.wins@[10].r == saved_rect(s.librarian),
            d.wins@[11].r == (Rect { x: 180, y: 90, w: 394, h: 320 }) && !d.wins@[11].resizable,
            d.wins@[12].r == (Rect { x: 220, y: 110, w: 420, h: 360 }),
    {
        let mut wins: Vec<Win> = Vec::new();
        let mut fv = Win::new(WinKind::FileViewer, saved(&s.file_viewer), "File Viewer", "folder");
        fv.min_w = 480;
        fv.min_h = 320;
        wins.push(fv);
        let mut insp = Win::new(WinKind::Inspector, rect(s.inspector.x, s.inspector.y, 272, 400), "Inspector", "miniwindow");
        insp.resizable = false;
        insp.mini_btn = false;
        wins.push(insp);
        let mut con = Win::new(WinKind::Console, saved(&s.console), "Console", "miniwindow");
        con.min_w = 240;
        con.min_h = 100;
        wins.push(con);
        let mut info = Win::new(WinKind::Info, rect(0, 120, 300, 200), "Info", "workspace");
        info.resizable = false;
        info.mini_btn = false;
        wins.push(info);
        let mut rec = Win::new(WinKind::Recycler, saved(&s.recycler), "Recycler", "recycler-empty");
        rec.min_w = 200;
        rec.min_h = 120;
        wins.push(rec);
        let mut man = Win::new(
            WinKind::Mandelbrot,
            rect(s.mandelbrot.x, s.mandelbrot.y, crate::mandel::WIN_W, crate::mandel::WIN_H),
            "Mandelbrot",
            "file-image",
        );
        man.resizable = false;
        wins.push(man);
        let mut sh = Win::new(WinKind::Shell, saved(&s.shell), "Shell", "miniwindow");
        sh.min_w = SHELL_MIN_W;
        sh.min_h = SHELL_MIN_H;
        wins.push(sh);
        let mut a = Win::new(WinKind::Alert, rect(0, 0, 380, 176), "", "alert");
        a.resizable = false;
        a.mini_btn = false;
        a.close_btn = false;
        wins.push(a);
        wins.push(Win::new(WinKind::Improv, rect(120, 80, 600, 420), "Improv", "file-sheet"));
        wins.push(Win::new(WinKind::Concurrence, saved(&s.concurrence), "Concurrence", "file-deck"));
        wins.push(Win::new(WinKind::Librarian, saved(&s.librarian), "Digital Librarian", "librarian"));
        let mut pr = Win::new(WinKind::Preferences, rect(180, 90, 394, 320), "Preferences", "preferences");
        pr.resizable = false;
        wins.push(pr);
        wins.push(Win::new(WinKind::Help, rect(220, 110, 420, 360), "Help", "help"));
        let d = Desk { wins, key: None, zc: 0, activations: Vec::new() };
        assert(d.wins@.len() == 13);
        d
    }
}


/// A window's frame while its resize bar is dragged by (`dx`, `dy`): the left region moves the
/// left edge, the right region the right edge, the middle neither; the bottom edge always
/// follows; neither side goes under the least size.
pub open spec fn resized(orig: Rect, dx: int, dy: int, region: i8, min_w: int, min_h: int) -> Rect {
    let w = if region < 0 {
        larger(orig.w - dx, min_w)
    } else if region > 0 {
        larger(orig.w + dx, min_w)
    } else {
        orig.w as int
    };
    let x = if region < 0 { orig.x + (orig.w - w) } else { orig.x as int };
    Rect { x: x as i32, y: orig.y, w: w as i32, h: larger(orig.h + dy, min_h) as i32 }
}

/// Whether the frame a resize computes stays inside `i32`.
pub open spec fn resize_fits(orig: Rect, dx: int, dy: int, min_w: int, min_h: int) -> bool {
    &&& fits(orig.w - dx)
    &&& fits(orig.w + dx)
    &&& fits(orig.h + dy)
    &&& fits(orig.w - larger(orig.w - dx, min_w))
    &&& fits(orig.x + (orig.w - larger(orig.w - dx, min_w)))
}

/// The frame of a window being resized, from the frame it had when the drag began.
pub fn resize_rect(orig: Rect, dx: i32, dy: i32, region: i8, min_w: i32, min_h: i32) -> (r: Rect)
    requires
        resize_fits(orig, dx as int, dy as int, min_w as int, min_h as int),
    ensures
        r == resized(orig, dx as int, dy as int, region, min_w as int, min_h as int),
{
    let mut r = orig;
    if region < 0 {
        let w = orig.w - dx;
        r.w = if w >= min_w { w } else { min_w };
        r.x = orig.x + (orig.w - r.w);
    }
    if region > 0 {
        let w = orig.w + dx;
        r.w = if w >= min_w { w } else { min_w };
    }
    let h = orig.h + dy;
    r.h = if h >= min_h { h } else { min_h };
    r
}

/// The buttons of an alert with `n` buttons in a panel whose content is `c`: 80 wide, 88 apart,
/// the last one 10 pixels in from the right edge, 10 up from the bottom.
pub open spec fn alert_button_spec(c: Rect, n: int, i: int) -> Rect {
    Rect { x: (c.x + c.w - 10 - (n - i) * 88 + 8) as i32, y: (c.y + c.h - 10 - BTN_H) as i32, w: 80, h: (BTN_H - 1) as i32 }
}

/// The buttons of an alert with `n` buttons, left to right.
pub fn alert_buttons(c: Rect, n: usize) -> (v: Vec<Rect>)
    requires
        n * 88 <= i32::MAX,
        fits(c.x + c.w - 10 - n * 88),
        fits(c.x + c.w),
        fits(c.y + c.h - 10 - BTN_H),
        fits(c.y + c.h),
    ensures
        v@.len() == n,
        forall|i: int| 0 <= i < n ==> #[trigger] v@[i] == alert_button_spec(c, n as int, i),
{
    let mut v: Vec<Rect> = Vec::new();
    let mut i: usize = 0;
    while i < n
        invariant
            i <= n,
            n * 88 <= i32::MAX,
            fits(c.x + c.w - 10 - n * 88),
            fits(c.x + c.w),
            fits(c.y + c.h - 10 - BTN_H),
            fits(c.y + c.h),
            v@.len() == i,
            forall|j: int| 0 <= j < i ==> #[trigger] v@[j] == alert_button_spec(c, n as int, j),
        decreases n - i,
    {
        let k = (n - i) as i32;
        assert(k * 88 <= n * 88) by (nonlinear_arith)
            requires
                k <= n,
                0 <= k,
        ;
        let x = c.x + c.w - 10 - k * 88 + 8;
        let y = c.y + c.h - 10 - BTN_H;
        v.push(rect(x, y, 80, BTN_H - 1));
        i += 1;
    }
    v
}

/// A pointer that went more than 4 pixels along either axis from where it was pressed is
/// dragging.
pub open spec fn dragged_spec(start: Pt, p: Pt) -> bool {
    larger(abs_spec(p.x - start.x), abs_spec(p.y - start.y)) > 4
}

pub open spec fn abs_spec(v: int) -> int {
    if v < 0 { -v } else { v }
}

/// Whether the pointer, pressed at `start` and now at `p`, has begun a drag.
pub fn dragged(start: Pt, p: Pt) -> (b: bool)
    ensures
        b == dragged_spec(start, p),
{
    let dx = (p.x as i64) - (start.x as i64);
    let dy = (p.y as i64) - (start.y as i64);
    let ax = if dx < 0 { -dx } else { dx };
    let ay = if dy < 0 { -dy } else { dy };
    (if ax >= ay { ax } else { ay }) > 4
}

impl Desk {
    /// Moves window `k` so that the point grabbed at `grab` (relative to its corner) is under
    /// `p`, keeping its title bar on a Screen of `sw`×`sh`.
    pub fn drag_win(&mut self, k: WinKind, p: Pt, grab: Pt, sw: i32, sh: i32)
        requires
            old(self).ok(),
            fits(p.x - grab.x),
            fits(p.y - grab.y),
            old(self).win_spec(k).clamp_fits(sw as int, sh as int),
        ensures
            final(self).ok(),
            final(self).key == old(self).key,
            final(self).zc == old(self).zc,
            final(self).activations == old(self).activations,
            final(self).wins@ == old(self).wins@.update(
                slot_of(k),
                Win {
                    r: Win::clamped(Rect { x: (p.x - grab.x) as i32, y: (p.y - grab.y) as i32, ..old(self).win_spec(k).r }, sw as int, sh as int),
                    ..old(self).win_spec(k)
                },
            ),
    {
        proof {
            lemma_slots(k);
        }
        let i = wi(k);
        let mut w = self.wins.remove(i);
        w.r.x = p.x - grab.x;
        w.r.y = p.y - grab.y;
        w.clamp(sw, sh);
        self.wins.insert(i, w);
        assert(self.wins@ =~= old(self).wins@.update(
            slot_of(k),
            Win {
                r: Win::clamped(Rect { x: (p.x - grab.x) as i32, y: (p.y - grab.y) as i32, ..old(self).win_spec(k).r }, sw as int, sh as int),
                ..old(self).win_spec(k)
            },
        ));
    }

    /// Resizes window `k` while its resize bar is dragged from `start` to `p`, from the frame
    /// `orig` it had when the drag began.
    pub fn resize_win(&mut self, k: WinKind, start: Pt, p: Pt, orig: Rect, region: i8)
        requires
            old(self).ok(),
            fits(p.x - start.x),
            fits(p.y - start.y),
            resize_fits(orig, p.x - start.x, p.y - start.y, old(self).win_spec(k).min_w as int, old(self).win_spec(k).min_h as int),
        ensures
            final(self).ok(),
            final(self).key == old(self).key,
            final(self).zc == old(self).zc,
            final(self).activations == old(self).activations,
            final(self).wins@ == old(self).wins@.update(
                slot_of(k),
                Win {
                    r: resized(orig, p.x - start.x, p.y - start.y, region, old(self).win_spec(k).min_w as int, old(self).win_spec(k).min_h as int),
                    ..old(self).win_spec(k)
                },
            ),
    {
        proof {
            lemma_slots(k);
        }
        let i = wi(k);
        let (min_w, min_h) = (self.wins[i].min_w, self.wins[i].min_h);
        let r = resize_rect(orig, p.x - start.x, p.y - start.y, region, min_w, min_h);
        self.set_rect(i, r);
    }
}

} // verus!
