//! The menus on the Screen: the main menu, the popup, the submenus attached to the right of their
//! parents, and the torn-off menus that stay until they are closed. Menus are known by id, so
//! reordering the list (bringing one forward) never confuses who is whose parent.
use vstd::prelude::*;
use crate::chrome::{menu_items, menu_spec, resolve_from, resolve_path, string_views, Act, MenuId, MenuInst, MenuKind, MenuPart};
use crate::text::str_eq;
use crate::geom::{fits, pt, Pt};
use crate::state::{TornMenu, XY};

verus! {

pub struct Menus {
    pub menus: Vec<MenuInst>,
    /// The last id handed out.
    pub seq: u64,
}

/// The position of the first menu with id `id` from `k` on.
pub open spec fn find_from(ms: Seq<MenuInst>, id: u64, k: int) -> Option<int>
    decreases ms.len() - k,
{
    if k < 0 || k >= ms.len() {
        None
    } else if ms[k].id == id {
        Some(k)
    } else {
        find_from(ms, id, k + 1)
    }
}

pub open spec fn find_id(ms: Seq<MenuInst>, id: u64) -> Option<int> {
    find_from(ms, id, 0)
}

/// Menu `id` hangs, through its chain of parents, below menu `m`.
pub open spec fn is_desc(ms: Seq<MenuInst>, id: u64, m: u64) -> bool
    decreases id,
{
    match find_id(ms, id) {
        Some(i) => match ms[i].kind {
            MenuKind::Sub { parent, .. } => parent == m || (parent < id && is_desc(ms, parent, m)),
            _ => false,
        },
        None => false,
    }
}

/// The menus that stay when `m` closes its submenus: all but those below `m`, in order, with
/// `m` itself no longer showing an open item.
pub open spec fn pruned_upto(ms: Seq<MenuInst>, m: u64, n: int) -> Seq<MenuInst>
    decreases n,
{
    if n <= 0 {
        seq![]
    } else {
        let prev = pruned_upto(ms, m, n - 1);
        let x = ms[n - 1];
        if is_desc(ms, x.id, m) {
            prev
        } else if x.id == m {
            prev.push(MenuInst { open_item: None, ..x })
        } else {
            prev.push(x)
        }
    }
}

pub open spec fn pruned(ms: Seq<MenuInst>, m: u64) -> Seq<MenuInst> {
    pruned_upto(ms, m, ms.len() as int)
}

/// What stays when every attached submenu and popup closes: the main menu and the torn-off
/// ones, none showing an open item.
pub open spec fn settled_upto(ms: Seq<MenuInst>, n: int) -> Seq<MenuInst>
    decreases n,
{
    if n <= 0 {
        seq![]
    } else {
        let prev = settled_upto(ms, n - 1);
        let x = ms[n - 1];
        if x.kind == MenuKind::Main || x.kind == MenuKind::Torn {
            prev.push(MenuInst { open_item: None, ..x })
        } else {
            prev
        }
    }
}

/// Where the chain of parents from menu `m` ends, following at most `fuel` links.
pub open spec fn root_spec(ms: Seq<MenuInst>, m: u64, fuel: nat) -> Option<MenuKind>
    decreases fuel,
{
    if fuel == 0 {
        None
    } else {
        match find_id(ms, m) {
            None => None,
            Some(i) => match ms[i].kind {
                MenuKind::Sub { parent, .. } => root_spec(ms, parent, (fuel - 1) as nat),
                k => Some(k),
            },
        }
    }
}

/// The topmost menu under `p` — the last in the list — and the part of it there.
pub open spec fn hit_from(ms: Seq<MenuInst>, p: Pt, n: int) -> Option<(int, MenuPart)>
    decreases n,
{
    if n <= 0 {
        None
    } else {
        match ms[n - 1].hit_spec(p) {
            Some(part) => Some((n - 1, part)),
            None => hit_from(ms, p, n - 1),
        }
    }
}

proof fn lemma_find_from(ms: Seq<MenuInst>, id: u64, k: int)
    requires
        0 <= k,
    ensures
        find_from(ms, id, k) matches Some(i) ==> k <= i < ms.len() && ms[i].id == id,
        find_from(ms, id, k) is None ==> forall|j: int| k <= j < ms.len() ==> ms[j].id != id,
    decreases ms.len() - k,
{
    if k < ms.len() && ms[k].id != id {
        lemma_find_from(ms, id, k + 1);
    }
}

proof fn lemma_pruned_len(ms: Seq<MenuInst>, m: u64, n: int)
    requires
        0 <= n <= ms.len(),
    ensures
        pruned_upto(ms, m, n).len() <= n,
        forall|j: int| 0 <= j < pruned_upto(ms, m, n).len() ==> exists|i: int|
            0 <= i < n && #[trigger] pruned_upto(ms, m, n)[j].id == ms[i].id && !is_desc(ms, ms[i].id, m)
                && pruned_upto(ms, m, n)[j] == (if ms[i].id == m { MenuInst { open_item: None, ..ms[i] } } else { ms[i] }),
    decreases n,
{
    if n > 0 {
        lemma_pruned_len(ms, m, n - 1);
        let prev = pruned_upto(ms, m, n - 1);
        let cur = pruned_upto(ms, m, n);
        assert forall|j: int| 0 <= j < cur.len() implies exists|i: int|
            0 <= i < n && #[trigger] cur[j].id == ms[i].id && !is_desc(ms, ms[i].id, m)
                && cur[j] == (if ms[i].id == m { MenuInst { open_item: None, ..ms[i] } } else { ms[i] }) by {
            if j < prev.len() {
                assert(cur[j] == prev[j]);
                let i = choose|i: int|
                    0 <= i < n - 1 && #[trigger] prev[j].id == ms[i].id && !is_desc(ms, ms[i].id, m)
                        && prev[j] == (if ms[i].id == m { MenuInst { open_item: None, ..ms[i] } } else { ms[i] });
                assert(cur[j].id == ms[i].id);
            } else {
                assert(cur[j].id == ms[n - 1].id);
            }
        }
    }
}

impl Menus {
    /// Ids are distinct and handed out in increasing order, so a submenu's parent is older than
    /// the submenu.
    pub open spec fn wf(&self) -> bool {
        &&& forall|i: int, j: int| 0 <= i < j < self.menus@.len() ==> (#[trigger] self.menus@[i]).id != (#[trigger] self.menus@[j]).id
        &&& forall|i: int| 0 <= i < self.menus@.len() ==> (#[trigger] self.menus@[i]).id <= self.seq
        &&& forall|i: int|
            0 <= i < self.menus@.len() ==> ((#[trigger] self.menus@[i]).kind matches MenuKind::Sub { parent, .. } ==> parent
                < self.menus@[i].id)
    }

    /// Every menu's geometry stays inside an `i32`.
    pub open spec fn geom_ok(&self) -> bool {
        forall|i: int| 0 <= i < self.menus@.len() ==> (#[trigger] self.menus@[i]).geom_fits()
    }

    /// A fresh id, larger than every id handed out before.
    pub fn next_id(&mut self) -> (id: u64)
        requires
            old(self).seq < u64::MAX,
        ensures
            id == old(self).seq + 1,
            final(self).seq == id,
            final(self).menus == old(self).menus,
    {
        self.seq = self.seq + 1;
        self.seq
    }

    /// The position of menu `id`.
    pub fn index_of(&self, id: u64) -> (r: Option<usize>)
        ensures
            r matches Some(i) ==> Some(i as int) == find_id(self.menus@, id) && i < self.menus@.len()
                && self.menus@[i as int].id == id,
            r is None ==> find_id(self.menus@, id) is None,
    {
        proof {
            lemma_find_from(self.menus@, id, 0);
        }
        let mut i: usize = 0;
        while i < self.menus.len()
            invariant
                i <= self.menus@.len(),
                find_id(self.menus@, id) == find_from(self.menus@, id, i as int),
            decreases self.menus@.len() - i,
        {
            if self.menus[i].id == id {
                return Some(i);
            }
            i += 1;
        }
        None
    }

    /// Whether menu `id` hangs below menu `m`.
    fn below(&self, id: u64, m: u64) -> (b: bool)
        ensures
            b == is_desc(self.menus@, id, m),
    {
        let mut cur = id;
        loop
            invariant
                is_desc(self.menus@, id, m) == is_desc(self.menus@, cur, m),
            decreases cur,
        {
            let i = match self.index_of(cur) {
                None => return false,
                Some(i) => i,
            };
            match self.menus[i].kind {
                MenuKind::Sub { parent, .. } => {
                    if parent == m {
                        return true;
                    }
                    if parent < cur {
                        cur = parent;
                    } else {
                        return false;
                    }
                },
                _ => return false,
            }
        }
    }

    /// Closes every menu below `m` (children first) and clears the item `m` shows open.
    pub fn close_children_of(&mut self, m: u64)
        requires
            old(self).wf(),
        ensures
            final(self).wf(),
            final(self).seq == old(self).seq,
            final(self).menus@ == pruned(old(self).menus@, m),
    {
        let n = self.menus.len();
        let mut gone: Vec<bool> = Vec::new();
        let mut i: usize = 0;
        while i < n
            invariant
                i <= n,
                n == self.menus@.len(),
                gone@.len() == i,
                forall|j: int| 0 <= j < i ==> #[trigger] gone@[j] == is_desc(self.menus@, self.menus@[j].id, m),
                self.seq == old(self).seq,
                self.menus == old(self).menus,
            decreases n - i,
        {
            let b = self.below(self.menus[i].id, m);
            gone.push(b);
            i += 1;
        }
        let ghost orig = self.menus@;
        let mut out: Vec<MenuInst> = Vec::new();
        let mut taken: usize = 0;
        while self.menus.len() > 0
            invariant
                taken + self.menus@.len() == n,
                orig.len() == n,
                self.menus@ == orig.skip(taken as int),
                gone@.len() == n,
                forall|j: int| 0 <= j < n ==> #[trigger] gone@[j] == is_desc(orig, orig[j].id, m),
                out@ == pruned_upto(orig, m, taken as int),
                self.seq == old(self).seq,
                orig == old(self).menus@,
            decreases self.menus@.len(),
        {
            let mut x = self.menus.remove(0);
            assert(x == orig[taken as int]);
            assert(self.menus@ =~= orig.skip(taken + 1));
            if !gone[taken] {
                if x.id == m {
                    x.open_item = None;
                }
                out.push(x);
            }
            taken += 1;
        }
        self.menus = out;
        proof {
            lemma_pruned_len(orig, m, n as int);
            let f = self.menus@;
            assert forall|i: int| 0 <= i < f.len() implies (#[trigger] f[i]).id <= self.seq by {
                let k = choose|k: int| 0 <= k < n && #[trigger] f[i].id == orig[k].id && !is_desc(orig, orig[k].id, m)
                    && f[i] == (if orig[k].id == m { MenuInst { open_item: None, ..orig[k] } } else { orig[k] });
            }
            assert forall|i: int| 0 <= i < f.len() implies ((#[trigger] f[i]).kind matches MenuKind::Sub { parent, .. } ==> parent
                < f[i].id) by {
                let k = choose|k: int| 0 <= k < n && #[trigger] f[i].id == orig[k].id && !is_desc(orig, orig[k].id, m)
                    && f[i] == (if orig[k].id == m { MenuInst { open_item: None, ..orig[k] } } else { orig[k] });
            }
            lemma_pruned_order(orig, m, n as int);
        }
    }
}

/// The menus that stay keep their relative order, so their ids stay distinct.
proof fn lemma_pruned_order(ms: Seq<MenuInst>, m: u64, n: int)
    requires
        0 <= n <= ms.len(),
        forall|i: int, j: int| 0 <= i < j < ms.len() ==> (#[trigger] ms[i]).id != (#[trigger] ms[j]).id,
    ensures
        forall|i: int, j: int| 0 <= i < j < pruned_upto(ms, m, n).len() ==> (#[trigger] pruned_upto(ms, m, n)[i]).id
            != (#[trigger] pruned_upto(ms, m, n)[j]).id,
    decreases n,
{
    if n > 0 {
        lemma_pruned_order(ms, m, n - 1);
        lemma_pruned_len(ms, m, n - 1);
        let prev = pruned_upto(ms, m, n - 1);
        let cur = pruned_upto(ms, m, n);
        assert forall|i: int, j: int| 0 <= i < j < cur.len() implies (#[trigger] cur[i]).id != (#[trigger] cur[j]).id by {
            if j < prev.len() {
                assert(cur[i] == prev[i] && cur[j] == prev[j]);
            } else {
                assert(cur[i] == prev[i]);
                let k = choose|k: int|
                    0 <= k < n - 1 && #[trigger] prev[i].id == ms[k].id && !is_desc(ms, ms[k].id, m)
                        && prev[i] == (if ms[k].id == m { MenuInst { open_item: None, ..ms[k] } } else { ms[k] });
                assert(cur[j].id == ms[n - 1].id);
            }
        }
    }
}


pub open spec fn ids_distinct(ms: Seq<MenuInst>) -> bool {
    forall|i: int, j: int| 0 <= i < j < ms.len() ==> (#[trigger] ms[i]).id != (#[trigger] ms[j]).id
}

proof fn lemma_find_unique(ms: Seq<MenuInst>, k: int)
    requires
        ids_distinct(ms),
        0 <= k < ms.len(),
    ensures
        find_id(ms, ms[k].id) == Some(k),
{
    lemma_find_from(ms, ms[k].id, 0);
    if let Some(i) = find_id(ms, ms[k].id) {
        if i != k {
            if i < k {
                assert(ms[i].id != ms[k].id);
            } else {
                assert(ms[k].id != ms[i].id);
            }
        }
    }
}

/// A chain of parents through the menus that stay is one through all the menus.
proof fn lemma_pruned_desc(ms: Seq<MenuInst>, m: u64, id: u64)
    requires
        ids_distinct(ms),
    ensures
        is_desc(pruned(ms, m), id, m) ==> is_desc(ms, id, m),
    decreases id,
{
    let f = pruned(ms, m);
    lemma_pruned_len(ms, m, ms.len() as int);
    lemma_pruned_order(ms, m, ms.len() as int);
    lemma_find_from(f, id, 0);
    if let Some(i) = find_id(f, id) {
        let k = choose|k: int|
            0 <= k < ms.len() && #[trigger] f[i].id == ms[k].id && !is_desc(ms, ms[k].id, m)
                && f[i] == (if ms[k].id == m { MenuInst { open_item: None, ..ms[k] } } else { ms[k] });
        lemma_find_unique(ms, k);
        assert(f[i].kind == ms[k].kind);
        if let MenuKind::Sub { parent, .. } = f[i].kind {
            if parent != m && parent < id {
                lemma_pruned_desc(ms, m, parent);
            }
        }
    }
}

/// Closing the submenus of `m` leaves no menu below `m`, and every menu that was not below it
/// stays.
pub proof fn law_close_leaves_nothing_below(ms: Seq<MenuInst>, m: u64)
    requires
        ids_distinct(ms),
    ensures
        forall|i: int| 0 <= i < pruned(ms, m).len() ==> !is_desc(pruned(ms, m), #[trigger] pruned(ms, m)[i].id, m),
        forall|k: int| 0 <= k < ms.len() && !is_desc(ms, #[trigger] ms[k].id, m) ==> exists|i: int|
            0 <= i < pruned(ms, m).len() && pruned(ms, m)[i].id == ms[k].id,
{
    let f = pruned(ms, m);
    lemma_pruned_len(ms, m, ms.len() as int);
    assert forall|i: int| 0 <= i < f.len() implies !is_desc(f, #[trigger] f[i].id, m) by {
        let k = choose|k: int|
            0 <= k < ms.len() && #[trigger] f[i].id == ms[k].id && !is_desc(ms, ms[k].id, m)
                && f[i] == (if ms[k].id == m { MenuInst { open_item: None, ..ms[k] } } else { ms[k] });
        lemma_pruned_desc(ms, m, f[i].id);
    }
    assert forall|k: int| 0 <= k < ms.len() && !is_desc(ms, #[trigger] ms[k].id, m) implies exists|i: int|
        0 <= i < f.len() && f[i].id == ms[k].id by {
        lemma_pruned_keeps(ms, m, ms.len() as int, k);
    }
}

proof fn lemma_pruned_keeps(ms: Seq<MenuInst>, m: u64, n: int, k: int)
    requires
        0 <= k < n <= ms.len(),
        !is_desc(ms, ms[k].id, m),
    ensures
        exists|i: int| 0 <= i < pruned_upto(ms, m, n).len() && pruned_upto(ms, m, n)[i].id == ms[k].id,
    decreases n,
{
    let prev = pruned_upto(ms, m, n - 1);
    let cur = pruned_upto(ms, m, n);
    if k == n - 1 {
        assert(cur[cur.len() - 1].id == ms[k].id);
    } else {
        lemma_pruned_keeps(ms, m, n - 1, k);
        let i = choose|i: int| 0 <= i < prev.len() && prev[i].id == ms[k].id;
        assert(cur[i] == prev[i]);
    }
}


/// The settled menus keep their relative order and each comes from a main or torn-off menu,
/// with its open item cleared.
proof fn lemma_settled(ms: Seq<MenuInst>, n: int)
    requires
        0 <= n <= ms.len(),
    ensures
        settled_upto(ms, n).len() <= n,
        forall|j: int| 0 <= j < settled_upto(ms, n).len() ==> exists|i: int|
            0 <= i < n && (ms[i].kind == MenuKind::Main || ms[i].kind == MenuKind::Torn)
                && #[trigger] settled_upto(ms, n)[j] == (MenuInst { open_item: None, ..ms[i] }),
        ids_distinct(ms) ==> ids_distinct(settled_upto(ms, n)),
    decreases n,
{
    if n > 0 {
        lemma_settled(ms, n - 1);
        let prev = settled_upto(ms, n - 1);
        let cur = settled_upto(ms, n);
        assert forall|j: int| 0 <= j < cur.len() implies exists|i: int|
            0 <= i < n && (ms[i].kind == MenuKind::Main || ms[i].kind == MenuKind::Torn)
                && #[trigger] cur[j] == (MenuInst { open_item: None, ..ms[i] }) by {
            if j < prev.len() {
                assert(cur[j] == prev[j]);
            }
        }
        if ids_distinct(ms) {
            assert forall|i: int, j: int| 0 <= i < j < cur.len() implies (#[trigger] cur[i]).id != (#[trigger] cur[j]).id by {
                assert(cur[i] == prev[i]);
                if j < prev.len() {
                    assert(cur[j] == prev[j]);
                } else {
                    let k = choose|k: int|
                        0 <= k < n - 1 && (ms[k].kind == MenuKind::Main || ms[k].kind == MenuKind::Torn)
                            && #[trigger] prev[i] == (MenuInst { open_item: None, ..ms[k] });
                    assert(ms[k].id != ms[n - 1].id);
                }
            }
        }
    }
}

/// The position of the first torn-off menu showing `path`, from `k` on.
pub open spec fn torn_from(ms: Seq<MenuInst>, path: Seq<Seq<char>>, k: int) -> Option<int>
    decreases ms.len() - k,
{
    if k < 0 || k >= ms.len() {
        None
    } else if ms[k].kind == MenuKind::Torn && string_views(ms[k].path@) == path {
        Some(k)
    } else {
        torn_from(ms, path, k + 1)
    }
}

/// Whether two paths hold the same labels.
pub fn paths_eq(a: &Vec<String>, b: &Vec<String>) -> (r: bool)
    ensures
        r == (string_views(a@) == string_views(b@)),
{
    if a.len() != b.len() {
        assert(string_views(a@).len() != string_views(b@).len());
        return false;
    }
    let mut i: usize = 0;
    while i < a.len()
        invariant
            i <= a@.len(),
            a@.len() == b@.len(),
            forall|j: int| 0 <= j < i ==> a@[j]@ == b@[j]@,
        decreases a@.len() - i,
    {
        if !str_eq(a[i].as_str(), b[i].as_str()) {
            assert(string_views(a@)[i as int] != string_views(b@)[i as int]);
            return false;
        }
        i += 1;
    }
    assert(string_views(a@) =~= string_views(b@));
    true
}

impl Menus {
    /// Closes the attached submenus and the popup everywhere; the main menu and the torn-off
    /// menus stay, none showing an open item.
    pub fn close_submenus(&mut self)
        requires
            old(self).wf(),
        ensures
            final(self).wf(),
            final(self).seq == old(self).seq,
            final(self).menus@ == settled_upto(old(self).menus@, old(self).menus@.len() as int),
    {
        let ghost orig = self.menus@;
        let n = self.menus.len();
        let mut out: Vec<MenuInst> = Vec::new();
        let mut taken: usize = 0;
        while self.menus.len() > 0
            invariant
                taken + self.menus@.len() == n,
                orig.len() == n,
                self.menus@ == orig.skip(taken as int),
                out@ == settled_upto(orig, taken as int),
                self.seq == old(self).seq,
                orig == old(self).menus@,
            decreases self.menus@.len(),
        {
            let mut x = self.menus.remove(0);
            assert(x == orig[taken as int]);
            assert(self.menus@ =~= orig.skip(taken + 1));
            if x.kind == MenuKind::Main || x.kind == MenuKind::Torn {
                x.open_item = None;
                out.push(x);
            }
            taken += 1;
        }
        self.menus = out;
        proof {
            lemma_settled(orig, n as int);
            let f = self.menus@;
            assert forall|i: int| 0 <= i < f.len() implies (#[trigger] f[i]).id <= self.seq && (f[i].kind matches MenuKind::Sub { parent, .. } ==> parent < f[i].id) by {
                let k = choose|k: int|
                    0 <= k < n && (orig[k].kind == MenuKind::Main || orig[k].kind == MenuKind::Torn)
                        && #[trigger] f[i] == (MenuInst { open_item: None, ..orig[k] });
            }
        }
    }

    /// Where the chain of parents from menu `m` ends: the kind of the menu at its root, or
    /// nothing where a parent is missing or the chain is longer than the list.
    pub fn root_of(&self, m: u64) -> (r: Option<MenuKind>)
        ensures
            r == root_spec(self.menus@, m, self.menus@.len() as nat),
    {
        let n = self.menus.len();
        let mut cur = m;
        let mut t: usize = 0;
        while t < n
            invariant
                t <= n,
                n == self.menus@.len(),
                root_spec(self.menus@, m, n as nat) == root_spec(self.menus@, cur, (n - t) as nat),
            decreases n - t,
        {
            let i = match self.index_of(cur) {
                None => return None,
                Some(i) => i,
            };
            match self.menus[i].kind {
                MenuKind::Sub { parent, .. } => {
                    cur = parent;
                },
                k => return Some(k),
            }
            t += 1;
        }
        None
    }

    /// The topmost menu under `p` (the last in the list) and the part of it there.
    pub fn menu_hit(&self, p: Pt) -> (r: Option<(usize, MenuPart)>)
        requires
            self.geom_ok(),
        ensures
            r matches Some((i, part)) ==> hit_from(self.menus@, p, self.menus@.len() as int) == Some((i as int, part)),
            r is None ==> hit_from(self.menus@, p, self.menus@.len() as int) is None,
    {
        let mut k: usize = self.menus.len();
        while k > 0
            invariant
                k <= self.menus@.len(),
                self.geom_ok(),
                hit_from(self.menus@, p, self.menus@.len() as int) == hit_from(self.menus@, p, k as int),
            decreases k,
        {
            if let Some(part) = self.menus[k - 1].hit(p) {
                return Some((k - 1, part));
            }
            k -= 1;
        }
        None
    }

    /// Whether a submenu or the popup is showing, or a menu shows an open item.
    pub fn has_open_menus(&self) -> (b: bool)
        ensures
            b == exists|i: int| 0 <= i < self.menus@.len() && ((#[trigger] self.menus@[i]).kind != MenuKind::Main
                && self.menus@[i].kind != MenuKind::Torn || self.menus@[i].open_item is Some),
    {
        let mut i: usize = 0;
        while i < self.menus.len()
            invariant
                i <= self.menus@.len(),
                forall|j: int| 0 <= j < i ==> !((#[trigger] self.menus@[j]).kind != MenuKind::Main
                    && self.menus@[j].kind != MenuKind::Torn || self.menus@[j].open_item is Some),
            decreases self.menus@.len() - i,
        {
            let m = &self.menus[i];
            if (m.kind != MenuKind::Main && m.kind != MenuKind::Torn) || m.open_item.is_some() {
                return true;
            }
            i += 1;
        }
        false
    }

    /// Brings the menu at `i` to the front (the end of the list).
    pub fn raise(&mut self, i: usize)
        requires
            old(self).wf(),
            i < old(self).menus@.len(),
        ensures
            final(self).wf(),
            final(self).seq == old(self).seq,
            final(self).menus@ == old(self).menus@.remove(i as int).push(old(self).menus@[i as int]),
    {
        let t = self.menus.remove(i);
        self.menus.push(t);
        proof {
            let o = old(self).menus@;
            let f = self.menus@;
            assert forall|a: int| 0 <= a < f.len() implies #[trigger] f[a] == (if a == f.len() - 1 { o[i as int] } else if a < i { o[a] } else { o[a + 1] }) by {}
            assert forall|a: int, b: int| 0 <= a < b < f.len() implies (#[trigger] f[a]).id != (#[trigger] f[b]).id by {
                let ia = if a == f.len() - 1 { i as int } else if a < i { a } else { a + 1 };
                let ib = if b == f.len() - 1 { i as int } else if b < i { b } else { b + 1 };
                assert(f[a] == o[ia] && f[b] == o[ib]);
                assert(ia != ib);
                if ia < ib {
                    assert(o[ia].id != o[ib].id);
                } else {
                    assert(o[ib].id != o[ia].id);
                }
            }
            assert forall|a: int| 0 <= a < f.len() implies (#[trigger] f[a]).id <= self.seq && (f[a].kind matches MenuKind::Sub { parent, .. } ==> parent < f[a].id) by {
                let ia = if a == f.len() - 1 { i as int } else if a < i { a } else { a + 1 };
                assert(f[a] == o[ia]);
            }
        }
    }

    /// Opens the popup menu at `p`, `w` wide, after closing every submenu and popup.
    pub fn popup_menu(&mut self, p: Pt, w: i32)
        requires
            old(self).wf(),
            old(self).seq < u64::MAX,
        ensures
            final(self).wf(),
            final(self).seq == old(self).seq + 1,
            final(self).menus@.len() == settled_upto(old(self).menus@, old(self).menus@.len() as int).len() + 1,
            final(self).menus@.drop_last() == settled_upto(old(self).menus@, old(self).menus@.len() as int),
            final(self).menus@.last().id == final(self).seq,
            final(self).menus@.last().title@ == "Workspace"@,
            final(self).menus@.last().items@ == menu_spec(MenuId::Main),
            final(self).menus@.last().path@.len() == 0,
            final(self).menus@.last().pos == p,
            final(self).menus@.last().w == w,
            final(self).menus@.last().kind == MenuKind::Popup,
            final(self).menus@.last().open_item is None,
    {
        self.close_submenus();
        let id = self.next_id();
        let m = MenuInst {
            id,
            title: String::from_str("Workspace"),
            items: menu_items(MenuId::Main),
            path: Vec::new(),
            pos: p,
            w,
            kind: MenuKind::Popup,
            open_item: None,
        };
        let ghost before = self.menus@;
        self.menus.push(m);
        proof {
            assert(self.menus@.drop_last() =~= before);
        }
    }

    /// Chooses item `i` of menu `m`: every submenu and popup closes, and the item's action is
    /// what the caller performs. Nothing happens where `m` is gone.
    pub fn choose_item(&mut self, m: u64, i: usize) -> (r: Option<Act>)
        requires
            old(self).wf(),
            forall|k: int| 0 <= k < old(self).menus@.len() && (#[trigger] old(self).menus@[k]).id == m ==> i < old(self).menus@[k].items@.len(),
        ensures
            final(self).wf(),
            final(self).seq == old(self).seq,
            find_id(old(self).menus@, m) is None ==> r is None && final(self).menus@ == old(self).menus@,
            find_id(old(self).menus@, m) matches Some(k) ==> r == Some(old(self).menus@[k].items@[i as int].act)
                && final(self).menus@ == settled_upto(old(self).menus@, old(self).menus@.len() as int),
    {
        let k = match self.index_of(m) {
            None => return None,
            Some(k) => k,
        };
        let act = self.menus[k].items[i].act;
        self.close_submenus();
        Some(act)
    }
}


/// Two lists of menus that differ at most in where the menus stand and which item they show
/// open.
pub open spec fn same_shape(a: Seq<MenuInst>, b: Seq<MenuInst>) -> bool {
    &&& a.len() == b.len()
    &&& forall|k: int| 0 <= k < a.len() ==> (#[trigger] a[k]).id == b[k].id && a[k].kind == b[k].kind && a[k].w == b[k].w
}

/// What opening the submenu under `item` of menu `parent` leaves, once the parent's other
/// submenus have closed (`ms`): nothing new where the item opens no submenu; the torn-off copy
/// brought forward where one shows the same path; else a new submenu, right of its parent with
/// the tops aligned, with the parent showing the item open.
pub open spec fn opened(ms: Seq<MenuInst>, parent: u64, item: usize, seq: u64, w: i32, f: Seq<MenuInst>, fseq: u64) -> bool {
    match find_id(ms, parent) {
        None => f == ms && fseq == seq,
        Some(k) => {
            let it = ms[k].items@[item as int];
            match it.sub {
                None => f == ms && fseq == seq,
                Some(s) => {
                    let path = string_views(ms[k].path@).push(it.label@);
                    match torn_from(ms, path, 0) {
                        Some(t) => f == ms.remove(t).push(ms[t]) && fseq == seq,
                        None => {
                            &&& fseq == seq + 1
                            &&& f.len() == ms.len() + 1
                            &&& f.drop_last() == ms.update(k, MenuInst { open_item: Some(item), ..ms[k] })
                            &&& f.last().id == fseq
                            &&& f.last().title@ == it.label@
                            &&& f.last().items@ == menu_spec(s)
                            &&& string_views(f.last().path@) == path
                            &&& f.last().pos.x == ms[k].pos.x + ms[k].w + 2
                            &&& f.last().pos.y == ms[k].pos.y
                            &&& f.last().w == w
                            &&& f.last().kind == (MenuKind::Sub { parent, item })
                            &&& f.last().open_item is None
                        },
                    }
                },
            }
        },
    }
}

proof fn lemma_torn_from(ms: Seq<MenuInst>, path: Seq<Seq<char>>, k: int)
    requires
        0 <= k,
    ensures
        torn_from(ms, path, k) matches Some(t) ==> k <= t < ms.len() && ms[t].kind == MenuKind::Torn,
    decreases ms.len() - k,
{
    if k < ms.len() && !(ms[k].kind == MenuKind::Torn && string_views(ms[k].path@) == path) {
        lemma_torn_from(ms, path, k + 1);
    }
}

impl Menus {
    fn set_open(&mut self, i: usize, o: Option<usize>)
        requires
            i < old(self).menus@.len(),
        ensures
            final(self).menus@ == old(self).menus@.update(i as int, MenuInst { open_item: o, ..old(self).menus@[i as int] }),
            final(self).seq == old(self).seq,
    {
        let mut m = self.menus.remove(i);
        m.open_item = o;
        self.menus.insert(i, m);
        assert(self.menus@ =~= old(self).menus@.update(i as int, MenuInst { open_item: o, ..old(self).menus@[i as int] }));
    }

    /// Opens the submenu under item `item` of menu `parent`, `w` wide; the parent's other
    /// submenus close first. Clicking the item already open closes it instead; a submenu already
    /// torn off is brought forward instead of opening twice.
    #[verifier::loop_isolation(false)]
    pub fn open_submenu(&mut self, parent: u64, item: usize, w: i32)
        requires
            old(self).wf(),
            old(self).seq < u64::MAX,
            forall|k: int| 0 <= k < old(self).menus@.len() && (#[trigger] old(self).menus@[k]).id == parent ==> item
                < old(self).menus@[k].items@.len() && fits(old(self).menus@[k].pos.x + old(self).menus@[k].w)
                && fits(old(self).menus@[k].pos.x + old(self).menus@[k].w + 2),
        ensures
            final(self).wf(),
            find_id(old(self).menus@, parent) is None ==> final(self).menus@ == old(self).menus@ && final(self).seq
                == old(self).seq,
            find_id(old(self).menus@, parent) matches Some(k) && old(self).menus@[k].open_item == Some(item) ==> final(self).menus@ == pruned(old(self).menus@, parent) && final(self).seq == old(self).seq,
            find_id(old(self).menus@, parent) matches Some(k) && old(self).menus@[k].open_item != Some(item) ==> opened(
                pruned(old(self).menus@, parent),
                parent,
                item,
                old(self).seq,
                w,
                final(self).menus@,
                final(self).seq,
            ),
    {
        let m = match self.index_of(parent) {
            None => return,
            Some(m) => m,
        };
        let again = match self.menus[m].open_item {
            Some(o) => o == item,
            None => false,
        };
        if again {
            self.close_children_of(parent);
            return;
        }
        let ghost o = self.menus@;
        self.close_children_of(parent);
        let ghost ms = self.menus@;
        proof {
            lemma_pruned_len(o, parent, o.len() as int);
        }
        let m = match self.index_of(parent) {
            None => return,
            Some(m) => m,
        };
        proof {
            let k = choose|k: int| 0 <= k < o.len() && #[trigger] ms[m as int].id == o[k].id && !is_desc(o, o[k].id, parent)
                && ms[m as int] == (if o[k].id == parent { MenuInst { open_item: None, ..o[k] } } else { o[k] });
        }
        let it = self.menus[m].items[item];
        let s = match it.sub {
            None => return,
            Some(s) => s,
        };
        let mut path = self.menus[m].path.clone();
        proof {
            assert forall|j: int| 0 <= j < path@.len() implies path@[j] == ms[m as int].path@[j] by {
                assert(cloned::<String>(ms[m as int].path@[j], path@[j]));
            }
            assert(path@ =~= ms[m as int].path@);
        }
        path.push(String::from_str(it.label));
        proof {
            assert(string_views(path@) =~= string_views(ms[m as int].path@).push(it.label@));
        }
        let ghost pv = string_views(path@);
        let mut t: usize = 0;
        while t < self.menus.len()
            invariant
                t <= self.menus@.len(),
                self.menus@ == ms,
                self.wf(),
                torn_from(ms, pv, 0) == torn_from(ms, pv, t as int),
                string_views(path@) == pv,
                self.seq == old(self).seq,
            decreases self.menus@.len() - t,
        {
            if self.menus[t].kind == MenuKind::Torn && paths_eq(&self.menus[t].path, &path) {
                self.raise(t);
                return;
            }
            t += 1;
        }
        let title = String::from_str(it.label);
        let p = self.menus[m].pos;
        self.set_open(m, Some(item));
        proof {
            assert forall|a: int| 0 <= a < self.menus@.len() implies #[trigger] self.menus@[a].id == ms[a].id && self.menus@[a].kind == ms[a].kind by {}
        }
        let id = self.next_id();
        let x = p.x + self.menus[m].w + 2;
        let ghost before = self.menus@;
        self.menus.push(MenuInst {
            id,
            title,
            items: menu_items(s),
            path,
            pos: pt(x, p.y),
            w,
            kind: MenuKind::Sub { parent, item },
            open_item: None,
        });
        proof {
            assert(self.menus@.drop_last() =~= before);
            let f = self.menus@;
            assert forall|a: int| 0 <= a < f.len() implies (#[trigger] f[a]).id <= self.seq && (f[a].kind matches MenuKind::Sub { parent, .. } ==> parent < f[a].id) by {
                if a < f.len() - 1 {
                    assert(f[a].id == ms[a].id && f[a].kind == ms[a].kind);
                }
            }
        }
    }
}


/// The position of the first remembered torn-off menu with path `path`, from `k` on.
pub open spec fn torn_entry_from(ts: Seq<TornMenu>, path: Seq<Seq<char>>, k: int) -> Option<int>
    decreases ts.len() - k,
{
    if k < 0 || k >= ts.len() {
        None
    } else if string_views(ts[k].path@) == path {
        Some(k)
    } else {
        torn_entry_from(ts, path, k + 1)
    }
}

/// The remembered torn-off menus whose path is not `path`.
pub open spec fn other_paths(path: Seq<Seq<char>>) -> spec_fn(TornMenu) -> bool {
    |t: TornMenu| string_views(t.path@) != path
}

proof fn lemma_torn_entry_from(ts: Seq<TornMenu>, path: Seq<Seq<char>>, k: int)
    requires
        0 <= k,
    ensures
        torn_entry_from(ts, path, k) matches Some(t) ==> k <= t < ts.len() && string_views(ts[t].path@) == path,
        torn_entry_from(ts, path, k) is None ==> forall|j: int| k <= j < ts.len() ==> string_views(#[trigger] ts[j].path@) != path,
    decreases ts.len() - k,
{
    if k < ts.len() && string_views(ts[k].path@) != path {
        lemma_torn_entry_from(ts, path, k + 1);
    }
}

/// The position of the first remembered torn-off menu with the same path as `path`.
fn find_torn_entry(ts: &Vec<TornMenu>, path: &Vec<String>) -> (r: Option<usize>)
    ensures
        r matches Some(t) ==> Some(t as int) == torn_entry_from(ts@, string_views(path@), 0) && t < ts@.len(),
        r is None ==> torn_entry_from(ts@, string_views(path@), 0) is None,
{
    let mut t: usize = 0;
    while t < ts.len()
        invariant
            t <= ts@.len(),
            torn_entry_from(ts@, string_views(path@), 0) == torn_entry_from(ts@, string_views(path@), t as int),
        decreases ts@.len() - t,
    {
        if paths_eq(&ts[t].path, path) {
            return Some(t);
        }
        t += 1;
    }
    None
}

fn clone_path(p: &Vec<String>) -> (r: Vec<String>)
    ensures
        r@ == p@,
{
    let r = p.clone();
    proof {
        assert forall|j: int| 0 <= j < r@.len() implies r@[j] == p@[j] by {
            assert(cloned::<String>(p@[j], r@[j]));
        }
        assert(r@ =~= p@);
    }
    r
}

/// The menus after the attached submenu at `i` is torn off: it becomes a torn-off menu and its
/// parent no longer shows an item open. Any other menu at `i` stays as it is.
pub open spec fn torn_off(ms: Seq<MenuInst>, i: int) -> Seq<MenuInst> {
    match ms[i].kind {
        MenuKind::Sub { parent, .. } => {
            let ms1 = match find_id(ms, parent) {
                Some(pi) => ms.update(pi, MenuInst { open_item: None, ..ms[pi] }),
                None => ms,
            };
            ms1.update(i, MenuInst { kind: MenuKind::Torn, ..ms1[i] })
        },
        _ => ms,
    }
}

impl Menus {
    fn set_kind(&mut self, i: usize, k: MenuKind)
        requires
            i < old(self).menus@.len(),
        ensures
            final(self).menus@ == old(self).menus@.update(i as int, MenuInst { kind: k, ..old(self).menus@[i as int] }),
            final(self).seq == old(self).seq,
    {
        let mut m = self.menus.remove(i);
        m.kind = k;
        self.menus.insert(i, m);
        assert(self.menus@ =~= old(self).menus@.update(i as int, MenuInst { kind: k, ..old(self).menus@[i as int] }));
    }

    /// Tears off the attached submenu at `i`: it stays where it is as a torn-off menu, its parent
    /// no longer shows the item open, and its path is remembered (once) with its position. Says
    /// whether anything changed; a menu that is not an attached submenu stays as it is.
    pub fn tear_off(&mut self, i: usize, torn: &mut Vec<TornMenu>) -> (changed: bool)
        requires
            old(self).wf(),
            i < old(self).menus@.len(),
        ensures
            final(self).wf(),
            final(self).seq == old(self).seq,
            changed == old(self).menus@[i as int].kind is Sub,
            final(self).menus@ == torn_off(old(self).menus@, i as int),
            final(self).menus@.len() == old(self).menus@.len(),
            !changed ==> final(torn)@ == old(torn)@,
            changed ==> {
                let ms = old(self).menus@;
                &&& torn_entry_from(old(torn)@, string_views(ms[i as int].path@), 0) is Some ==> final(torn)@ == old(torn)@
                &&& torn_entry_from(old(torn)@, string_views(ms[i as int].path@), 0) is None ==> {
                    &&& final(torn)@.len() == old(torn)@.len() + 1
                    &&& final(torn)@.drop_last() == old(torn)@
                    &&& string_views(final(torn)@.last().path@) == string_views(ms[i as int].path@)
                    &&& final(torn)@.last().x == ms[i as int].pos.x
                    &&& final(torn)@.last().y == ms[i as int].pos.y
                }
            },
    {
        let parent = match self.menus[i].kind {
            MenuKind::Sub { parent, .. } => parent,
            _ => return false,
        };
        if let Some(pi) = self.index_of(parent) {
            self.set_open(pi, None);
        }
        self.set_kind(i, MenuKind::Torn);
        proof {
            let o = old(self).menus@;
            let f = self.menus@;
            assert forall|a: int| 0 <= a < f.len() implies (#[trigger] f[a]).id == o[a].id && (f[a].kind == o[a].kind || f[a].kind == MenuKind::Torn) by {}
            assert forall|a: int, b: int| 0 <= a < b < f.len() implies (#[trigger] f[a]).id != (#[trigger] f[b]).id by {
                assert(o[a].id != o[b].id);
            }
            assert forall|a: int| 0 <= a < f.len() implies (#[trigger] f[a]).id <= self.seq && (f[a].kind matches MenuKind::Sub { parent, .. } ==> parent < f[a].id) by {
                assert(f[a].id == o[a].id);
            }
        }
        if find_torn_entry(torn, &self.menus[i].path).is_none() {
            let path = clone_path(&self.menus[i].path);
            let pos = self.menus[i].pos;
            let ghost before = torn@;
            torn.push(TornMenu { path, x: pos.x, y: pos.y });
            assert(torn@.drop_last() =~= before);
        }
        true
    }

    /// Closes the torn-off menu `id` with its submenus and forgets its path. Says whether a menu
    /// closed.
    pub fn close_torn(&mut self, id: u64, torn: &mut Vec<TornMenu>) -> (changed: bool)
        requires
            old(self).wf(),
        ensures
            final(self).wf(),
            final(self).seq == old(self).seq,
            ({
                let ms = pruned(old(self).menus@, id);
                match find_id(ms, id) {
                    None => !changed && final(self).menus@ == ms && final(torn)@ == old(torn)@,
                    Some(k) => changed && final(self).menus@ == ms.remove(k)
                        && final(torn)@ == old(torn)@.filter(other_paths(string_views(ms[k].path@))),
                }
            }),
    {
        self.close_children_of(id);
        let k = match self.index_of(id) {
            None => return false,
            Some(k) => k,
        };
        let ghost ms = self.menus@;
        let path = clone_path(&self.menus[k].path);
        self.menus.remove(k);
        proof {
            let f = self.menus@;
            assert forall|a: int| 0 <= a < f.len() implies #[trigger] f[a] == (if a < k { ms[a] } else { ms[a + 1] }) by {}
            assert forall|a: int, b: int| 0 <= a < b < f.len() implies (#[trigger] f[a]).id != (#[trigger] f[b]).id by {
                let ia = if a < k { a } else { a + 1 };
                let ib = if b < k { b } else { b + 1 };
                assert(f[a] == ms[ia] && f[b] == ms[ib]);
                assert(ms[ia].id != ms[ib].id);
            }
            assert forall|a: int| 0 <= a < f.len() implies (#[trigger] f[a]).id <= self.seq && (f[a].kind matches MenuKind::Sub { parent, .. } ==> parent < f[a].id) by {
                let ia = if a < k { a } else { a + 1 };
                assert(f[a] == ms[ia]);
            }
        }
        let ghost pred = other_paths(string_views(path@));
        let ghost ts = torn@;
        let mut kept: Vec<TornMenu> = Vec::new();
        let n = torn.len();
        let mut j: usize = 0;
        while torn.len() > 0
            invariant
                j + torn@.len() == ts.len(),
                ts.len() == n,
                torn@ == ts.skip(j as int),
                kept@ == ts.take(j as int).filter(pred),
                pred == other_paths(string_views(path@)),
            decreases torn@.len(),
        {
            let e = torn.remove(0);
            proof {
                assert(e == ts[j as int]);
                assert(torn@ =~= ts.skip(j + 1));
                assert(ts.take(j + 1) == ts.take(j as int).push(ts[j as int]));
                ts.take(j as int).lemma_filter_push(ts[j as int], pred);
            }
            if !paths_eq(&e.path, &path) {
                kept.push(e);
            }
            j += 1;
        }
        assert(ts.take(ts.len() as int) == ts);
        *torn = kept;
        true
    }

    /// Remembers where the main menu or a torn-off menu now stands, after the menu at `i` moved.
    /// Says whether anything was remembered.
    pub fn menu_moved(&self, i: usize, torn: &mut Vec<TornMenu>, menu_pos: &mut XY) -> (changed: bool)
        requires
            i < self.menus@.len(),
        ensures
            ({
                let m = self.menus@[i as int];
                match m.kind {
                    MenuKind::Main => changed && final(menu_pos).x == m.pos.x && final(menu_pos).y == m.pos.y
                        && final(torn)@ == old(torn)@,
                    MenuKind::Torn => changed && *final(menu_pos) == *old(menu_pos)
                        && match torn_entry_from(old(torn)@, string_views(m.path@), 0) {
                        Some(t) => final(torn)@ == old(torn)@.update(t, TornMenu { x: m.pos.x, y: m.pos.y, ..old(torn)@[t] }),
                        None => final(torn)@ == old(torn)@,
                    },
                    _ => !changed && *final(menu_pos) == *old(menu_pos) && final(torn)@ == old(torn)@,
                }
            }),
    {
        let m = &self.menus[i];
        match m.kind {
            MenuKind::Main => {
                *menu_pos = XY { x: m.pos.x, y: m.pos.y };
                true
            },
            MenuKind::Torn => {
                if let Some(t) = find_torn_entry(torn, &m.path) {
                    let mut e = torn.remove(t);
                    e.x = m.pos.x;
                    e.y = m.pos.y;
                    torn.insert(t, e);
                    assert(torn@ =~= old(torn)@.update(t as int, TornMenu { x: m.pos.x, y: m.pos.y, ..old(torn)@[t as int] }));
                }
                true
            },
            _ => false,
        }
    }
}


/// Every submenu's parent has a smaller id than the submenu.
pub open spec fn parents_older(ms: Seq<MenuInst>) -> bool {
    forall|k: int| 0 <= k < ms.len() ==> ((#[trigger] ms[k]).kind matches MenuKind::Sub { parent, .. } ==> parent < ms[k].id)
}

/// Menu `x` is `root` or hangs below it.
pub open spec fn in_tree(ms: Seq<MenuInst>, x: u64, root: u64) -> bool {
    x == root || is_desc(ms, x, root)
}

/// The x at which menu `id` stands when `root` stands at `bx` and every submenu on the way sits
/// right of its parent, 2 pixels past the parent's width.
pub open spec fn chain_x(ms: Seq<MenuInst>, id: u64, root: u64, bx: int) -> int
    decreases id,
{
    if id == root {
        bx
    } else {
        match find_id(ms, id) {
            Some(k) => match ms[k].kind {
                MenuKind::Sub { parent, .. } => if parent < id {
                    match find_id(ms, parent) {
                        Some(pk) => chain_x(ms, parent, root, bx) + ms[pk].w + 2,
                        None => 0,
                    }
                } else {
                    0
                },
                _ => 0,
            },
            None => 0,
        }
    }
}

/// Where the menu at `i` stands once attached: right of its parent with the tops aligned when
/// it is an attached submenu, where it is otherwise; nothing when its parent is gone.
pub open spec fn anchor(ms: Seq<MenuInst>, i: int) -> Option<(int, int)> {
    match ms[i].kind {
        MenuKind::Sub { parent, .. } => match find_id(ms, parent) {
            Some(pk) => Some((ms[pk].pos.x + ms[pk].w + 2, ms[pk].pos.y as int)),
            None => None,
        },
        _ => Some((ms[i].pos.x as int, ms[i].pos.y as int)),
    }
}

/// The menus after the menu at `i` and every menu below it are attached again: each of them
/// stands at its chain position, the tops aligned with the anchor; nothing else changes.
pub open spec fn placed(ms: Seq<MenuInst>, i: int, f: Seq<MenuInst>) -> bool {
    match anchor(ms, i) {
        None => f == ms,
        Some((bx, by)) => {
            &&& f.len() == ms.len()
            &&& forall|k: int|
                0 <= k < ms.len() ==> if in_tree(ms, (#[trigger] ms[k]).id, ms[i].id) {
                    &&& f[k] == (MenuInst { pos: f[k].pos, ..ms[k] })
                    &&& f[k].pos.x == chain_x(ms, ms[k].id, ms[i].id, bx)
                    &&& f[k].pos.y == by
                } else {
                    f[k] == ms[k]
                }
        },
    }
}

/// Every position that attaching the menu at `i` and those below it computes fits in an `i32`.
pub open spec fn attach_fits(ms: Seq<MenuInst>, i: int) -> bool {
    match anchor(ms, i) {
        None => true,
        Some((bx, by)) => forall|k: int|
            0 <= k < ms.len() && in_tree(ms, (#[trigger] ms[k]).id, ms[i].id) && (k != i || ms[i].kind is Sub) ==> fits(
                chain_x(ms, ms[k].id, ms[i].id, bx),
            ) && fits(chain_x(ms, ms[k].id, ms[i].id, bx) - 2),
    }
}

/// The ancestor of `x` whose parent is `root`.
pub open spec fn top_under(ms: Seq<MenuInst>, x: u64, root: u64) -> u64
    decreases x,
{
    match find_id(ms, x) {
        Some(k) => match ms[k].kind {
            MenuKind::Sub { parent, .. } => if parent == root {
                x
            } else if parent < x {
                top_under(ms, parent, root)
            } else {
                x
            },
            _ => x,
        },
        None => x,
    }
}

proof fn lemma_desc_lt(ms: Seq<MenuInst>, x: u64, m: u64)
    requires
        parents_older(ms),
    ensures
        is_desc(ms, x, m) ==> m < x,
    decreases x,
{
    lemma_find_from(ms, x, 0);
    if let Some(k) = find_id(ms, x) {
        if let MenuKind::Sub { parent, .. } = ms[k].kind {
            if parent != m && parent < x {
                lemma_desc_lt(ms, parent, m);
            }
        }
    }
}

proof fn lemma_shape_find(a: Seq<MenuInst>, b: Seq<MenuInst>, id: u64, k: int)
    requires
        same_shape(a, b),
    ensures
        find_from(a, id, k) == find_from(b, id, k),
    decreases a.len() - k,
{
    if 0 <= k < a.len() && a[k].id != id {
        lemma_shape_find(a, b, id, k + 1);
    }
}

proof fn lemma_shape_desc(a: Seq<MenuInst>, b: Seq<MenuInst>, x: u64, m: u64)
    requires
        same_shape(a, b),
    ensures
        is_desc(a, x, m) == is_desc(b, x, m),
        forall|bx: int| chain_x(a, x, m, bx) == #[trigger] chain_x(b, x, m, bx),
    decreases x,
{
    lemma_shape_find(a, b, x, 0);
    lemma_find_from(a, x, 0);
    if let Some(k) = find_id(a, x) {
        assert(a[k].kind == b[k].kind);
        if let MenuKind::Sub { parent, .. } = a[k].kind {
            lemma_shape_find(a, b, parent, 0);
            lemma_find_from(a, parent, 0);
            if parent < x {
                lemma_shape_desc(a, b, parent, m);
                if let Some(pk) = find_id(a, parent) {
                    assert(a[pk].w == b[pk].w);
                }
            }
        }
    }
    assert forall|bx: int| chain_x(a, x, m, bx) == #[trigger] chain_x(b, x, m, bx) by {
        if let Some(k) = find_id(a, x) {
            assert(a[k].kind == b[k].kind);
            if let MenuKind::Sub { parent, .. } = a[k].kind {
                if parent < x {
                    assert(chain_x(a, parent, m, bx) == chain_x(b, parent, m, bx));
                }
            }
        }
    }
}

/// For a child `c` of `root`: a menu is `c` or below it exactly when it is below `root` with
/// `c` as the ancestor just under `root`; and every menu below `root` has such an ancestor.
proof fn lemma_top(ms: Seq<MenuInst>, x: u64, root: u64, ci: int)
    requires
        parents_older(ms),
        ids_distinct(ms),
        0 <= ci < ms.len(),
        ms[ci].kind matches MenuKind::Sub { parent, .. } && parent == root,
    ensures
        in_tree(ms, x, ms[ci].id) <==> is_desc(ms, x, root) && top_under(ms, x, root) == ms[ci].id,
    decreases x,
{
    let c = ms[ci].id;
    lemma_find_unique(ms, ci);
    lemma_find_from(ms, x, 0);
    lemma_desc_lt(ms, root, c);
    assert(root < c);
    assert(is_desc(ms, c, root));
    assert(top_under(ms, c, root) == c);
    if x != c {
        if let Some(k) = find_id(ms, x) {
            if let MenuKind::Sub { parent, .. } = ms[k].kind {
                assert(parent < x);
                if parent != root && parent != c {
                    lemma_top(ms, parent, root, ci);
                }
            }
        }
    }
}

/// Every menu below `root` has an ancestor just under it, in the list.
proof fn lemma_top_found(ms: Seq<MenuInst>, x: u64, root: u64)
    requires
        parents_older(ms),
        is_desc(ms, x, root),
    ensures
        find_id(ms, top_under(ms, x, root)) matches Some(c) && 0 <= c < ms.len() && ms[c].id == top_under(ms, x, root)
            && (ms[c].kind matches MenuKind::Sub { parent, .. } && parent == root),
    decreases x,
{
    lemma_find_from(ms, x, 0);
    if let Some(k) = find_id(ms, x) {
        if let MenuKind::Sub { parent, .. } = ms[k].kind {
            if parent != root {
                lemma_top_found(ms, parent, root);
            }
        }
    }
}

/// Below a child `c` of `root`, the chain position from `root` is the chain position from `c`,
/// with `c` at its own place.
proof fn lemma_chain_split(ms: Seq<MenuInst>, x: u64, ri: int, ci: int, bx: int)
    requires
        parents_older(ms),
        ids_distinct(ms),
        0 <= ri < ms.len(),
        0 <= ci < ms.len(),
        ms[ci].kind matches MenuKind::Sub { parent, .. } && parent == ms[ri].id,
        in_tree(ms, x, ms[ci].id),
    ensures
        chain_x(ms, x, ms[ri].id, bx) == chain_x(ms, x, ms[ci].id, bx + ms[ri].w + 2),
    decreases x,
{
    let root = ms[ri].id;
    let c = ms[ci].id;
    lemma_find_unique(ms, ci);
    lemma_find_unique(ms, ri);
    lemma_find_from(ms, x, 0);
    lemma_desc_lt(ms, x, c);
    assert(root < c);
    assert(chain_x(ms, root, root, bx) == bx);
    assert(chain_x(ms, c, root, bx) == bx + ms[ri].w + 2);
    if x != c {
        let k = find_id(ms, x)->0;
        if let MenuKind::Sub { parent, .. } = ms[k].kind {
            assert(parent < x);
            lemma_find_from(ms, parent, 0);
            lemma_chain_split(ms, parent, ri, ci, bx);
        }
    }
}

impl Menus {
    fn set_pos(&mut self, i: usize, p: Pt)
        requires
            i < old(self).menus@.len(),
        ensures
            final(self).menus@ == old(self).menus@.update(i as int, MenuInst { pos: p, ..old(self).menus@[i as int] }),
            final(self).seq == old(self).seq,
    {
        let mut m = self.menus.remove(i);
        m.pos = p;
        self.menus.insert(i, m);
        assert(self.menus@ =~= old(self).menus@.update(i as int, MenuInst { pos: p, ..old(self).menus@[i as int] }));
    }
}


impl Menus {
    /// Attaches the menu at `i` to its parent again (right of it, tops aligned) where it is an
    /// attached submenu, then every menu below it, children after their parent. Nothing moves
    /// where its parent is gone.
    pub fn reattach(&mut self, i: usize)
        requires
            old(self).wf(),
            i < old(self).menus@.len(),
            attach_fits(old(self).menus@, i as int),
        ensures
            final(self).wf(),
            final(self).seq == old(self).seq,
            placed(old(self).menus@, i as int, final(self).menus@),
        decreases old(self).seq - old(self).menus@[i as int].id,
    {
        let ghost ms = self.menus@;
        let id = self.menus[i].id;
        proof {
            lemma_find_unique(ms, i as int);
            lemma_desc_lt(ms, id, id);
        }
        if let MenuKind::Sub { parent, .. } = self.menus[i].kind {
            let pi = match self.index_of(parent) {
                None => return,
                Some(pi) => pi,
            };
            let pp = self.menus[pi].pos;
            let x = pp.x + self.menus[pi].w + 2;
            self.set_pos(i, pt(x, pp.y));
        }
        let ghost pair = anchor(ms, i as int)->0;
        let ghost bx = pair.0;
        let ghost by = pair.1;
        let n = self.menus.len();
        proof {
            assert forall|k: int| 0 <= k < n && k != i && is_desc(ms, (#[trigger] ms[k]).id, id) implies find_id(ms, top_under(ms, ms[k].id, id))->0 >= 0 by {
                lemma_top_found(ms, ms[k].id, id);
            }
        }
        let mut j: usize = 0;
        while j < n
            invariant
                j <= n,
                n == ms.len(),
                ms == old(self).menus@,
                self.wf(),
                self.seq == old(self).seq,
                i < n,
                id == ms[i as int].id,
                anchor(ms, i as int) == Some((bx, by)),
                attach_fits(ms, i as int),
                same_shape(ms, self.menus@),
                self.menus@[i as int] == (MenuInst { pos: self.menus@[i as int].pos, ..ms[i as int] }),
                self.menus@[i as int].pos.x == bx,
                self.menus@[i as int].pos.y == by,
                forall|k: int|
                    0 <= k < n && k != i ==> if is_desc(ms, (#[trigger] ms[k]).id, id) && find_id(ms, top_under(ms, ms[k].id, id))->0 < j {
                        &&& self.menus@[k] == (MenuInst { pos: self.menus@[k].pos, ..ms[k] })
                        &&& self.menus@[k].pos.x == chain_x(ms, ms[k].id, id, bx)
                        &&& self.menus@[k].pos.y == by
                    } else {
                        self.menus@[k] == ms[k]
                    },
            decreases n - j,
        {
            let child = match self.menus[j].kind {
                MenuKind::Sub { parent, .. } => parent == id,
                _ => false,
            };
            if child {
                let ghost s = self.menus@;
                proof {
                    lemma_find_unique(ms, j as int);
                    assert(ms[j as int].kind == s[j as int].kind);
                    assert(j != i);
                    lemma_desc_lt(ms, id, ms[j as int].id);
                    assert(s[j as int] == ms[j as int]) by {
                        assert(top_under(ms, ms[j as int].id, id) == ms[j as int].id);
                        assert(is_desc(ms, ms[j as int].id, id));
                    }
                    lemma_chain_split(ms, ms[j as int].id, i as int, j as int, bx);
                    assert(chain_x(ms, ms[j as int].id, id, bx) == bx + ms[i as int].w + 2) by {
                        assert(chain_x(ms, ms[j as int].id, ms[j as int].id, bx + ms[i as int].w + 2) == bx + ms[i as int].w + 2);
                    }
                    lemma_shape_find(ms, s, id, 0);
                    lemma_find_unique(s, i as int);
                    assert(anchor(s, j as int) == Some((bx + ms[i as int].w + 2, by)));
                    assert forall|k: int|
                        0 <= k < s.len() && in_tree(s, (#[trigger] s[k]).id, s[j as int].id) && (k != j || s[j as int].kind is Sub) implies fits(
                            chain_x(s, s[k].id, s[j as int].id, bx + ms[i as int].w + 2),
                        ) && fits(chain_x(s, s[k].id, s[j as int].id, bx + ms[i as int].w + 2) - 2) by {
                        lemma_shape_desc(ms, s, s[k].id, s[j as int].id);
                        lemma_top(ms, ms[k].id, id, j as int);
                        lemma_chain_split(ms, ms[k].id, i as int, j as int, bx);
                        lemma_desc_lt(ms, ms[k].id, id);
                        if k == i {
                            lemma_desc_lt(ms, ms[j as int].id, id);
                        }
                        assert(in_tree(ms, ms[k].id, id));
                    }
                    assert(attach_fits(s, j as int));
                }
                self.reattach(j);
                proof {
                    let f = self.menus@;
                    assert(same_shape(ms, f)) by {
                        assert forall|k: int| 0 <= k < ms.len() implies (#[trigger] ms[k]).id == f[k].id && ms[k].kind == f[k].kind && ms[k].w == f[k].w by {
                            if in_tree(s, s[k].id, s[j as int].id) {
                                assert(f[k] == (MenuInst { pos: f[k].pos, ..s[k] }));
                            }
                        }
                    }
                    assert forall|k: int|
                        0 <= k < n && k != i implies if is_desc(ms, (#[trigger] ms[k]).id, id) && find_id(ms, top_under(ms, ms[k].id, id))->0 < j + 1 {
                            &&& f[k] == (MenuInst { pos: f[k].pos, ..ms[k] })
                            &&& f[k].pos.x == chain_x(ms, ms[k].id, id, bx)
                            &&& f[k].pos.y == by
                        } else {
                            f[k] == ms[k]
                        } by {
                        lemma_shape_desc(ms, s, s[k].id, s[j as int].id);
                        lemma_top(ms, ms[k].id, id, j as int);
                        if is_desc(ms, ms[k].id, id) {
                            lemma_top_found(ms, ms[k].id, id);
                            let c = find_id(ms, top_under(ms, ms[k].id, id))->0;
                            lemma_find_unique(ms, c);
                            if in_tree(ms, ms[k].id, ms[j as int].id) {
                                lemma_chain_split(ms, ms[k].id, i as int, j as int, bx);
                                lemma_find_unique(ms, j as int);
                                assert(c == j);
                            } else {
                                assert(c != j);
                            }
                        }
                    }
                    assert(f[i as int] == s[i as int]) by {
                        lemma_shape_desc(ms, s, s[i as int].id, s[j as int].id);
                        lemma_desc_lt(ms, id, ms[j as int].id);
                    }
                }
            } else {
                proof {
                    assert forall|k: int|
                        0 <= k < n && k != i && is_desc(ms, (#[trigger] ms[k]).id, id) implies find_id(ms, top_under(ms, ms[k].id, id))->0 != j by {
                        lemma_top_found(ms, ms[k].id, id);
                        let c = find_id(ms, top_under(ms, ms[k].id, id))->0;
                        assert(ms[c].kind == self.menus@[c].kind);
                    }
                }
            }
            j += 1;
        }
        proof {
            let f = self.menus@;
            assert forall|k: int| 0 <= k < ms.len() implies if in_tree(ms, (#[trigger] ms[k]).id, ms[i as int].id) {
                &&& f[k] == (MenuInst { pos: f[k].pos, ..ms[k] })
                &&& f[k].pos.x == chain_x(ms, ms[k].id, ms[i as int].id, bx)
                &&& f[k].pos.y == by
            } else {
                f[k] == ms[k]
            } by {
                if k == i {
                    assert(chain_x(ms, id, id, bx) == bx);
                } else {
                    lemma_find_unique(ms, k);
                    if is_desc(ms, ms[k].id, id) {
                        lemma_top_found(ms, ms[k].id, id);
                    } else {
                        assert(ms[k].id != id);
                    }
                }
            }
        }
    }
}


impl Menus {
    /// Moves the menu at `i` to `p` and attaches it and the menus below it again.
    pub fn move_to(&mut self, i: usize, p: Pt)
        requires
            old(self).wf(),
            i < old(self).menus@.len(),
            attach_fits(old(self).menus@.update(i as int, MenuInst { pos: p, ..old(self).menus@[i as int] }), i as int),
        ensures
            final(self).wf(),
            final(self).seq == old(self).seq,
            placed(old(self).menus@.update(i as int, MenuInst { pos: p, ..old(self).menus@[i as int] }), i as int, final(self).menus@),
    {
        self.set_pos(i, p);
        proof {
            let o = old(self).menus@;
            let f = self.menus@;
            assert forall|a: int| 0 <= a < f.len() implies (#[trigger] f[a]).id == o[a].id && f[a].kind == o[a].kind by {}
            assert forall|a: int, b: int| 0 <= a < b < f.len() implies (#[trigger] f[a]).id != (#[trigger] f[b]).id by {
                assert(o[a].id != o[b].id);
            }
        }
        self.reattach(i);
    }

    /// Drags the menu at `i` to `p`: an attached submenu is torn off first (its path remembered
    /// in `torn`), then it and the menus below it move. Says whether a menu was torn off.
    pub fn drag_to(&mut self, i: usize, p: Pt, torn: &mut Vec<TornMenu>) -> (tore: bool)
        requires
            old(self).wf(),
            i < old(self).menus@.len(),
            attach_fits(torn_off(old(self).menus@, i as int).update(i as int, MenuInst { pos: p, ..torn_off(old(self).menus@, i as int)[i as int] }), i as int),
        ensures
            final(self).wf(),
            final(self).seq == old(self).seq,
            tore == old(self).menus@[i as int].kind is Sub,
            !tore ==> final(torn)@ == old(torn)@,
            placed(
                torn_off(old(self).menus@, i as int).update(i as int, MenuInst { pos: p, ..torn_off(old(self).menus@, i as int)[i as int] }),
                i as int,
                final(self).menus@,
            ),
    {
        let tore = self.tear_off(i, torn);
        self.move_to(i, p);
        tore
    }
}

/// After the menus are attached again, every submenu in the moved group sits right of its
/// parent, 2 pixels past the parent's width, with the tops aligned.
pub proof fn law_attached_after_reattach(ms: Seq<MenuInst>, i: int, f: Seq<MenuInst>, k: int)
    requires
        parents_older(ms),
        ids_distinct(ms),
        0 <= i < ms.len(),
        0 <= k < ms.len(),
        anchor(ms, i) is Some,
        placed(ms, i, f),
        in_tree(ms, ms[k].id, ms[i].id),
        ms[k].kind matches MenuKind::Sub { parent, .. } && find_id(ms, parent) is Some,
    ensures
        ({
            let pk = find_id(ms, ms[k].kind->parent)->0;
            &&& 0 <= pk < f.len()
            &&& f[k].pos.x == f[pk].pos.x + f[pk].w + 2
            &&& f[k].pos.y == f[pk].pos.y
        }),
{
    let parent = ms[k].kind->parent;
    let pk = find_id(ms, parent)->0;
    lemma_find_from(ms, parent, 0);
    lemma_find_unique(ms, k);
    lemma_find_unique(ms, i);
    lemma_desc_lt(ms, ms[k].id, ms[i].id);
    assert(parent < ms[k].id);
    let pair = anchor(ms, i)->0;
    if k == i {
        lemma_desc_lt(ms, parent, ms[i].id);
        assert(!in_tree(ms, ms[pk].id, ms[i].id));
        assert(f[pk] == ms[pk]);
        assert(f[i].pos.x == chain_x(ms, ms[i].id, ms[i].id, pair.0));
    } else {
        assert(in_tree(ms, ms[pk].id, ms[i].id));
        assert(f[pk] == (MenuInst { pos: f[pk].pos, ..ms[pk] }));
        assert(f[pk].pos.x == chain_x(ms, parent, ms[i].id, pair.0));
        assert(f[k].pos.x == chain_x(ms, ms[k].id, ms[i].id, pair.0));
        assert(ms[k].id != ms[i].id);
        assert(chain_x(ms, ms[k].id, ms[i].id, pair.0) == chain_x(ms, parent, ms[i].id, pair.0) + ms[pk].w + 2);
    }
}


impl Menus {
    /// Closes the surface of menu `id` as its window's own close button would: a torn-off menu
    /// closes, any other submenu or popup closes with the rest; closing the main menu means
    /// quitting, which the result says (nothing else changes then).
    pub fn close_surface(&mut self, id: u64, torn: &mut Vec<TornMenu>) -> (quit: bool)
        requires
            old(self).wf(),
        ensures
            final(self).wf(),
            final(self).seq == old(self).seq,
            ({
                let ms = old(self).menus@;
                match find_id(ms, id) {
                    None => !quit && final(self).menus@ == ms && final(torn)@ == old(torn)@,
                    Some(k) => match ms[k].kind {
                        MenuKind::Main => quit && final(self).menus@ == ms && final(torn)@ == old(torn)@,
                        MenuKind::Torn => !quit && final(self).menus@ == pruned(ms, id).remove(find_id(pruned(ms, id), id)->0)
                            && final(torn)@ == old(torn)@.filter(other_paths(string_views(ms[k].path@))),
                        _ => !quit && final(self).menus@ == settled_upto(ms, ms.len() as int) && final(torn)@ == old(torn)@,
                    },
                }
            }),
    {
        let k = match self.index_of(id) {
            None => return false,
            Some(k) => k,
        };
        match self.menus[k].kind {
            MenuKind::Main => true,
            MenuKind::Torn => {
                let ghost ms = self.menus@;
                proof {
                    lemma_find_unique(ms, k as int);
                    lemma_pruned_len(ms, id, ms.len() as int);
                    lemma_pruned_keeps(ms, id, ms.len() as int, k as int);
                    lemma_desc_lt(ms, id, id);
                    let f = pruned(ms, id);
                    lemma_pruned_order(ms, id, ms.len() as int);
                    let j = choose|j: int| 0 <= j < f.len() && f[j].id == ms[k as int].id;
                    lemma_find_unique(f, j);
                    let kk = choose|kk: int| 0 <= kk < ms.len() && #[trigger] f[j].id == ms[kk].id && !is_desc(ms, ms[kk].id, id)
                        && f[j] == (if ms[kk].id == id { MenuInst { open_item: None, ..ms[kk] } } else { ms[kk] });
                    assert(ms[kk].id == ms[k as int].id);
                    if kk != k {
                        if kk < k {
                            assert(ms[kk].id != ms[k as int].id);
                        } else {
                            assert(ms[k as int].id != ms[kk].id);
                        }
                    }
                }
                self.close_torn(id, torn);
                false
            },
            _ => {
                self.close_submenus();
                false
            },
        }
    }
}


/// The positions, among the first `n` remembered torn-off menus, of those whose path still
/// leads to a menu.
pub open spec fn resolvable_upto(ts: Seq<TornMenu>, n: int) -> Seq<int>
    decreases n,
{
    if n <= 0 {
        seq![]
    } else if resolve_from(MenuId::Main, string_views(ts[n - 1].path@)) is Some {
        resolvable_upto(ts, n - 1).push(n - 1)
    } else {
        resolvable_upto(ts, n - 1)
    }
}

/// A torn-off menu's title: the last label of its path.
pub open spec fn path_title(path: Seq<Seq<char>>) -> Seq<char> {
    if path.len() == 0 {
        seq![]
    } else {
        path.last()
    }
}

proof fn lemma_resolvable(ts: Seq<TornMenu>, n: int)
    requires
        0 <= n <= ts.len(),
    ensures
        resolvable_upto(ts, n).len() <= n,
        forall|j: int| 0 <= j < resolvable_upto(ts, n).len() ==> 0 <= #[trigger] resolvable_upto(ts, n)[j] < n,
    decreases n,
{
    if n > 0 {
        lemma_resolvable(ts, n - 1);
    }
}

impl Menus {
    /// The menus the Workspace starts with: the main menu at `menu_pos`, `main_w` wide, then a
    /// torn-off menu for each remembered path that still leads to a menu (`torn_w[k]` wide for
    /// `torn[k]`), in order, with ids from 1 up.
    pub fn build(menu_pos: &XY, torn: &Vec<TornMenu>, main_w: i32, torn_w: &Vec<i32>) -> (r: Menus)
        requires
            torn_w@.len() == torn@.len(),
            torn@.len() < u64::MAX,
        ensures
            r.wf(),
            r.seq == r.menus@.len(),
            r.menus@.len() == resolvable_upto(torn@, torn@.len() as int).len() + 1,
            r.menus@[0].id == 1,
            r.menus@[0].title@ == "Workspace"@,
            r.menus@[0].items@ == menu_spec(MenuId::Main),
            r.menus@[0].path@.len() == 0,
            r.menus@[0].pos == (Pt { x: menu_pos.x, y: menu_pos.y }),
            r.menus@[0].w == main_w,
            r.menus@[0].kind == MenuKind::Main,
            r.menus@[0].open_item is None,
            forall|j: int| 0 < j < r.menus@.len() ==> {
                let t = #[trigger] resolvable_upto(torn@, torn@.len() as int)[j - 1];
                let path = string_views(torn@[t].path@);
                &&& r.menus@[j].id == j + 1
                &&& r.menus@[j].title@ == path_title(path)
                &&& r.menus@[j].items@ == menu_spec(resolve_from(MenuId::Main, path)->0)
                &&& string_views(r.menus@[j].path@) == path
                &&& r.menus@[j].pos == (Pt { x: torn@[t].x, y: torn@[t].y })
                &&& r.menus@[j].w == torn_w@[t]
                &&& r.menus@[j].kind == MenuKind::Torn
                &&& r.menus@[j].open_item is None
            },
    {
        let mut m = Menus { menus: Vec::new(), seq: 0 };
        let id = m.next_id();
        m.menus.push(MenuInst {
            id,
            title: String::from_str("Workspace"),
            items: menu_items(MenuId::Main),
            path: Vec::new(),
            pos: pt(menu_pos.x, menu_pos.y),
            w: main_w,
            kind: MenuKind::Main,
            open_item: None,
        });
        let mut k: usize = 0;
        while k < torn.len()
            invariant
                k <= torn@.len(),
                torn_w@.len() == torn@.len(),
                torn@.len() < u64::MAX,
                m.seq == m.menus@.len(),
                m.menus@.len() == resolvable_upto(torn@, k as int).len() + 1,
                m.menus@[0].id == 1,
                m.menus@[0].title@ == "Workspace"@,
                m.menus@[0].items@ == menu_spec(MenuId::Main),
                m.menus@[0].path@.len() == 0,
                m.menus@[0].pos == (Pt { x: menu_pos.x, y: menu_pos.y }),
                m.menus@[0].w == main_w,
                m.menus@[0].kind == MenuKind::Main,
                m.menus@[0].open_item is None,
                forall|j: int| 0 <= j < m.menus@.len() ==> (#[trigger] m.menus@[j]).id == j + 1 && m.menus@[j].kind !is Sub,
                forall|j: int| 0 < j < m.menus@.len() ==> {
                    let t = #[trigger] resolvable_upto(torn@, k as int)[j - 1];
                    let path = string_views(torn@[t].path@);
                    &&& m.menus@[j].title@ == path_title(path)
                    &&& m.menus@[j].items@ == menu_spec(resolve_from(MenuId::Main, path)->0)
                    &&& string_views(m.menus@[j].path@) == path
                    &&& m.menus@[j].pos == (Pt { x: torn@[t].x, y: torn@[t].y })
                    &&& m.menus@[j].w == torn_w@[t]
                    &&& m.menus@[j].kind == MenuKind::Torn
                    &&& m.menus@[j].open_item is None
                },
            decreases torn@.len() - k,
        {
            proof {
                lemma_resolvable(torn@, k as int);
            }
            let t = &torn[k];
            if let Some(items) = resolve_path(t.path.as_slice()) {
                let title = if t.path.len() > 0 {
                    let last = t.path.len() - 1;
                    let mut s = String::new();
                    crate::text::push_str(&mut s, t.path[last].as_str());
                    s
                } else {
                    String::new()
                };
                let path = clone_path(&t.path);
                let ghost before = m.menus@;
                let id = m.next_id();
                m.menus.push(MenuInst {
                    id,
                    title,
                    items: menu_items(items),
                    path,
                    pos: pt(t.x, t.y),
                    w: torn_w[k],
                    kind: MenuKind::Torn,
                    open_item: None,
                });
                proof {
                    assert(m.menus@.drop_last() == before);
                    assert(path_title(string_views(torn@[k as int].path@)) == title@) by {
                        if torn@[k as int].path@.len() > 0 {
                            assert(string_views(torn@[k as int].path@).last() == torn@[k as int].path@.last()@);
                        }
                    }
                    assert forall|j: int| 0 < j < m.menus@.len() implies #[trigger] resolvable_upto(torn@, k + 1)[j - 1] == (if j < m.menus@.len() - 1 { resolvable_upto(torn@, k as int)[j - 1] } else { k as int }) by {}
                }
            } else {
                proof {
                    assert(resolvable_upto(torn@, k + 1) == resolvable_upto(torn@, k as int));
                }
            }
            k += 1;
        }
        proof {
            assert forall|a: int, b: int| 0 <= a < b < m.menus@.len() implies (#[trigger] m.menus@[a]).id != (#[trigger] m.menus@[b]).id by {}
        }
        m
    }
}


/// A menu's title dragged more than 4 pixels (along both axes together) from where the menu
/// stands has begun to move it.
pub open spec fn moved_spec(pos: Pt, to: Pt) -> bool {
    (if to.x >= pos.x { to.x - pos.x } else { pos.x - to.x }) + (if to.y >= pos.y { to.y - pos.y } else { pos.y - to.y }) > 4
}

fn moved_far(pos: Pt, to: Pt) -> (b: bool)
    ensures
        b == moved_spec(pos, to),
{
    let dx = (to.x as i64) - (pos.x as i64);
    let dy = (to.y as i64) - (pos.y as i64);
    let ax = if dx < 0 { -dx } else { dx };
    let ay = if dy < 0 { -dy } else { dy };
    ax + ay > 4
}

impl Menus {
    /// The pointer, holding menu `m` by the point `grab` of its title, is at `p`: once it has
    /// moved the menu more than 4 pixels (or did before), the menu follows it, torn off first
    /// where it was attached. Gives whether the menu is moving, or nothing where it is gone.
    pub fn menu_drag(&mut self, m: u64, grab: Pt, p: Pt, moved: bool, torn: &mut Vec<TornMenu>) -> (r: Option<bool>)
        requires
            old(self).wf(),
            fits(p.x - grab.x),
            fits(p.y - grab.y),
            forall|k: int| 0 <= k < old(self).menus@.len() && (#[trigger] old(self).menus@[k]).id == m ==> attach_fits(
                torn_off(old(self).menus@, k).update(k, MenuInst { pos: Pt { x: (p.x - grab.x) as i32, y: (p.y - grab.y) as i32 }, ..torn_off(old(self).menus@, k)[k] }),
                k,
            ),
        ensures
            final(self).wf(),
            final(self).seq == old(self).seq,
            ({
                let ms = old(self).menus@;
                let to = Pt { x: (p.x - grab.x) as i32, y: (p.y - grab.y) as i32 };
                match find_id(ms, m) {
                    None => r is None && final(self).menus@ == ms && final(torn)@ == old(torn)@,
                    Some(k) => {
                        let now = moved || moved_spec(ms[k].pos, to);
                        &&& r == Some(now)
                        &&& !now ==> final(self).menus@ == ms && final(torn)@ == old(torn)@
                        &&& now ==> placed(torn_off(ms, k).update(k, MenuInst { pos: to, ..torn_off(ms, k)[k] }), k, final(self).menus@)
                    },
                }
            }),
    {
        let i = match self.index_of(m) {
            None => return None,
            Some(i) => i,
        };
        let to = pt(p.x - grab.x, p.y - grab.y);
        let now = moved || moved_far(self.menus[i].pos, to);
        if now {
            self.drag_to(i, to, torn);
        }
        Some(now)
    }
}


/// Once every submenu and popup closes, nothing is open: only the main menu and the torn-off
/// menus stay, none showing an open item, and every one of those stays.
pub proof fn law_closing_submenus_leaves_nothing_open(ms: Seq<MenuInst>)
    ensures
        forall|i: int| 0 <= i < settled_upto(ms, ms.len() as int).len() ==> {
            let x = #[trigger] settled_upto(ms, ms.len() as int)[i];
            &&& x.kind == MenuKind::Main || x.kind == MenuKind::Torn
            &&& x.open_item is None
        },
        forall|k: int| 0 <= k < ms.len() && ((#[trigger] ms[k]).kind == MenuKind::Main || ms[k].kind == MenuKind::Torn) ==> exists|i: int|
            0 <= i < settled_upto(ms, ms.len() as int).len() && settled_upto(ms, ms.len() as int)[i] == (MenuInst { open_item: None, ..ms[k] }),
{
    lemma_settled(ms, ms.len() as int);
    assert forall|k: int| 0 <= k < ms.len() && ((#[trigger] ms[k]).kind == MenuKind::Main || ms[k].kind == MenuKind::Torn) implies exists|i: int|
        0 <= i < settled_upto(ms, ms.len() as int).len() && settled_upto(ms, ms.len() as int)[i] == (MenuInst { open_item: None, ..ms[k] }) by {
        lemma_settled_keeps(ms, ms.len() as int, k);
    }
}

proof fn lemma_settled_keeps(ms: Seq<MenuInst>, n: int, k: int)
    requires
        0 <= k < n <= ms.len(),
        ms[k].kind == MenuKind::Main || ms[k].kind == MenuKind::Torn,
    ensures
        exists|i: int| 0 <= i < settled_upto(ms, n).len() && settled_upto(ms, n)[i] == (MenuInst { open_item: None, ..ms[k] }),
    decreases n,
{
    let prev = settled_upto(ms, n - 1);
    let cur = settled_upto(ms, n);
    if k == n - 1 {
        assert(cur[cur.len() - 1] == (MenuInst { open_item: None, ..ms[k] }));
    } else {
        lemma_settled_keeps(ms, n - 1, k);
        let i = choose|i: int| 0 <= i < prev.len() && prev[i] == (MenuInst { open_item: None, ..ms[k] });
        assert(cur[i] == prev[i]);
    }
}

} // verus!
