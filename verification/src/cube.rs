//! Improv's cube of figures, apart from the figures themselves: a figure per cell coordinate (one
//! item index per category), kept whole when a category is pivoted to another place, an item is
//! taken away, or one is added.
use vstd::prelude::*;
use crate::improv::{new_item_name, Cat, MAX_ITEMS};
use crate::librarian::{is_ws, trim, trim_spec, ws};
use crate::text::{chars_of, str_eq, string_of};

verus! {

fn copy_cat(c: &Cat, col: bool) -> (r: Cat)
    ensures
        r.name@ == c.name@,
        r.items@ == c.items@,
        r.col == col,
{
    let items = c.items.clone();
    proof {
        assert forall|j: int| 0 <= j < items@.len() implies items@[j] == c.items@[j] by {
            assert(vstd::pervasive::cloned::<String>(c.items@[j], items@[j]));
        }
        assert(items@ =~= c.items@);
    }
    Cat { name: c.name.clone(), items, col }
}

/// The categories other than `cat`, in order.
pub open spec fn others(n: int, cat: int) -> Seq<usize> {
    Seq::new((n - 1) as nat, |j: int| (if j < cat { j } else { j + 1 }) as usize)
}

/// The place of the `idx`-th category (from `p` on) of `o` on the axis `col`, or the end.
pub open spec fn nth_slot(cats: Seq<Cat>, o: Seq<usize>, col: bool, idx: int, p: int) -> int
    decreases o.len() - p,
{
    if p < 0 || p >= o.len() {
        o.len() as int
    } else if cats[o[p] as int].col == col {
        if idx <= 0 {
            p
        } else {
            nth_slot(cats, o, col, idx - 1, p + 1)
        }
    } else {
        nth_slot(cats, o, col, idx, p + 1)
    }
}

/// The order of the categories once `cat` is put on the axis `col` at position `idx` among the
/// categories there (after the last one where there are fewer).
pub open spec fn pivot_spec(cats: Seq<Cat>, cat: int, col: bool, idx: int) -> Seq<usize> {
    let o = others(cats.len() as int, cat);
    o.insert(nth_slot(cats, o, col, idx, 0), cat as usize)
}

/// A coordinate read in a new order of the categories.
pub open spec fn permuted(k: Seq<u8>, order: Seq<usize>) -> Seq<u8> {
    Seq::new(order.len(), |m: int| k[order[m] as int])
}

proof fn lemma_nth_slot(cats: Seq<Cat>, o: Seq<usize>, col: bool, idx: int, p: int)
    requires
        0 <= p,
    ensures
        p <= nth_slot(cats, o, col, idx, p) <= o.len() || (p > o.len() && nth_slot(cats, o, col, idx, p) == o.len()),
    decreases o.len() - p,
{
    if p < o.len() {
        lemma_nth_slot(cats, o, col, if cats[o[p] as int].col == col { idx - 1 } else { idx }, p + 1);
    }
}

/// Category `i` has a place in the order `o`.
pub open spec fn appears(o: Seq<usize>, i: int) -> bool {
    exists|m: int| 0 <= m < o.len() && o[m] == i
}

/// The new order of the categories is a permutation: each of them comes exactly once.
pub proof fn law_pivot_is_a_permutation(cats: Seq<Cat>, cat: int, col: bool, idx: int)
    requires
        0 <= cat < cats.len() <= usize::MAX,
    ensures
        pivot_spec(cats, cat, col, idx).len() == cats.len(),
        forall|m: int| 0 <= m < cats.len() ==> (#[trigger] pivot_spec(cats, cat, col, idx)[m]) < cats.len(),
        forall|a: int, b: int| 0 <= a < b < cats.len() ==> #[trigger] pivot_spec(cats, cat, col, idx)[a] != #[trigger] pivot_spec(cats, cat, col, idx)[b],
        forall|i: int| 0 <= i < cats.len() ==> #[trigger] appears(pivot_spec(cats, cat, col, idx), i),
{
    let n = cats.len() as int;
    let o = others(n, cat);
    let p = nth_slot(cats, o, col, idx, 0);
    lemma_nth_slot(cats, o, col, idx, 0);
    let r = pivot_spec(cats, cat, col, idx);
    assert(r.len() == n);
    assert forall|m: int| 0 <= m < n implies #[trigger] r[m] == (if m < p { o[m] } else if m == p { cat as usize } else { o[m - 1] }) by {}
    assert forall|a: int, b: int| 0 <= a < b < n implies #[trigger] r[a] != #[trigger] r[b] by {
        assert(r[a] == (if a < p { o[a] } else if a == p { cat as usize } else { o[a - 1] }));
        assert(r[b] == (if b < p { o[b] } else if b == p { cat as usize } else { o[b - 1] }));
    }
    assert forall|i: int| 0 <= i < n implies #[trigger] appears(r, i) by {
        if i == cat {
            assert(r[p] == i);
        } else {
            let j = if i < cat { i } else { i - 1 };
            assert(o[j] == i);
            if j < p {
                assert(r[j] == i);
            } else {
                assert(r[j + 1] == i);
            }
        }
    }
}

/// Pivoting keeps the cube: in every coordinate, each category keeps its item, now at the
/// category's new place.
pub proof fn law_pivot_keeps_the_cube(cats: Seq<Cat>, cat: int, col: bool, idx: int, k: Seq<u8>, i: int)
    requires
        0 <= cat < cats.len() <= usize::MAX,
        k.len() == cats.len(),
        0 <= i < cats.len(),
    ensures
        exists|m: int|
            0 <= m < cats.len() && pivot_spec(cats, cat, col, idx)[m] == i && #[trigger] permuted(k, pivot_spec(cats, cat, col, idx))[m]
                == k[i],
{
    law_pivot_is_a_permutation(cats, cat, col, idx);
    let o = pivot_spec(cats, cat, col, idx);
    assert(appears(o, i));
    let m = choose|m: int| 0 <= m < o.len() && o[m] == i;
    assert(permuted(k, o)[m] == k[i]);
}

/// The order of the categories once `cat` moves to the axis `col`, at position `idx` among the
/// categories there.
pub fn pivot_order(cats: &[Cat], cat: usize, col: bool, idx: usize) -> (o: Vec<usize>)
    requires
        cat < cats@.len(),
    ensures
        o@ == pivot_spec(cats@, cat as int, col, idx as int),
{
    let n = cats.len();
    let mut order: Vec<usize> = Vec::new();
    let mut i: usize = 0;
    while i < n
        invariant
            i <= n,
            n == cats@.len(),
            cat < n,
            order@ == others(n as int, cat as int).take(if i <= cat { i as int } else { i - 1 }),
        decreases n - i,
    {
        if i != cat {
            order.push(i);
        }
        i += 1;
    }
    let ghost o = others(n as int, cat as int);
    assert(order@ =~= o);
    let mut p: usize = 0;
    let mut left: usize = idx;
    let mut slot: usize = order.len();
    let mut found = false;
    while p < order.len() && !found
        invariant
            p <= order@.len(),
            order@ == o,
            n == cats@.len(),
            cat < n,
            forall|m: int| 0 <= m < o.len() ==> (#[trigger] o[m]) < n,
            !found ==> slot == o.len() && nth_slot(cats@, o, col, idx as int, 0) == nth_slot(cats@, o, col, left as int, p as int),
            found ==> slot == nth_slot(cats@, o, col, idx as int, 0),
        decreases order@.len() - p + (if found { 0int } else { 1int }),
    {
        if cats[order[p]].col == col {
            if left == 0 {
                slot = p;
                found = true;
            } else {
                left -= 1;
            }
        }
        if !found {
            p += 1;
        }
    }
    proof {
        lemma_nth_slot(cats@, o, col, idx as int, 0);
    }
    order.insert(slot, cat);
    order
}

/// `k` read in the order `order`.
pub fn permute(k: &[u8], order: &[usize]) -> (r: Vec<u8>)
    requires
        forall|m: int| 0 <= m < order@.len() ==> (#[trigger] order@[m]) < k@.len(),
    ensures
        r@ == permuted(k@, order@),
{
    let mut r: Vec<u8> = Vec::new();
    let mut m: usize = 0;
    while m < order.len()
        invariant
            m <= order@.len(),
            forall|j: int| 0 <= j < order@.len() ==> (#[trigger] order@[j]) < k@.len(),
            r@ == permuted(k@, order@.take(m as int)),
        decreases order@.len() - m,
    {
        r.push(k[order[m]]);
        m += 1;
        assert(r@ =~= permuted(k@, order@.take(m as int)));
    }
    assert(order@.take(order@.len() as int) =~= order@);
    r
}

/// The figures of a worksheet, by cell coordinate, and the selected cell. `V` is the figure.
pub struct Cube<V> {
    pub cats: Vec<Cat>,
    pub cells: Vec<(Vec<u8>, V)>,
    pub sel: Vec<u8>,
}

/// The cells that stay when item `item` of category `cat` goes, those after it sliding down.
pub open spec fn drop_item<V>(cells: Seq<(Vec<u8>, V)>, cat: int, item: int, n: int) -> Seq<(Seq<u8>, V)>
    decreases n,
{
    if n <= 0 {
        seq![]
    } else {
        let prev = drop_item(cells, cat, item, n - 1);
        let (k, v) = cells[n - 1];
        if k@[cat] as int == item {
            prev
        } else if k@[cat] as int > item {
            prev.push((k@.update(cat, (k@[cat] - 1) as u8), v))
        } else {
            prev.push((k@, v))
        }
    }
}

pub open spec fn cell_views<V>(cells: Seq<(Vec<u8>, V)>) -> Seq<(Seq<u8>, V)> {
    cells.map_values(|c: (Vec<u8>, V)| (c.0@, c.1))
}

impl<V> Cube<V> {
    /// Every coordinate, the selected one too, has one item index per category.
    pub open spec fn shaped(&self) -> bool {
        &&& self.sel@.len() == self.cats@.len()
        &&& forall|j: int| 0 <= j < self.cells@.len() ==> (#[trigger] self.cells@[j]).0@.len() == self.cats@.len()
    }

    /// Puts category `cat` on the column axis (`col`) or the row axis at position `idx` among the
    /// categories there, keeping the cube whole: every coordinate is read in the new order.
    pub fn move_cat(&mut self, cat: usize, col: bool, idx: usize)
        requires
            old(self).shaped(),
            cat < old(self).cats@.len(),
        ensures
            final(self).shaped(),
            ({
                let order = pivot_spec(old(self).cats@, cat as int, col, idx as int);
                &&& final(self).cats@.len() == old(self).cats@.len()
                &&& forall|m: int| 0 <= m < order.len() ==> {
                    let c = old(self).cats@[#[trigger] order[m] as int];
                    &&& final(self).cats@[m].name@ == c.name@
                    &&& final(self).cats@[m].items@ == c.items@
                    &&& final(self).cats@[m].col == (if order[m] == cat { col } else { c.col })
                }
                &&& final(self).cells@.len() == old(self).cells@.len()
                &&& forall|j: int| 0 <= j < old(self).cells@.len() ==> (#[trigger] final(self).cells@[j]).0@ == permuted(old(self).cells@[j].0@, order)
                    && final(self).cells@[j].1 == old(self).cells@[j].1
                &&& final(self).sel@ == permuted(old(self).sel@, order)
            }),
    {
        let order = pivot_order(&self.cats, cat, col, idx);
        let n = self.cats.len();
        proof {
            law_pivot_is_a_permutation(self.cats@, cat as int, col, idx as int);
        }
        let mut cats: Vec<Cat> = Vec::new();
        let mut m: usize = 0;
        while m < n
            invariant
                m <= n,
                n == self.cats@.len(),
                self.cats == old(self).cats,
                self.sel == old(self).sel,
                self.cells == old(self).cells,
                order@ == pivot_spec(self.cats@, cat as int, col, idx as int),
                order@.len() == n,
                forall|j: int| 0 <= j < n ==> (#[trigger] order@[j]) < n,
                cats@.len() == m,
                forall|j: int| 0 <= j < m ==> {
                    let c = self.cats@[#[trigger] order@[j] as int];
                    &&& cats@[j].name@ == c.name@
                    &&& cats@[j].items@ == c.items@
                    &&& cats@[j].col == (if order@[j] == cat { col } else { c.col })
                },
            decreases n - m,
        {
            let i = order[m];
            let c = copy_cat(&self.cats[i], if i == cat { col } else { self.cats[i].col });
            cats.push(c);
            m += 1;
        }
        let ghost cells0 = self.cells@;
        let total = self.cells.len();
        let mut cells: Vec<(Vec<u8>, V)> = Vec::new();
        let mut j: usize = 0;
        while self.cells.len() > 0
            invariant
                j + self.cells@.len() == total,
                total == cells0.len(),
                self.cells@ == cells0.skip(j as int),
                cells0 == old(self).cells@,
                old(self).shaped(),
                self.cats == old(self).cats,
                self.sel == old(self).sel,
                n == self.cats@.len(),
                order@.len() == n,
                forall|q: int| 0 <= q < n ==> (#[trigger] order@[q]) < n,
                cells@.len() == j,
                forall|q: int| 0 <= q < j ==> (#[trigger] cells@[q]).0@ == permuted(cells0[q].0@, order@) && cells@[q].1 == cells0[q].1,
            decreases self.cells@.len(),
        {
            let (k, v) = self.cells.remove(0);
            proof {
                assert((k, v) == cells0[j as int]);
                assert(self.cells@ =~= cells0.skip(j + 1));
                assert(k@.len() == n);
            }
            let pk = permute(&k, &order);
            cells.push((pk, v));
            j += 1;
        }
        let sel = permute(&self.sel, &order);
        self.cats = cats;
        self.cells = cells;
        self.sel = sel;
    }

    /// Takes item `item` out of category `cat` with its figures, the items after it sliding
    /// down; the selection stays on an item that is still there. The last item of a category
    /// cannot go: a category with no items has no cells at all. Says whether an item went.
    pub fn remove_item(&mut self, cat: usize, item: usize) -> (gone: bool)
        requires
            old(self).shaped(),
            cat < old(self).cats@.len(),
        ensures
            final(self).shaped(),
            gone == (old(self).cats@[cat as int].items@.len() >= 2 && item < old(self).cats@[cat as int].items@.len()),
            !gone ==> final(self).cats@ == old(self).cats@ && final(self).cells@ == old(self).cells@ && final(self).sel@ == old(self).sel@,
            gone ==> {
                &&& final(self).cats@.len() == old(self).cats@.len()
                &&& forall|c: int| 0 <= c < final(self).cats@.len() && c != cat ==> #[trigger] final(self).cats@[c] == old(self).cats@[c]
                &&& final(self).cats@[cat as int].items@ == old(self).cats@[cat as int].items@.remove(item as int)
                &&& final(self).cats@[cat as int].name == old(self).cats@[cat as int].name
                &&& final(self).cats@[cat as int].col == old(self).cats@[cat as int].col
                &&& cell_views(final(self).cells@) == drop_item(old(self).cells@, cat as int, item as int, old(self).cells@.len() as int)
                &&& final(self).sel@ == old(self).sel@.update(cat as int, (if old(self).sel@[cat as int] as int > old(self).cats@[cat as int].items@.len() - 2 {
                    old(self).cats@[cat as int].items@.len() - 2
                } else {
                    old(self).sel@[cat as int] as int
                }) as u8)
            },
    {
        let len = self.cats[cat].items.len();
        if len < 2 || item >= len {
            return false;
        }
        let mut c = self.cats.remove(cat);
        c.items.remove(item);
        self.cats.insert(cat, c);
        let ghost cats1 = self.cats@;
        assert(forall|q: int| 0 <= q < cats1.len() && q != cat ==> #[trigger] cats1[q] == old(self).cats@[q]);
        let ghost cells0 = self.cells@;
        let total = self.cells.len();
        let mut kept: Vec<(Vec<u8>, V)> = Vec::new();
        let mut j: usize = 0;
        while self.cells.len() > 0
            invariant
                j + self.cells@.len() == total,
                total == cells0.len(),
                self.cells@ == cells0.skip(j as int),
                cells0 == old(self).cells@,
                old(self).shaped(),
                cat < old(self).cats@.len(),
                cell_views(kept@) == drop_item(cells0, cat as int, item as int, j as int),
                self.sel == old(self).sel,
                self.cats@ == cats1,
                cats1.len() == old(self).cats@.len(),
                forall|q: int| 0 <= q < kept@.len() ==> (#[trigger] kept@[q]).0@.len() == old(self).cats@.len(),
            decreases self.cells@.len(),
        {
            let (mut k, v) = self.cells.remove(0);
            proof {
                assert((k, v) == cells0[j as int]);
                assert(self.cells@ =~= cells0.skip(j + 1));
            }
            let ki = k[cat] as usize;
            let ghost before = kept@;
            if ki != item {
                if ki > item {
                    let d = k[cat] - 1;
                    k.set(cat, d);
                }
                kept.push((k, v));
                proof {
                    assert(cell_views(kept@) =~= cell_views(before).push(cell_views(kept@).last()));
                }
            } else {
                assert(cell_views(kept@) =~= cell_views(before));
            }
            j += 1;
        }
        self.cells = kept;
        let s = self.sel[cat];
        if (s as usize) > len - 2 {
            let last = (len - 2) as u8;
            self.sel.set(cat, last);
        }
        proof {
            assert(self.sel@ =~= old(self).sel@.update(cat as int, (if old(self).sel@[cat as int] as int > len - 2 {
                len - 2
            } else {
                old(self).sel@[cat as int] as int
            }) as u8));
        }
        true
    }

    /// Adds an item to category `cat`, named with the first free `Item n`, and gives its place.
    /// A category holds at most 256 items: an item index is one byte.
    pub fn add_item(&mut self, cat: usize) -> (r: Option<usize>)
        requires
            old(self).shaped(),
            cat < old(self).cats@.len(),
        ensures
            final(self).shaped(),
            final(self).cells == old(self).cells,
            final(self).sel == old(self).sel,
            final(self).cats@.len() == old(self).cats@.len(),
            forall|c: int| 0 <= c < final(self).cats@.len() && c != cat ==> #[trigger] final(self).cats@[c] == old(self).cats@[c],
            old(self).cats@[cat as int].items@.len() >= MAX_ITEMS ==> r is None && final(self).cats@ == old(self).cats@,
            old(self).cats@[cat as int].items@.len() < MAX_ITEMS ==> {
                let items = old(self).cats@[cat as int].items@;
                &&& r == Some(items.len() as usize)
                &&& final(self).cats@[cat as int].items@.len() == items.len() + 1
                &&& final(self).cats@[cat as int].items@.drop_last() == items
                &&& forall|i: int| 0 <= i < items.len() ==> #[trigger] items[i]@ != final(self).cats@[cat as int].items@.last()@
                &&& final(self).cats@[cat as int].name == old(self).cats@[cat as int].name
                &&& final(self).cats@[cat as int].col == old(self).cats@[cat as int].col
            },
    {
        if self.cats[cat].items.len() >= MAX_ITEMS {
            return None;
        }
        let name = new_item_name(self.cats[cat].items.as_slice());
        let mut c = self.cats.remove(cat);
        let ghost items = c.items@;
        c.items.push(name);
        assert(c.items@.drop_last() =~= items);
        let n = c.items.len() - 1;
        self.cats.insert(cat, c);
        Some(n)
    }
}


/// What naming item `i` with the typed `text` does: the name is the text without white space
/// at its ends; an empty one, or one another item of the category has, keeps the old name.
pub enum Naming {
    Keep,
    /// The new name, and whether it holds white space (a formula cannot refer to it then).
    Rename { name: String, spaced: bool },
}

pub open spec fn naming_spec(items: Seq<String>, i: int, text: Seq<char>) -> Option<(Seq<char>, bool)> {
    let name = trim_spec(text);
    if name.len() == 0 || exists|j: int| 0 <= j < items.len() && j != i && #[trigger] items[j]@ == name {
        None
    } else {
        Some((name, exists|k: int| 0 <= k < name.len() && ws(#[trigger] name[k])))
    }
}

/// The name typed for item `i` of a category with `items` (see `naming_spec`).
pub fn naming(items: &[String], i: usize, text: &str) -> (r: Naming)
    ensures
        match (r, naming_spec(items@, i as int, text@)) {
            (Naming::Keep, None) => true,
            (Naming::Rename { name, spaced }, Some((n, s))) => name@ == n && spaced == s,
            _ => false,
        },
{
    let name = trim(&chars_of(text));
    if name.len() == 0 {
        return Naming::Keep;
    }
    let ns = string_of(&name);
    let mut j: usize = 0;
    while j < items.len()
        invariant
            j <= items@.len(),
            ns@ == name@,
            name@ == trim_spec(text@),
            forall|q: int| 0 <= q < j && q != i ==> #[trigger] items@[q]@ != name@,
        decreases items@.len() - j,
    {
        if j != i && str_eq(items[j].as_str(), ns.as_str()) {
            return Naming::Keep;
        }
        j += 1;
    }
    let mut spaced = false;
    let mut k: usize = 0;
    while k < name.len()
        invariant
            k <= name@.len(),
            spaced == exists|q: int| 0 <= q < k && ws(#[trigger] name@[q]),
        decreases name@.len() - k,
    {
        if is_ws(name[k]) {
            spaced = true;
        }
        k += 1;
    }
    Naming::Rename { name: ns, spaced }
}

impl<V> Cube<V> {
    /// Gives item `i` of category `cat` the name `name`.
    pub fn rename_item(&mut self, cat: usize, i: usize, name: String)
        requires
            cat < old(self).cats@.len(),
            i < old(self).cats@[cat as int].items@.len(),
        ensures
            final(self).cats@.len() == old(self).cats@.len(),
            forall|c: int| 0 <= c < final(self).cats@.len() && c != cat ==> #[trigger] final(self).cats@[c] == old(self).cats@[c],
            final(self).cats@[cat as int].items@ == old(self).cats@[cat as int].items@.update(i as int, name),
            final(self).cats@[cat as int].name == old(self).cats@[cat as int].name,
            final(self).cats@[cat as int].col == old(self).cats@[cat as int].col,
            final(self).cells == old(self).cells,
            final(self).sel == old(self).sel,
    {
        let mut c = self.cats.remove(cat);
        c.items.set(i, name);
        self.cats.insert(cat, c);
        assert(forall|q: int| 0 <= q < self.cats@.len() && q != cat ==> #[trigger] self.cats@[q] == old(self).cats@[q]);
    }
}

} // verus!
