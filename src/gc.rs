use vstd::prelude::*;

verus! {

/// A handle to a cell of a heap: the index of the cell's slot.
///
/// Slots are never reused, so a handle names at most one cell over the
/// whole life of a heap.
#[derive(Clone, Copy, Debug, PartialEq, Eq, Structural)]
pub struct Gc {
    pub index: usize,
}

impl Gc {
    /// Allocates `value` in `scope` and returns a rooted handle to it.
    pub fn new<T: Trace>(scope: &mut GcRootScope<T>, value: T) -> (r: Result<Gc, GcAllocErr>)
        requires
            old(scope).wf(),
        ensures
            final(scope).wf(),
            match r {
                Ok(h) => {
                    &&& h.index == old(scope).state.len()
                    &&& final(scope).state.len() == old(scope).state.len() + 1
                    &&& final(scope).state.boxes@[h.index as int].value == Some(value)
                    &&& final(scope).state.boxes@[h.index as int].roots == 1
                    &&& !final(scope).state.boxes@[h.index as int].marked
                    &&& final(scope).state.roots_of().take(old(scope).state.len()) == unrooted(
                        old(scope).state.roots_of(),
                        final(scope).state.edges_of(h.index as int),
                    )
                    &&& forall|i: int|
                        0 <= i < old(scope).state.len() ==> (#[trigger] final(scope).state.boxes@[i]).value
                            == old(scope).state.boxes@[i].value
                },
                Err(e) => *final(scope) == *old(scope) && (e == GcAllocErr::Exhausted ==> old(scope).state.len()
                    == usize::MAX),
            },
    {
        scope.allocate(value)
    }
}

/// A payload that can live in a heap reports the handles it holds, so that
/// the collector can follow them.
pub trait Trace {
    /// Every handle held by this payload.
    fn trace(&self) -> Vec<Gc>;
}

#[derive(Clone, Copy, Debug, PartialEq, Eq, Structural)]
pub enum GcAllocErr {
    /// No slot is left for a new cell.
    Exhausted,
    /// The payload holds a handle to a cell that is not live.
    DanglingHandle,
}

/// One slot of a heap: its root count, its visited bit, the handles its
/// payload holds, and the payload itself (`None` once swept).
pub struct GcBox<T> {
    pub roots: usize,
    pub marked: bool,
    pub edges: Vec<usize>,
    pub value: Option<T>,
}

impl<T> GcBox<T> {
    pub fn set_marked(&mut self)
        ensures
            final(self).marked,
            final(self).roots == old(self).roots,
            final(self).edges@ == old(self).edges@,
            final(self).value == old(self).value,
    {
        self.marked = true;
    }

    pub fn inc_roots(&mut self)
        requires
            old(self).roots < usize::MAX,
        ensures
            final(self).roots == old(self).roots + 1,
            final(self).marked == old(self).marked,
            final(self).edges@ == old(self).edges@,
            final(self).value == old(self).value,
    {
        self.roots = self.roots + 1;
    }

    pub fn dec_roots(&mut self)
        requires
            old(self).roots > 0,
        ensures
            final(self).roots == old(self).roots - 1,
            final(self).marked == old(self).marked,
            final(self).edges@ == old(self).edges@,
            final(self).value == old(self).value,
    {
        self.roots = self.roots - 1;
    }
}

/// Root counts after one unroot for each handle of `edges`, in order; a
/// count already at zero stays there.
pub open spec fn unrooted(roots: Seq<usize>, edges: Seq<usize>) -> Seq<usize>
    decreases edges.len(),
{
    if edges.len() == 0 {
        roots
    } else {
        let before = unrooted(roots, edges.drop_last());
        let e = edges.last() as int;
        if 0 <= e < before.len() && before[e] > 0 {
            before.update(e, (before[e] - 1) as usize)
        } else {
            before
        }
    }
}

/// The number of cells of `marks` that are not marked.
pub open spec fn count_unmarked(marks: Seq<bool>) -> nat
    decreases marks.len(),
{
    if marks.len() == 0 {
        0
    } else {
        count_unmarked(marks.drop_last()) + if marks.last() {
            0nat
        } else {
            1nat
        }
    }
}

proof fn lemma_mark_one(marks: Seq<bool>, i: int)
    requires
        0 <= i < marks.len(),
        !marks[i],
    ensures
        count_unmarked(marks.update(i, true)) + 1 == count_unmarked(marks),
    decreases marks.len(),
{
    let m2 = marks.update(i, true);
    if i == marks.len() - 1 {
        assert(m2.drop_last() =~= marks.drop_last());
    } else {
        assert(m2.drop_last() =~= marks.drop_last().update(i, true));
        lemma_mark_one(marks.drop_last(), i);
    }
}

proof fn lemma_push_contains(s: Seq<usize>, x: usize)
    ensures
        forall|y: usize| s.contains(y) ==> #[trigger] s.push(x).contains(y),
        s.push(x).contains(x),
{
    assert forall|y: usize| s.contains(y) implies #[trigger] s.push(x).contains(y) by {
        let q = choose|q: int| 0 <= q < s.len() && s[q] == y;
        assert(s.push(x)[q] == y);
    }
    assert(s.push(x)[s.len() as int] == x);
}

/// The state of a mark-and-sweep heap: a slot per cell ever allocated.
pub struct GcState<T> {
    pub boxes: Vec<GcBox<T>>,
}

impl<T> GcState<T> {
    pub open spec fn len(&self) -> int {
        self.boxes@.len() as int
    }

    /// The cell at `i` holds a payload.
    pub open spec fn live(&self, i: int) -> bool {
        0 <= i < self.boxes@.len() && self.boxes@[i].value is Some
    }

    pub open spec fn edges_of(&self, i: int) -> Seq<usize> {
        self.boxes@[i].edges@
    }

    pub open spec fn roots_of(&self) -> Seq<usize> {
        self.boxes@.map_values(|b: GcBox<T>| b.roots)
    }

    pub open spec fn marks_of(&self) -> Seq<bool> {
        self.boxes@.map_values(|b: GcBox<T>| b.marked)
    }

    /// A root is a live cell with a positive root count, or a live cell
    /// named in `extra`.
    pub open spec fn is_root(&self, extra: Seq<usize>, i: int) -> bool {
        self.live(i) && (self.boxes@[i].roots > 0 || extra.contains(i as usize))
    }

    /// `s` holds every root and every handle held by a live cell of `s`.
    pub open spec fn closed(&self, extra: Seq<usize>, s: Set<int>) -> bool {
        &&& forall|i: int| #[trigger] self.is_root(extra, i) ==> s.contains(i)
        &&& forall|i: int, k: int|
            #![trigger s.contains(i), self.edges_of(i)[k]]
            s.contains(i) && self.live(i) && 0 <= k < self.edges_of(i).len() ==> s.contains(
                self.edges_of(i)[k] as int,
            )
    }

    /// `j` is reachable from the roots: it lies in every set that holds the
    /// roots and is closed under the handles of live cells.
    pub open spec fn reachable(&self, extra: Seq<usize>, j: int) -> bool {
        forall|s: Set<int>| #[trigger] self.closed(extra, s) ==> s.contains(j)
    }

    /// Every handle held by a live cell names a live cell, and no visited bit
    /// is left set.
    pub open spec fn wf(&self) -> bool {
        &&& forall|i: int, k: int|
            #![trigger self.edges_of(i)[k]]
            self.live(i) && 0 <= k < self.edges_of(i).len() ==> self.live(
                self.edges_of(i)[k] as int,
            )
        &&& forall|i: int| 0 <= i < self.len() ==> !(#[trigger] self.boxes@[i]).marked
    }

    /// Payloads, handles and root counts of `self` and `other` agree.
    pub open spec fn same_cells(&self, other: &Self) -> bool {
        &&& self.boxes@.len() == other.boxes@.len()
        &&& forall|i: int|
            0 <= i < self.boxes@.len() ==> {
                &&& (#[trigger] self.boxes@[i]).value == other.boxes@[i].value
                &&& self.boxes@[i].edges@ == other.boxes@[i].edges@
                &&& self.boxes@[i].roots == other.boxes@[i].roots
            }
    }

    proof fn lemma_wf_kept(&self, other: &Self)
        requires
            other.wf(),
            self.boxes@.len() == other.boxes@.len(),
            forall|i: int|
                0 <= i < other.boxes@.len() ==> {
                    &&& (#[trigger] self.boxes@[i]).value == other.boxes@[i].value
                    &&& self.boxes@[i].edges@ == other.boxes@[i].edges@
                    &&& self.boxes@[i].marked == other.boxes@[i].marked
                },
        ensures
            self.wf(),
    {
        assert forall|i: int, k: int|
            self.live(i) && 0 <= k < self.edges_of(i).len() implies self.live(
                #[trigger] self.edges_of(i)[k] as int,
            ) by {
            assert(self.boxes@[i].edges@ == other.boxes@[i].edges@);
            assert(other.live(i));
            assert(other.live(other.edges_of(i)[k] as int));
            let j = other.edges_of(i)[k] as int;
            assert(self.boxes@[j].value == other.boxes@[j].value);
        }
        assert forall|i: int| 0 <= i < self.len() implies !(#[trigger] self.boxes@[i]).marked by {
            assert(self.boxes@[i].marked == other.boxes@[i].marked);
            assert(!other.boxes@[i].marked);
        }
    }

    /// Marks every cell reachable from the roots (the cells with a positive
    /// root count and those named in `extra`), then frees every cell left
    /// unmarked and clears the visited bits of the others.
    pub fn collect_garbage(&mut self, extra: &Vec<usize>)
        requires
            old(self).wf(),
        ensures
            final(self).wf(),
            final(self).boxes@.len() == old(self).boxes@.len(),
            forall|j: int|
                0 <= j < old(self).len() ==> (#[trigger] final(self).live(j) <==> old(self).reachable(
                    extra@,
                    j,
                )),
            forall|j: int|
                #![trigger final(self).boxes@[j]]
                final(self).live(j) ==> {
                    &&& final(self).boxes@[j].value == old(self).boxes@[j].value
                    &&& final(self).boxes@[j].edges@ == old(self).boxes@[j].edges@
                    &&& final(self).boxes@[j].roots == old(self).boxes@[j].roots
                },
    {
        let n = self.boxes.len();
        let mut work: Vec<usize> = Vec::new();
        let mut i: usize = 0;
        while i < n
            invariant
                n == self.boxes@.len(),
                old(self).wf(),
                self.same_cells(old(self)),
                forall|j: int|
                    0 <= j < n && (#[trigger] self.boxes@[j]).marked ==> old(self).reachable(extra@, j)
                        && old(self).live(j) && work@.contains(j as usize),
                forall|k: int| 0 <= k < work@.len() ==> #[trigger] work@[k] < n && self.boxes@[work@[k] as int].marked,
                forall|j: int|
                    0 <= j < i && old(self).live(j) && old(self).boxes@[j].roots > 0 ==> (#[trigger] self.boxes@[j]).marked,
            decreases n - i,
        {
            if self.boxes[i].value.is_some() && self.boxes[i].roots > 0 && !self.boxes[i].marked {
                proof {
                    assert(old(self).is_root(extra@, i as int));
                    assert forall|s: Set<int>| #[trigger] old(self).closed(extra@, s) implies s.contains(i as int) by {
                        assert(old(self).is_root(extra@, i as int));
                    }
                }
                proof {
                    lemma_push_contains(work@, i);
                }
                self.boxes[i].set_marked();
                work.push(i);
            }
            i = i + 1;
        }
        let mut x: usize = 0;
        while x < extra.len()
            invariant
                n == self.boxes@.len(),
                old(self).wf(),
                self.same_cells(old(self)),
                forall|j: int|
                    0 <= j < n && (#[trigger] self.boxes@[j]).marked ==> old(self).reachable(extra@, j)
                        && old(self).live(j) && work@.contains(j as usize),
                forall|k: int| 0 <= k < work@.len() ==> #[trigger] work@[k] < n && self.boxes@[work@[k] as int].marked,
                forall|j: int|
                    0 <= j < n && old(self).live(j) && old(self).boxes@[j].roots > 0 ==> (#[trigger] self.boxes@[j]).marked,
                forall|q: int|
                    0 <= q < x && old(self).live(#[trigger] extra@[q] as int) ==> self.boxes@[extra@[q] as int].marked,
            decreases extra@.len() - x,
        {
            let r = extra[x];
            if r < n && self.boxes[r].value.is_some() && !self.boxes[r].marked {
                proof {
                    assert(extra@.contains(r));
                    assert(old(self).is_root(extra@, r as int));
                    assert forall|s: Set<int>| #[trigger] old(self).closed(extra@, s) implies s.contains(r as int) by {
                        assert(old(self).is_root(extra@, r as int));
                    }
                }
                proof {
                    lemma_push_contains(work@, r);
                }
                self.boxes[r].set_marked();
                work.push(r);
            }
            x = x + 1;
        }
        proof {
            assert forall|j: int| #[trigger] old(self).is_root(extra@, j) implies self.boxes@[j].marked by {
                if old(self).boxes@[j].roots == 0 {
                    let q = choose|q: int| 0 <= q < extra@.len() && extra@[q] == j as usize;
                    assert(old(self).live(extra@[q] as int));
                }
            }
        }
        while work.len() > 0
            invariant
                n == self.boxes@.len(),
                old(self).wf(),
                self.same_cells(old(self)),
                forall|j: int|
                    0 <= j < n && (#[trigger] self.boxes@[j]).marked ==> old(self).reachable(extra@, j)
                        && old(self).live(j),
                forall|k: int| 0 <= k < work@.len() ==> #[trigger] work@[k] < n && self.boxes@[work@[k] as int].marked,
                forall|j: int| #[trigger] old(self).is_root(extra@, j) ==> self.boxes@[j].marked,
                forall|j: int, k: int|
                    #![trigger self.boxes@[j], old(self).edges_of(j)[k]]
                    0 <= j < n && self.boxes@[j].marked && !work@.contains(j as usize) && 0 <= k
                        < old(self).edges_of(j).len() ==> self.boxes@[old(self).edges_of(j)[k] as int].marked,
            decreases count_unmarked(self.marks_of()), work@.len(),
        {
            let ghost work0 = work@;
            let ghost marks0 = self.marks_of();
            let ghost count0 = count_unmarked(self.marks_of());
            let i = work.pop().unwrap();
            let ghost rest = work@;
            assert(work0 =~= rest.push(i));
            let ghost w0 = work@.len();
            let m = self.boxes[i].edges.len();
            let mut k: usize = 0;
            while k < m
                invariant
                    n == self.boxes@.len(),
                    n == marks0.len(),
                    i < n,
                    old(self).wf(),
                    self.same_cells(old(self)),
                    m == old(self).edges_of(i as int).len(),
                    k <= m,
                    self.boxes@[i as int].marked,
                    forall|j: int|
                        0 <= j < n && (#[trigger] self.boxes@[j]).marked ==> old(self).reachable(extra@, j)
                            && old(self).live(j),
                    forall|q: int| 0 <= q < work@.len() ==> #[trigger] work@[q] < n && self.boxes@[work@[q] as int].marked,
                    forall|j: int| #[trigger] old(self).is_root(extra@, j) ==> self.boxes@[j].marked,
                    forall|j: int, q: int|
                        #![trigger marks0[j], old(self).edges_of(j)[q]]
                        0 <= j < n && marks0[j] && !work0.contains(j as usize) && 0 <= q
                            < old(self).edges_of(j).len() ==> marks0[old(self).edges_of(j)[q] as int],
                    forall|j: int| 0 <= j < n && #[trigger] marks0[j] ==> self.boxes@[j].marked,
                    forall|j: int|
                        0 <= j < n && (#[trigger] self.boxes@[j]).marked && !marks0[j] ==> work@.contains(j as usize),
                    forall|q: int| 0 <= q < k ==> self.boxes@[#[trigger] old(self).edges_of(i as int)[q] as int].marked,
                    forall|q: int| 0 <= q < w0 ==> #[trigger] work@[q] == rest[q],
                    w0 == rest.len(),
                    work@.len() >= w0,
                    count_unmarked(self.marks_of()) + (work@.len() - w0) == count0,
                decreases m - k,
            {
                let c = self.boxes[i].edges[k];
                proof {
                    assert(old(self).live(i as int));
                    assert(old(self).live(old(self).edges_of(i as int)[k as int] as int));
                }
                if !self.boxes[c].marked {
                    proof {
                        assert forall|s: Set<int>| #[trigger] old(self).closed(extra@, s) implies s.contains(c as int) by {
                            assert(s.contains(i as int));
                            assert(old(self).edges_of(i as int)[k as int] == c);
                        }
                        lemma_mark_one(self.marks_of(), c as int);
                        lemma_push_contains(work@, c);
                    }
                    let ghost before = self.marks_of();
                    self.boxes[c].set_marked();
                    assert(self.marks_of() =~= before.update(c as int, true));
                    work.push(c);
                }
                k = k + 1;
            }
            proof {
                assert forall|j: int, q: int|
                    #![trigger self.boxes@[j], old(self).edges_of(j)[q]]
                    0 <= j < n && self.boxes@[j].marked && !work@.contains(j as usize) && 0 <= q
                        < old(self).edges_of(j).len() implies self.boxes@[old(self).edges_of(j)[q] as int].marked by {
                    if j != i {
                        assert(marks0[j]);
                        if rest.contains(j as usize) {
                            let p = choose|p: int| 0 <= p < rest.len() && rest[p] == j as usize;
                            assert(work@[p] == j as usize);
                        }
                        if work0.contains(j as usize) {
                            let p = choose|p: int| 0 <= p < work0.len() && work0[p] == j as usize;
                            if p < rest.len() {
                                assert(rest[p] == j as usize);
                            }
                        }
                        assert(marks0[old(self).edges_of(j)[q] as int]);
                    }
                }
            }
        }
        let ghost pre = *self;
        let ghost marked_set = Set::new(|j: int| 0 <= j < n && pre.boxes@[j].marked);
        proof {
            assert(old(self).closed(extra@, marked_set)) by {
                assert forall|j: int, k: int|
                    #![trigger marked_set.contains(j), old(self).edges_of(j)[k]]
                    marked_set.contains(j) && old(self).live(j) && 0 <= k < old(self).edges_of(j).len() implies marked_set.contains(
                        old(self).edges_of(j)[k] as int,
                    ) by {
                    assert(!work@.contains(j as usize));
                    assert(pre.boxes@[old(self).edges_of(j)[k] as int].marked);
                    assert(old(self).live(old(self).edges_of(j)[k] as int));
                }
            }
        }
        let mut i: usize = 0;
        while i < n
            invariant
                n == self.boxes@.len(),
                n == pre.boxes@.len(),
                forall|j: int|
                    0 <= j < i ==> {
                        &&& (#[trigger] self.boxes@[j]).value == if pre.boxes@[j].marked {
                            pre.boxes@[j].value
                        } else {
                            None
                        }
                        &&& !self.boxes@[j].marked
                        &&& self.boxes@[j].edges@ == pre.boxes@[j].edges@
                        &&& self.boxes@[j].roots == pre.boxes@[j].roots
                    },
                forall|j: int| i <= j < n ==> #[trigger] self.boxes@[j] == pre.boxes@[j],
            decreases n - i,
        {
            if self.boxes[i].marked {
                self.boxes[i].marked = false;
            } else {
                self.boxes[i].value = None;
            }
            i = i + 1;
        }
        proof {
            assert forall|j: int| 0 <= j < old(self).len() implies (#[trigger] self.live(j) <==> old(self).reachable(
                extra@,
                j,
            )) by {
                if old(self).reachable(extra@, j) {
                    assert(marked_set.contains(j));
                }
            }
            assert forall|j: int, k: int|
                #![trigger self.edges_of(j)[k]]
                self.live(j) && 0 <= k < self.edges_of(j).len() implies self.live(self.edges_of(j)[k] as int) by {
                assert(pre.boxes@[j].marked);
                assert(!work@.contains(j as usize));
                assert(old(self).edges_of(j)[k] == self.edges_of(j)[k]);
                let c = self.edges_of(j)[k] as int;
                assert(pre.boxes@[c].marked);
                assert(old(self).live(c));
            }
        }
    }

    pub fn new() -> (r: Self)
        ensures
            r.wf(),
            r.len() == 0,
    {
        GcState { boxes: Vec::new() }
    }

    /// Whether `h` names a live cell.
    pub fn is_live(&self, h: Gc) -> (r: bool)
        ensures
            r == self.live(h.index as int),
    {
        h.index < self.boxes.len() && self.boxes[h.index].value.is_some()
    }

    /// The payload of the cell that `h` names, if it is live.
    pub fn get(&self, h: Gc) -> (r: Option<&T>)
        ensures
            self.live(h.index as int) ==> r == Some(&self.boxes@[h.index as int].value.unwrap()),
            !self.live(h.index as int) ==> r is None,
    {
        if h.index < self.boxes.len() {
            match &self.boxes[h.index].value {
                Some(v) => Some(v),
                None => None,
            }
        } else {
            None
        }
    }

    /// Checks that every handle of `hs` names a live cell.
    pub fn all_live(&self, hs: &Vec<Gc>) -> (r: bool)
        ensures
            r == (forall|k: int| 0 <= k < hs@.len() ==> self.live(#[trigger] hs@[k].index as int)),
    {
        let mut k: usize = 0;
        while k < hs.len()
            invariant
                k <= hs@.len(),
                forall|j: int| 0 <= j < k ==> self.live(#[trigger] hs@[j].index as int),
            decreases hs@.len() - k,
        {
            if !self.is_live(hs[k]) {
                return false;
            }
            k = k + 1;
        }
        true
    }

    /// Unroots each handle of `edges` once: its root count drops by one,
    /// unless it is zero already.
    fn unroot_all(&mut self, edges: &Vec<usize>)
        requires
            old(self).wf(),
        ensures
            final(self).wf(),
            final(self).roots_of() == unrooted(old(self).roots_of(), edges@),
            final(self).boxes@.len() == old(self).boxes@.len(),
            forall|i: int|
                0 <= i < old(self).boxes@.len() ==> {
                    &&& (#[trigger] final(self).boxes@[i]).value == old(self).boxes@[i].value
                    &&& final(self).boxes@[i].edges@ == old(self).boxes@[i].edges@
                    &&& final(self).boxes@[i].marked == old(self).boxes@[i].marked
                },
    {
        let mut k: usize = 0;
        while k < edges.len()
            invariant
                k <= edges@.len(),
                old(self).wf(),
                self.wf(),
                self.roots_of() == unrooted(old(self).roots_of(), edges@.take(k as int)),
                self.boxes@.len() == old(self).boxes@.len(),
                forall|i: int|
                    0 <= i < old(self).boxes@.len() ==> {
                        &&& (#[trigger] self.boxes@[i]).value == old(self).boxes@[i].value
                        &&& self.boxes@[i].edges@ == old(self).boxes@[i].edges@
                        &&& self.boxes@[i].marked == old(self).boxes@[i].marked
                    },
            decreases edges@.len() - k,
        {
            assert(edges@.take(k + 1).drop_last() =~= edges@.take(k as int));
            let e = edges[k];
            let ghost before = self.roots_of();
            if e < self.boxes.len() && self.boxes[e].roots > 0 {
                self.boxes[e].dec_roots();
                assert(self.roots_of() =~= before.update(e as int, (before[e as int] - 1) as usize));
            }
            proof {
                self.lemma_wf_kept(old(self));
            }
            k = k + 1;
        }
        assert(edges@.take(edges@.len() as int) =~= edges@);
    }

    /// Installs `value` in a new cell with one root, after unrooting every
    /// handle it holds: from now on those cells are reached through it.
    pub fn allocate(&mut self, value: T, handles: Vec<Gc>) -> (r: Result<Gc, GcAllocErr>)
        requires
            old(self).wf(),
        ensures
            final(self).wf(),
            match r {
                Ok(h) => {
                    let n = old(self).len();
                    let b = final(self).boxes@[n];
                    &&& h.index == n
                    &&& final(self).len() == n + 1
                    &&& b.value == Some(value)
                    &&& b.roots == 1
                    &&& !b.marked
                    &&& b.edges@.len() == handles@.len()
                    &&& forall|k: int| 0 <= k < b.edges@.len() ==> #[trigger] b.edges@[k] == handles@[k].index
                    &&& forall|k: int| 0 <= k < b.edges@.len() ==> old(self).live(#[trigger] b.edges@[k] as int)
                    &&& final(self).roots_of().take(n) == unrooted(old(self).roots_of(), b.edges@)
                    &&& forall|i: int|
                        0 <= i < n ==> {
                            &&& (#[trigger] final(self).boxes@[i]).value == old(self).boxes@[i].value
                            &&& final(self).boxes@[i].edges@ == old(self).boxes@[i].edges@
                        }
                },
                Err(GcAllocErr::Exhausted) => old(self).len() == usize::MAX && *final(self) == *old(self),
                Err(GcAllocErr::DanglingHandle) => *final(self) == *old(self) && exists|k: int|
                    0 <= k < handles@.len() && !old(self).live(#[trigger] handles@[k].index as int),
            },
    {
        if !self.all_live(&handles) {
            return Err(GcAllocErr::DanglingHandle);
        }
        if self.boxes.len() == usize::MAX {
            return Err(GcAllocErr::Exhausted);
        }
        let mut edges: Vec<usize> = Vec::new();
        let mut k: usize = 0;
        while k < handles.len()
            invariant
                k <= handles@.len(),
                edges@.len() == k,
                forall|j: int| 0 <= j < k ==> #[trigger] edges@[j] == handles@[j].index,
            decreases handles@.len() - k,
        {
            edges.push(handles[k].index);
            k = k + 1;
        }
        let ghost edges_view = edges@;
        assert forall|j: int| 0 <= j < edges_view.len() implies self.live(#[trigger] edges_view[j] as int) by {
            assert(self.live(handles@[j].index as int));
        }
        self.unroot_all(&edges);
        let index = self.boxes.len();
        let ghost mid = self.roots_of();
        self.boxes.push(GcBox { roots: 1, marked: false, edges, value: Some(value) });
        assert(self.roots_of().take(index as int) =~= mid);
        assert forall|i: int, k: int|
            self.live(i) && 0 <= k < self.edges_of(i).len() implies self.live(
                #[trigger] self.edges_of(i)[k] as int,
            ) by {
            if i < index {
                assert(self.edges_of(i) == old(self).edges_of(i));
            }
        }
        Ok(Gc { index })
    }

    /// Puts `value`, which holds `handles`, in the live cell that `h` names,
    /// and hands back the payload it had.
    pub fn replace(&mut self, h: Gc, value: T, handles: Vec<Gc>) -> (r: Result<T, GcAllocErr>)
        requires
            old(self).wf(),
        ensures
            final(self).wf(),
            final(self).boxes@.len() == old(self).boxes@.len(),
            match r {
                Ok(v) => {
                    &&& old(self).live(h.index as int)
                    &&& old(self).boxes@[h.index as int].value == Some(v)
                    &&& final(self).boxes@[h.index as int].value == Some(value)
                    &&& final(self).boxes@[h.index as int].edges@.len() == handles@.len()
                    &&& forall|k: int|
                        0 <= k < handles@.len() ==> #[trigger] final(self).boxes@[h.index as int].edges@[k]
                            == handles@[k].index
                    &&& forall|i: int|
                        0 <= i < old(self).len() && i != h.index ==> #[trigger] final(self).boxes@[i] == old(self).boxes@[i]
                    &&& final(self).boxes@[h.index as int].roots == old(self).boxes@[h.index as int].roots
                },
                Err(_) => *final(self) == *old(self) && (!old(self).live(h.index as int) || exists|k: int|
                    0 <= k < handles@.len() && !old(self).live(#[trigger] handles@[k].index as int)),
            },
    {
        if !self.is_live(h) || !self.all_live(&handles) {
            return Err(GcAllocErr::DanglingHandle);
        }
        let mut edges: Vec<usize> = Vec::new();
        let mut k: usize = 0;
        while k < handles.len()
            invariant
                k <= handles@.len(),
                edges@.len() == k,
                forall|j: int| 0 <= j < k ==> #[trigger] edges@[j] == handles@[j].index,
            decreases handles@.len() - k,
        {
            edges.push(handles[k].index);
            k = k + 1;
        }
        let i = h.index;
        let ghost edges_view = edges@;
        let mut slot = Some(value);
        std::mem::swap(&mut slot, &mut self.boxes[i].value);
        self.boxes[i].edges = edges;
        proof {
            assert forall|a: int, k: int|
                self.live(a) && 0 <= k < self.edges_of(a).len() implies self.live(
                    #[trigger] self.edges_of(a)[k] as int,
                ) by {
                if a == i {
                    assert(self.edges_of(a)[k] == handles@[k].index);
                    assert(old(self).live(handles@[k].index as int));
                } else {
                    assert(old(self).live(a));
                    assert(old(self).live(old(self).edges_of(a)[k] as int));
                }
            }
            assert forall|a: int| 0 <= a < self.len() implies !(#[trigger] self.boxes@[a]).marked by {
                assert(!old(self).boxes@[a].marked);
            }
        }
        match slot {
            Some(v) => Ok(v),
            None => Err(GcAllocErr::DanglingHandle),
        }
    }

    /// Increments the root count of the cell that `h` names; a handle to no
    /// live cell, or a count at its largest, changes nothing.
    pub fn root(&mut self, h: Gc)
        requires
            old(self).wf(),
        ensures
            final(self).wf(),
            final(self).boxes@.len() == old(self).boxes@.len(),
            final(self).roots_of() == if old(self).live(h.index as int) && old(self).boxes@[h.index as int].roots < usize::MAX {
                old(self).roots_of().update(h.index as int, (old(self).boxes@[h.index as int].roots + 1) as usize)
            } else {
                old(self).roots_of()
            },
            forall|i: int|
                0 <= i < old(self).boxes@.len() ==> {
                    &&& (#[trigger] final(self).boxes@[i]).value == old(self).boxes@[i].value
                    &&& final(self).boxes@[i].edges@ == old(self).boxes@[i].edges@
                },
    {
        if self.is_live(h) && self.boxes[h.index].roots < usize::MAX {
            self.boxes[h.index].inc_roots();
            assert(self.roots_of() =~= old(self).roots_of().update(h.index as int, (old(self).boxes@[h.index as int].roots + 1) as usize));
        }
        proof {
            self.lemma_wf_kept(old(self));
        }
    }

    /// Decrements the root count of the cell that `h` names; a count at zero
    /// stays there.
    pub fn unroot(&mut self, h: Gc)
        requires
            old(self).wf(),
        ensures
            final(self).wf(),
            final(self).boxes@.len() == old(self).boxes@.len(),
            final(self).roots_of() == unrooted(old(self).roots_of(), seq![h.index]),
            forall|i: int|
                0 <= i < old(self).boxes@.len() ==> {
                    &&& (#[trigger] final(self).boxes@[i]).value == old(self).boxes@[i].value
                    &&& final(self).boxes@[i].edges@ == old(self).boxes@[i].edges@
                },
    {
        let v: Vec<usize> = vec![h.index];
        assert(v@ =~= seq![h.index]);
        self.unroot_all(&v);
    }
}

/// A heap of `T` payloads whose roots are the cells with a positive root
/// count.
pub struct GcRootScope<T> {
    pub state: GcState<T>,
}

impl<T> GcRootScope<T> {
    pub open spec fn wf(&self) -> bool {
        self.state.wf()
    }

    pub fn new() -> (r: Self)
        ensures
            r.wf(),
            r.state.len() == 0,
    {
        GcRootScope { state: GcState::new() }
    }

    /// Allocates `value` in a new cell and returns a rooted handle to it.
    pub fn allocate(&mut self, value: T) -> (r: Result<Gc, GcAllocErr>)
        where
            T: Trace,
        requires
            old(self).wf(),
        ensures
            final(self).wf(),
            match r {
                Ok(h) => {
                    &&& h.index == old(self).state.len()
                    &&& final(self).state.len() == old(self).state.len() + 1
                    &&& final(self).state.boxes@[h.index as int].value == Some(value)
                    &&& final(self).state.boxes@[h.index as int].roots == 1
                    &&& !final(self).state.boxes@[h.index as int].marked
                    &&& forall|k: int|
                        0 <= k < final(self).state.edges_of(h.index as int).len() ==> old(self).state.live(
                            #[trigger] final(self).state.edges_of(h.index as int)[k] as int,
                        )
                    &&& final(self).state.roots_of().take(old(self).state.len()) == unrooted(
                        old(self).state.roots_of(),
                        final(self).state.edges_of(h.index as int),
                    )
                    &&& forall|i: int|
                        0 <= i < old(self).state.len() ==> {
                            &&& (#[trigger] final(self).state.boxes@[i]).value == old(self).state.boxes@[i].value
                            &&& final(self).state.boxes@[i].edges@ == old(self).state.boxes@[i].edges@
                        }
                },
                Err(e) => *final(self) == *old(self) && (e == GcAllocErr::Exhausted ==> old(self).state.len()
                    == usize::MAX),
            },
    {
        let handles = value.trace();
        self.state.allocate(value, handles)
    }

    /// The payload of the cell that `h` names, if it is live.
    pub fn get(&self, h: Gc) -> (r: Option<&T>)
        ensures
            self.state.live(h.index as int) ==> r == Some(&self.state.boxes@[h.index as int].value.unwrap()),
            !self.state.live(h.index as int) ==> r is None,
    {
        self.state.get(h)
    }

    /// Adds a root to the cell that `h` names, as cloning a handle does.
    pub fn root(&mut self, h: Gc)
        requires
            old(self).wf(),
        ensures
            final(self).wf(),
            final(self).state.boxes@.len() == old(self).state.boxes@.len(),
            forall|i: int|
                0 <= i < old(self).state.boxes@.len() ==> (#[trigger] final(self).state.boxes@[i]).value
                    == old(self).state.boxes@[i].value,
    {
        self.state.root(h)
    }

    /// Takes a root away from the cell that `h` names, as dropping a handle
    /// does.
    pub fn unroot(&mut self, h: Gc)
        requires
            old(self).wf(),
        ensures
            final(self).wf(),
            final(self).state.roots_of() == unrooted(old(self).state.roots_of(), seq![h.index]),
            final(self).state.boxes@.len() == old(self).state.boxes@.len(),
            forall|i: int|
                0 <= i < old(self).state.boxes@.len() ==> (#[trigger] final(self).state.boxes@[i]).value
                    == old(self).state.boxes@[i].value,
    {
        self.state.unroot(h)
    }

    /// Frees every cell that no rooted cell reaches; the others keep their
    /// payloads.
    pub fn collect_garbage(&mut self)
        requires
            old(self).wf(),
        ensures
            final(self).wf(),
            final(self).state.boxes@.len() == old(self).state.boxes@.len(),
            forall|j: int|
                0 <= j < old(self).state.len() ==> (#[trigger] final(self).state.live(j)
                    <==> old(self).state.reachable(Seq::empty(), j)),
            forall|j: int|
                #![trigger final(self).state.boxes@[j]]
                final(self).state.live(j) ==> {
                    &&& final(self).state.boxes@[j].value == old(self).state.boxes@[j].value
                    &&& final(self).state.boxes@[j].edges@ == old(self).state.boxes@[j].edges@
                    &&& final(self).state.boxes@[j].roots == old(self).state.boxes@[j].roots
                },
    {
        let none: Vec<usize> = Vec::new();
        assert(none@ =~= Seq::<usize>::empty());
        self.state.collect_garbage(&none);
    }
}

/// Collection keeps every cell that the roots reach, with its payload and
/// the handles it holds, and frees exactly the others.
pub proof fn lemma_collect_keeps_reachable<T>(before: GcState<T>, after: GcState<T>, extra: Seq<usize>, j: int)
    requires
        before.wf(),
        after.boxes@.len() == before.boxes@.len(),
        forall|i: int| 0 <= i < before.len() ==> (#[trigger] after.live(i) <==> before.reachable(extra, i)),
        forall|i: int|
            #![trigger after.boxes@[i]]
            after.live(i) ==> {
                &&& after.boxes@[i].value == before.boxes@[i].value
                &&& after.boxes@[i].edges@ == before.boxes@[i].edges@
            },
        before.reachable(extra, j),
    ensures
        after.live(j),
        after.boxes@[j].value == before.boxes@[j].value,
        forall|k: int| 0 <= k < after.edges_of(j).len() ==> after.live(#[trigger] after.edges_of(j)[k] as int),
{
    let s = Set::new(|i: int| 0 <= i < before.len() && before.live(i));
    assert(before.closed(extra, s));
    assert(s.contains(j));
    assert forall|k: int| 0 <= k < after.edges_of(j).len() implies after.live(#[trigger] after.edges_of(j)[k] as int) by {
        let c = before.edges_of(j)[k] as int;
        assert(before.live(c));
        assert forall|t: Set<int>| #[trigger] before.closed(extra, t) implies t.contains(c) by {
            assert(t.contains(j));
        }
    }
}

} // verus!
