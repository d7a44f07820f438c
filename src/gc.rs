use vstd::prelude::*;

use crate::class::{Class, ClassKind, HEADER_SIZE, PTR_WIDTH, classes_wf, valid_ref_offset};
use crate::object::{ArrayElem, Body, Header, Obj, body_kind, body_len, field_word};

verus! {

/// The arena an object lives in: the collected heap, or the permanent space
/// that no collection revisits.
#[derive(Clone, Copy, PartialEq, Eq, Structural, Debug)]
pub enum Space {
    Heap,
    Perm,
}

/// One occupied address of the arena.
pub struct Cell {
    pub space: Space,
    pub obj: Obj,
}

pub open spec fn live(cells: Seq<Option<Cell>>, a: int) -> bool {
    0 <= a < cells.len() && cells[a] is Some
}

pub open spec fn in_heap(cells: Seq<Option<Cell>>, a: int) -> bool {
    live(cells, a) && cells[a]->0.space == Space::Heap
}

pub open spec fn in_perm(cells: Seq<Option<Cell>>, a: int) -> bool {
    live(cells, a) && cells[a]->0.space == Space::Perm
}

pub open spec fn marked_at(cells: Seq<Option<Cell>>, a: int) -> bool {
    live(cells, a) && cells[a]->0.obj.header.mark
}

/// The class of the object at address `a`.
pub open spec fn class_at(classes: Seq<Class>, cells: Seq<Option<Cell>>, a: int) -> Class {
    classes[cells[a]->0.obj.header.vtable as int]
}

/// The heap object at `a` holds `b` in one of its reference fields, and `b`
/// is a heap object too.
pub open spec fn points_to(classes: Seq<Class>, cells: Seq<Option<Cell>>, a: int, b: int) -> bool {
    &&& in_heap(cells, a)
    &&& in_heap(cells, b)
    &&& exists|k: int|
        0 <= k < class_at(classes, cells, a).ref_fields@.len() && #[trigger] field_word(
            cells[a]->0.obj.body,
            class_at(classes, cells, a).ref_fields@[k],
        ) == b
}

/// `p` starts at a root that is a heap object and follows reference fields.
pub open spec fn is_path(
    classes: Seq<Class>,
    cells: Seq<Option<Cell>>,
    roots: Seq<usize>,
    p: Seq<usize>,
) -> bool {
    &&& p.len() > 0
    &&& roots.contains(p[0])
    &&& in_heap(cells, p[0] as int)
    &&& forall|i: int|
        0 <= i < p.len() - 1 ==> #[trigger] points_to(classes, cells, p[i] as int, p[i + 1] as int)
}

/// The heap object at `a` can be reached from the roots through reference fields.
pub open spec fn reachable(
    classes: Seq<Class>,
    cells: Seq<Option<Cell>>,
    roots: Seq<usize>,
    a: int,
) -> bool {
    exists|p: Seq<usize>| #[trigger] is_path(classes, cells, roots, p) && p.last() == a
}

/// The object at `a` in `c1` is the one at `a` in `c0`, with its mark bit cleared.
pub open spec fn kept_unmarked(c0: Seq<Option<Cell>>, c1: Seq<Option<Cell>>, a: int) -> bool {
    &&& c1[a]->0.space == c0[a]->0.space
    &&& c1[a]->0.obj.body == c0[a]->0.obj.body
    &&& c1[a]->0.obj.header.vtable == c0[a]->0.obj.header.vtable
    &&& !c1[a]->0.obj.header.mark
}

/// `c1` is what a full collection makes of `c0`: exactly the permanent objects
/// and the heap objects reachable from the roots stay, unchanged but for
/// their mark bits (cleared) and their successor links.
pub open spec fn collected(
    classes: Seq<Class>,
    c0: Seq<Option<Cell>>,
    c1: Seq<Option<Cell>>,
    roots: Seq<usize>,
) -> bool {
    &&& c1.len() == c0.len()
    &&& forall|a: int|
        0 <= a < c0.len() ==> (#[trigger] live(c1, a) <==> (in_perm(c0, a) || (in_heap(c0, a)
            && reachable(classes, c0, roots, a))))
    &&& forall|a: int| #[trigger] live(c1, a) ==> kept_unmarked(c0, c1, a)
}

/// `c` holds, in arena `space`, an unmarked object of `obj`'s class and body.
pub open spec fn fresh_object(c: Option<Cell>, space: Space, obj: Obj) -> bool {
    &&& c is Some
    &&& c->0.space == space
    &&& c->0.obj.body == obj.body
    &&& c->0.obj.header.vtable == obj.header.vtable
    &&& !c->0.obj.header.mark
}

/// What an allocation in the collected heap made of the arena `c0`: a fresh
/// address at its end, with the earlier addresses either untouched or
/// collected first; or, when even after collecting the object did not fit, a
/// collected arena and no address.
pub open spec fn heap_alloc_result(
    classes: Seq<Class>,
    c0: Seq<Option<Cell>>,
    c1: Seq<Option<Cell>>,
    roots: Seq<usize>,
    r: Option<usize>,
) -> bool {
    match r {
        Some(a) => {
            &&& a == c0.len()
            &&& c1.len() == a + 1
            &&& (c1.take(a as int) == c0 || collected(classes, c0, c1.take(a as int), roots))
        },
        None => collected(classes, c0, c1, roots),
    }
}

/// Only the header's mark bit and successor link differ between `c0` and `c1`.
pub open spec fn same_objects(c0: Seq<Option<Cell>>, c1: Seq<Option<Cell>>) -> bool {
    &&& c1.len() == c0.len()
    &&& forall|a: int|
        0 <= a < c0.len() ==> (#[trigger] live(c1, a) <==> live(c0, a))
    &&& forall|a: int|
        #[trigger] live(c1, a) ==> {
            &&& c1[a]->0.space == c0[a]->0.space
            &&& c1[a]->0.obj.body == c0[a]->0.obj.body
            &&& c1[a]->0.obj.header.vtable == c0[a]->0.obj.header.vtable
        }
}

/// Bytes that the object held in a cell takes from the collected heap.
pub open spec fn cell_bytes(classes: Seq<Class>, c: Option<Cell>) -> int {
    match c {
        Some(cell) => if cell.space == Space::Heap {
            cell.obj.spec_size(classes[cell.obj.header.vtable as int])
        } else {
            0
        },
        None => 0,
    }
}

pub open spec fn heap_bytes(classes: Seq<Class>, cs: Seq<Option<Cell>>) -> int
    decreases cs.len(),
{
    if cs.len() == 0 {
        0
    } else {
        heap_bytes(classes, cs.drop_last()) + cell_bytes(classes, cs.last())
    }
}

/// Number of unmarked heap objects below address `n`.
pub open spec fn unmarked_below(cells: Seq<Option<Cell>>, n: int) -> nat
    decreases n,
{
    if n <= 0 {
        0
    } else {
        unmarked_below(cells, n - 1) + if in_heap(cells, n - 1) && !marked_at(cells, n - 1) {
            1nat
        } else {
            0nat
        }
    }
}

/// The object stored at a cell agrees with its class.
pub open spec fn cell_wf(classes: Seq<Class>, c: Cell) -> bool {
    &&& c.obj.header.vtable < classes.len()
    &&& c.obj.fits(classes[c.obj.header.vtable as int])
    &&& 0 <= c.obj.spec_size(classes[c.obj.header.vtable as int]) <= usize::MAX
}

pub proof fn lemma_heap_bytes_update(classes: Seq<Class>, cs: Seq<Option<Cell>>, i: int, x: Option<Cell>)
    requires
        0 <= i < cs.len(),
    ensures
        heap_bytes(classes, cs.update(i, x)) == heap_bytes(classes, cs) - cell_bytes(classes, cs[i])
            + cell_bytes(classes, x),
    decreases cs.len(),
{
    let cu = cs.update(i, x);
    if i == cs.len() - 1 {
        assert(cu.drop_last() =~= cs.drop_last());
    } else {
        assert(cu.drop_last() =~= cs.drop_last().update(i, x));
        lemma_heap_bytes_update(classes, cs.drop_last(), i, x);
    }
}

pub proof fn lemma_heap_bytes_nonneg(classes: Seq<Class>, cs: Seq<Option<Cell>>)
    requires
        forall|i: int| 0 <= i < cs.len() ==> cell_bytes(classes, #[trigger] cs[i]) >= 0,
    ensures
        heap_bytes(classes, cs) >= 0,
    decreases cs.len(),
{
    if cs.len() > 0 {
        assert forall|i: int| 0 <= i < cs.drop_last().len() implies cell_bytes(classes, #[trigger] cs.drop_last()[i]) >= 0 by {
            assert(cs.drop_last()[i] == cs[i]);
        }
        lemma_heap_bytes_nonneg(classes, cs.drop_last());
        assert(cell_bytes(classes, cs[cs.len() - 1]) >= 0);
    }
}

pub proof fn lemma_heap_bytes_same(classes: Seq<Class>, c0: Seq<Option<Cell>>, c1: Seq<Option<Cell>>)
    requires
        c0.len() == c1.len(),
        forall|i: int| 0 <= i < c0.len() ==> cell_bytes(classes, #[trigger] c0[i]) == cell_bytes(classes, c1[i]),
    ensures
        heap_bytes(classes, c0) == heap_bytes(classes, c1),
    decreases c0.len(),
{
    if c0.len() > 0 {
        assert forall|i: int| 0 <= i < c0.drop_last().len() implies cell_bytes(classes, #[trigger] c0.drop_last()[i]) == cell_bytes(classes, c1.drop_last()[i]) by {
            assert(c0.drop_last()[i] == c0[i]);
            assert(c1.drop_last()[i] == c1[i]);
        }
        lemma_heap_bytes_same(classes, c0.drop_last(), c1.drop_last());
        assert(cell_bytes(classes, c0[c0.len() - 1]) == cell_bytes(classes, c1[c1.len() - 1]));
    }
}

/// Registering a class leaves the size of every existing object as it was.
pub proof fn lemma_heap_bytes_classes(c1: Seq<Class>, c2: Seq<Class>, cs: Seq<Option<Cell>>)
    requires
        forall|i: int| #[trigger] live(cs, i) ==> cs[i]->0.obj.header.vtable < c1.len(),
        c1.len() <= c2.len(),
        forall|j: int| 0 <= j < c1.len() ==> #[trigger] c2[j] == c1[j],
    ensures
        heap_bytes(c1, cs) == heap_bytes(c2, cs),
    decreases cs.len(),
{
    if cs.len() > 0 {
        let d = cs.drop_last();
        assert forall|i: int| #[trigger] live(d, i) implies d[i]->0.obj.header.vtable < c1.len() by {
            assert(live(cs, i));
        }
        lemma_heap_bytes_classes(c1, c2, d);
        if live(cs, cs.len() - 1) {
            let vt = cs[cs.len() - 1]->0.obj.header.vtable as int;
            assert(c2[vt] == c1[vt]);
        }
    }
}

pub proof fn lemma_heap_bytes_push(classes: Seq<Class>, cs: Seq<Option<Cell>>, x: Option<Cell>)
    ensures
        heap_bytes(classes, cs.push(x)) == heap_bytes(classes, cs) + cell_bytes(classes, x),
{
    assert(cs.push(x).drop_last() =~= cs);
}

pub proof fn lemma_unmarked_mark(cells: Seq<Option<Cell>>, c2: Seq<Option<Cell>>, i: int, n: int)
    requires
        0 <= i < cells.len(),
        c2.len() == cells.len(),
        in_heap(cells, i) && !marked_at(cells, i),
        in_heap(c2, i) && marked_at(c2, i),
        forall|j: int|
            0 <= j < cells.len() && j != i ==> (in_heap(c2, j) == in_heap(cells, j)) && (marked_at(
                c2,
                j,
            ) == marked_at(cells, j)),
        n <= cells.len(),
    ensures
        n > i ==> unmarked_below(c2, n) + 1 == unmarked_below(cells, n),
        n <= i ==> unmarked_below(c2, n) == unmarked_below(cells, n),
    decreases n,
{
    if n > 0 {
        lemma_unmarked_mark(cells, c2, i, n - 1);
    }
}

pub proof fn lemma_reach_extend(
    classes: Seq<Class>,
    cells: Seq<Option<Cell>>,
    roots: Seq<usize>,
    a: int,
    b: int,
)
    requires
        reachable(classes, cells, roots, a),
        points_to(classes, cells, a, b),
    ensures
        reachable(classes, cells, roots, b),
{
    let p = choose|p: Seq<usize>| #[trigger] is_path(classes, cells, roots, p) && p.last() == a;
    let q = p.push(b as usize);
    assert forall|i: int| 0 <= i < q.len() - 1 implies #[trigger] points_to(
        classes,
        cells,
        q[i] as int,
        q[i + 1] as int,
    ) by {
        if i < p.len() - 1 {
            assert(q[i] == p[i] && q[i + 1] == p[i + 1]);
        } else {
            assert(q[i] == a && q[i + 1] == b);
        }
    }
    assert(is_path(classes, cells, roots, q));
}

pub proof fn lemma_root_reachable(
    classes: Seq<Class>,
    cells: Seq<Option<Cell>>,
    roots: Seq<usize>,
    j: int,
)
    requires
        0 <= j < roots.len(),
        in_heap(cells, roots[j] as int),
    ensures
        reachable(classes, cells, roots, roots[j] as int),
{
    let p = seq![roots[j]];
    assert(roots.contains(p[0]));
    assert(is_path(classes, cells, roots, p));
}

/// Every object on a path is marked once the roots are marked and marking is
/// closed under reference fields.
pub proof fn lemma_path_marked(
    classes: Seq<Class>,
    g0: Seq<Option<Cell>>,
    cur: Seq<Option<Cell>>,
    roots: Seq<usize>,
    p: Seq<usize>,
    i: int,
)
    requires
        is_path(classes, g0, roots, p),
        0 <= i < p.len(),
        roots_marked(g0, cur, roots, roots.len() as int),
        closed_except(classes, g0, cur, Seq::<usize>::empty(), -1),
    ensures
        marked_at(cur, p[i] as int),
    decreases i,
{
    if i > 0 {
        lemma_path_marked(classes, g0, cur, roots, p, i - 1);
        let j = i - 1;
        assert(points_to(classes, g0, p[j] as int, p[j + 1] as int));
    } else {
        let j = choose|j: int| 0 <= j < roots.len() && roots[j] == p[0];
        assert(marked_at(cur, roots[j] as int));
    }
    if i > 0 {
        assert(!Seq::<usize>::empty().contains(p[i - 1]));
    }
}

/// Marking changes nothing but mark bits.
pub open spec fn mark_frame(g0: Seq<Option<Cell>>, cur: Seq<Option<Cell>>) -> bool {
    &&& same_objects(g0, cur)
    &&& forall|a: int| #[trigger] live(cur, a) ==> cur[a]->0.obj.header.next == g0[a]->0.obj.header.next
}

pub open spec fn marks_sound(
    cls: Seq<Class>,
    g0: Seq<Option<Cell>>,
    roots: Seq<usize>,
    cur: Seq<Option<Cell>>,
) -> bool {
    forall|x: int| #[trigger] marked_at(cur, x) ==> in_heap(g0, x) && reachable(cls, g0, roots, x)
}

pub open spec fn wl_marked(cur: Seq<Option<Cell>>, wl: Seq<usize>) -> bool {
    forall|k: int| 0 <= k < wl.len() ==> marked_at(cur, #[trigger] wl[k] as int)
}

pub open spec fn roots_marked(g0: Seq<Option<Cell>>, cur: Seq<Option<Cell>>, roots: Seq<usize>, n: int) -> bool {
    forall|j: int|
        0 <= j < n && j < roots.len() && in_heap(g0, roots[j] as int) ==> marked_at(cur, #[trigger] roots[j] as int)
}

/// Every marked object off the work list, but `a`, has its referents marked.
pub open spec fn closed_except(
    cls: Seq<Class>,
    g0: Seq<Option<Cell>>,
    cur: Seq<Option<Cell>>,
    wl: Seq<usize>,
    a: int,
) -> bool {
    forall|x: int, y: int|
        marked_at(cur, x) && x != a && !wl.contains(x as usize) && #[trigger] points_to(cls, g0, x, y)
            ==> marked_at(cur, y)
}

pub proof fn lemma_mark_frame_step(
    g0: Seq<Option<Cell>>,
    before: Seq<Option<Cell>>,
    after: Seq<Option<Cell>>,
    b: int,
)
    requires
        mark_frame(g0, before),
        after.len() == before.len(),
        forall|i: int| 0 <= i < before.len() && i != b ==> after[i] == before[i],
        live(before, b),
        live(after, b),
        after[b]->0.space == before[b]->0.space,
        after[b]->0.obj.body == before[b]->0.obj.body,
        after[b]->0.obj.header.vtable == before[b]->0.obj.header.vtable,
        after[b]->0.obj.header.next == before[b]->0.obj.header.next,
    ensures
        mark_frame(g0, after),
{
    assert forall|a: int| 0 <= a < g0.len() implies (#[trigger] live(after, a) <==> live(g0, a)) by {
        if a != b {
            assert(after[a] == before[a]);
        }
        assert(live(before, a) <==> live(g0, a));
    }
    assert forall|a: int| #[trigger] live(after, a) implies {
        &&& after[a]->0.space == g0[a]->0.space
        &&& after[a]->0.obj.body == g0[a]->0.obj.body
        &&& after[a]->0.obj.header.vtable == g0[a]->0.obj.header.vtable
        &&& after[a]->0.obj.header.next == g0[a]->0.obj.header.next
    } by {
        if a != b {
            assert(after[a] == before[a]);
        }
        assert(live(before, a));
    }
}

/// The memory manager: an arena of addresses (0 stands for no object), each
/// holding at most one object, the registered roots, and the accounting of
/// the collected heap against its limit.
pub struct Gc {
    slots: Vec<Option<Cell>>,
    roots: Vec<usize>,
    head: usize,
    used: usize,
    limit: usize,
}

impl Gc {
    /// What each address holds; address `a` is index `a`.
    pub closed spec fn cells(&self) -> Seq<Option<Cell>> {
        self.slots@
    }

    /// The registered roots of collection.
    pub closed spec fn root_set(&self) -> Seq<usize> {
        self.roots@
    }

    /// Bytes taken by the objects of the collected heap.
    pub closed spec fn used_bytes(&self) -> nat {
        self.used as nat
    }

    /// Bytes the collected heap may hold.
    pub closed spec fn limit_bytes(&self) -> nat {
        self.limit as nat
    }

    /// Address 0 is never used, every object agrees with its class, no object
    /// is marked between collections, and the byte count is the sum of the
    /// sizes of the heap objects.
    pub closed spec fn wf(&self, classes: Seq<Class>) -> bool {
        &&& self.slots@.len() >= 1
        &&& self.slots@[0] is None
        &&& forall|a: int| #[trigger] live(self.slots@, a) ==> cell_wf(classes, self.slots@[a]->0)
        &&& forall|a: int| live(self.slots@, a) ==> !#[trigger] marked_at(self.slots@, a)
        &&& self.used == heap_bytes(classes, self.slots@)
        &&& self.used <= self.limit
    }

    /// What well-formedness says, for callers outside this module.
    pub proof fn lemma_wf_facts(&self, classes: Seq<Class>)
        requires
            self.wf(classes),
        ensures
            self.cells().len() >= 1,
            !live(self.cells(), 0),
            forall|a: int| #[trigger] live(self.cells(), a) ==> cell_wf(classes, self.cells()[a]->0),
            forall|a: int| live(self.cells(), a) ==> !#[trigger] marked_at(self.cells(), a),
            self.used_bytes() == heap_bytes(classes, self.cells()),
            self.used_bytes() <= self.limit_bytes(),
    {
    }

    /// An empty arena whose collected heap may hold `limit` bytes.
    pub fn new(limit: usize) -> (r: Gc)
        ensures
            forall|classes: Seq<Class>| #[trigger] r.wf(classes),
            r.cells() == seq![Option::<Cell>::None],
            r.root_set() == Seq::<usize>::empty(),
            r.used_bytes() == 0,
            r.limit_bytes() == limit,
    {
        let mut slots: Vec<Option<Cell>> = Vec::new();
        slots.push(None);
        let r = Gc { slots: slots, roots: Vec::new(), head: 0, used: 0, limit: limit };
        proof {
            assert(r.slots@.drop_last() =~= Seq::<Option<Cell>>::empty());
            assert forall|classes: Seq<Class>| #[trigger] r.wf(classes) by {
                assert(heap_bytes(classes, r.slots@.drop_last()) == 0);
                assert(heap_bytes(classes, r.slots@) == 0);
            }
        }
        r
    }

    fn set_mark_at(&mut self, a: usize, v: bool)
        requires
            live(old(self).slots@, a as int),
        ensures
            final(self).slots@.len() == old(self).slots@.len(),
            forall|i: int| 0 <= i < old(self).slots@.len() && i != a ==> final(self).slots@[i] == old(self).slots@[i],
            live(final(self).slots@, a as int),
            final(self).slots@[a as int]->0.space == old(self).slots@[a as int]->0.space,
            final(self).slots@[a as int]->0.obj.body == old(self).slots@[a as int]->0.obj.body,
            final(self).slots@[a as int]->0.obj.header == (Header {
                mark: v,
                ..old(self).slots@[a as int]->0.obj.header
            }),
            final(self).roots == old(self).roots,
            final(self).head == old(self).head,
            final(self).used == old(self).used,
            final(self).limit == old(self).limit,
    {
        match &mut self.slots[a] {
            Some(cell) => {
                cell.obj.header.set_mark(v);
            },
            None => {},
        }
    }
    fn heap_unmarked(&self, a: usize) -> (r: bool)
        ensures
            r == (in_heap(self.slots@, a as int) && !marked_at(self.slots@, a as int)),
    {
        if a >= self.slots.len() {
            return false;
        }
        match &self.slots[a] {
            Some(c) => c.space == Space::Heap && !c.obj.header.mark,
            None => false,
        }
    }

    fn refs_at(&self, classes: &Vec<Class>, a: usize) -> (r: Vec<usize>)
        requires
            classes_wf(classes@),
            live(self.slots@, a as int),
            cell_wf(classes@, self.slots@[a as int]->0),
        ensures
            r@.len() == class_at(classes@, self.slots@, a as int).ref_fields@.len(),
            forall|k: int|
                0 <= k < r@.len() ==> #[trigger] r@[k] == field_word(
                    self.slots@[a as int]->0.obj.body,
                    class_at(classes@, self.slots@, a as int).ref_fields@[k],
                ),
    {
        match &self.slots[a] {
            Some(c) => {
                let vt = c.obj.header.vtable;
                assert(classes@[vt as int].wf());
                c.obj.visit_reference_fields(&classes[vt])
            },
            None => Vec::new(),
        }
    }

    /// Marks the unmarked heap object `b` and puts it on the work list.
    fn push_mark(
        &mut self,
        b: usize,
        wl: &mut Vec<usize>,
        Ghost(cls): Ghost<Seq<Class>>,
        Ghost(g0): Ghost<Seq<Option<Cell>>>,
        Ghost(roots): Ghost<Seq<usize>>,
        Ghost(a): Ghost<int>,
        Ghost(n): Ghost<int>,
    )
        requires
            in_heap(old(self).slots@, b as int),
            !marked_at(old(self).slots@, b as int),
            reachable(cls, g0, roots, b as int),
            mark_frame(g0, old(self).slots@),
            marks_sound(cls, g0, roots, old(self).slots@),
            wl_marked(old(self).slots@, old(wl)@),
            closed_except(cls, g0, old(self).slots@, old(wl)@, a),
            roots_marked(g0, old(self).slots@, roots, n),
        ensures
            mark_frame(g0, final(self).slots@),
            marks_sound(cls, g0, roots, final(self).slots@),
            wl_marked(final(self).slots@, final(wl)@),
            closed_except(cls, g0, final(self).slots@, final(wl)@, a),
            roots_marked(g0, final(self).slots@, roots, n),
            final(wl)@ == old(wl)@.push(b),
            marked_at(final(self).slots@, b as int),
            forall|x: int| x != b ==> #[trigger] marked_at(final(self).slots@, x) == marked_at(old(self).slots@, x),
            unmarked_below(final(self).slots@, final(self).slots@.len() as int) + 1 == unmarked_below(
                old(self).slots@,
                old(self).slots@.len() as int,
            ),
            final(self).roots@ == old(self).roots@,
            final(self).head == old(self).head,
            final(self).used == old(self).used,
            final(self).limit == old(self).limit,
    {
        let ghost before = self.slots@;
        let ghost wl_before = wl@;
        self.set_mark_at(b, true);
        wl.push(b);
        proof {
            assert forall|x: int| x != b implies #[trigger] marked_at(self.slots@, x) == marked_at(before, x) by {
                if 0 <= x < before.len() {
                    assert(self.slots@[x] == before[x]);
                }
            }
            lemma_unmarked_mark(before, self.slots@, b as int, self.slots@.len() as int);
            lemma_mark_frame_step(g0, before, self.slots@, b as int);
            assert forall|x: usize| #[trigger] wl_before.contains(x) implies wl@.contains(x) by {
                let j = choose|j: int| 0 <= j < wl_before.len() && wl_before[j] == x;
                assert(wl@[j] == x);
            }
            assert(wl@[wl@.len() - 1] == b);
            assert forall|x: int, y: int|
                marked_at(self.slots@, x) && x != a && !wl@.contains(x as usize) && #[trigger] points_to(cls, g0, x, y)
                    implies marked_at(self.slots@, y) by {
                assert(x != b);
                assert(marked_at(before, x));
                assert(!wl_before.contains(x as usize));
                assert(marked_at(before, y));
                if y != b {
                    assert(marked_at(self.slots@, y) == marked_at(before, y));
                }
            }
            assert forall|j: int|
                0 <= j < n && j < roots.len() && in_heap(g0, roots[j] as int) implies marked_at(self.slots@, #[trigger] roots[j] as int) by {
                assert(marked_at(before, roots[j] as int));
                if roots[j] != b {
                    assert(marked_at(self.slots@, roots[j] as int) == marked_at(before, roots[j] as int));
                }
            }
            assert forall|k: int| 0 <= k < wl@.len() implies marked_at(self.slots@, #[trigger] wl@[k] as int) by {
                if k < wl_before.len() {
                    assert(wl@[k] == wl_before[k]);
                }
            }
            assert forall|x: int| #[trigger] marked_at(self.slots@, x) implies in_heap(g0, x) && reachable(cls, g0, roots, x) by {
                if x != b {
                    assert(marked_at(before, x));
                }
            }
        }
    }

    /// Marks exactly the heap objects reachable from the roots.
    #[verifier::rlimit(60)]
    fn mark(&mut self, classes: &Vec<Class>)
        requires
            old(self).wf(classes@),
            classes_wf(classes@),
        ensures
            mark_frame(old(self).slots@, final(self).slots@),
            forall|a: int|
                #[trigger] marked_at(final(self).slots@, a) <==> (in_heap(old(self).slots@, a)
                    && reachable(classes@, old(self).slots@, old(self).roots@, a)),
            final(self).roots@ == old(self).roots@,
            final(self).head == old(self).head,
            final(self).used == old(self).used,
            final(self).limit == old(self).limit,
    {
        let ghost g0 = self.slots@;
        let ghost roots = self.roots@;
        let ghost cls = classes@;
        let mut wl: Vec<usize> = Vec::new();
        let mut i: usize = 0;
        while i < self.roots.len()
            invariant
                mark_frame(g0, self.slots@),
                forall|a: int| #[trigger] live(g0, a) ==> cell_wf(cls, g0[a]->0),
                forall|a: int| live(g0, a) ==> !#[trigger] marked_at(g0, a),
                self.roots@ == roots,
                self.head == old(self).head,
                self.used == old(self).used,
                self.limit == old(self).limit,
                g0 == old(self).slots@,
                roots == old(self).roots@,
                cls == classes@,
                classes_wf(cls),
                i <= roots.len(),
                marks_sound(cls, g0, roots, self.slots@),
                wl_marked(self.slots@, wl@),
                forall|x: int| #[trigger] marked_at(self.slots@, x) ==> wl@.contains(x as usize),
                roots_marked(g0, self.slots@, roots, i as int),
            decreases roots.len() - i,
        {
            let r = self.roots[i];
            let ghost pre = self.slots@;
            proof {
                assert(roots[i as int] == r);
                if in_heap(g0, r as int) {
                    assert(live(pre, r as int));
                }
            }
            if self.heap_unmarked(r) {
                proof {
                    lemma_root_reachable(cls, g0, roots, i as int);
                    assert(closed_except(cls, g0, self.slots@, wl@, -1));
                }
                let ghost wlb = wl@;
                self.push_mark(r, &mut wl, Ghost(cls), Ghost(g0), Ghost(roots), Ghost(-1), Ghost(i as int));
                proof {
                    assert forall|x: int| #[trigger] marked_at(self.slots@, x) implies wl@.contains(x as usize) by {
                        if x != r {
                            assert(marked_at(pre, x));
                            assert(wlb.contains(x as usize));
                            let k = choose|k: int| 0 <= k < wlb.len() && wlb[k] == x as usize;
                            assert(wl@[k] == x as usize);
                        } else {
                            assert(wl@[wl@.len() - 1] == r);
                        }
                    }
                }
            }
            proof {
                assert forall|j: int|
                    0 <= j < i + 1 && j < roots.len() && in_heap(g0, roots[j] as int) implies marked_at(self.slots@, #[trigger] roots[j] as int) by {
                    if j < i {
                        assert(marked_at(pre, roots[j] as int));
                    }
                }
            }
            i = i + 1;
        }
        while wl.len() > 0
            invariant
                mark_frame(g0, self.slots@),
                forall|a: int| #[trigger] live(g0, a) ==> cell_wf(cls, g0[a]->0),
                self.roots@ == roots,
                self.head == old(self).head,
                self.used == old(self).used,
                self.limit == old(self).limit,
                g0 == old(self).slots@,
                roots == old(self).roots@,
                cls == classes@,
                classes_wf(cls),
                marks_sound(cls, g0, roots, self.slots@),
                wl_marked(self.slots@, wl@),
                roots_marked(g0, self.slots@, roots, roots.len() as int),
                closed_except(cls, g0, self.slots@, wl@, -1),
            decreases 2 * unmarked_below(self.slots@, self.slots@.len() as int) + wl@.len(),
        {
            let ghost m0 = 2 * unmarked_below(self.slots@, self.slots@.len() as int) + wl@.len();
            let ghost wl0 = wl@;
            let a = wl.pop().unwrap();
            proof {
                assert(wl0[wl0.len() - 1] == a);
                assert(marked_at(self.slots@, a as int));
                assert forall|k: int| 0 <= k < wl@.len() implies marked_at(self.slots@, #[trigger] wl@[k] as int) by {
                    assert(wl@[k] == wl0[k]);
                }
                assert forall|x: int, y: int|
                    marked_at(self.slots@, x) && x != a && !wl@.contains(x as usize) && #[trigger] points_to(cls, g0, x, y)
                        implies marked_at(self.slots@, y) by {
                    if wl0.contains(x as usize) {
                        let j = choose|j: int| 0 <= j < wl0.len() && wl0[j] == x as usize;
                        assert(wl@[j] == x as usize);
                    }
                }
            }
            let refs = self.refs_at(classes, a);
            let mut k: usize = 0;
            while k < refs.len()
                invariant
                    mark_frame(g0, self.slots@),
                    forall|a: int| #[trigger] live(g0, a) ==> cell_wf(cls, g0[a]->0),
                    self.roots@ == roots,
                    self.head == old(self).head,
                    self.used == old(self).used,
                    self.limit == old(self).limit,
                    g0 == old(self).slots@,
                    roots == old(self).roots@,
                    cls == classes@,
                    classes_wf(cls),
                    k <= refs@.len(),
                    marked_at(self.slots@, a as int),
                    in_heap(g0, a as int),
                    refs@.len() == class_at(cls, g0, a as int).ref_fields@.len(),
                    forall|j: int|
                        0 <= j < refs@.len() ==> #[trigger] refs@[j] == field_word(
                            g0[a as int]->0.obj.body,
                            class_at(cls, g0, a as int).ref_fields@[j],
                        ),
                    forall|j: int|
                        0 <= j < k && in_heap(g0, refs@[j] as int) ==> marked_at(self.slots@, #[trigger] refs@[j] as int),
                    2 * unmarked_below(self.slots@, self.slots@.len() as int) + wl@.len() < m0,
                    marks_sound(cls, g0, roots, self.slots@),
                    wl_marked(self.slots@, wl@),
                    roots_marked(g0, self.slots@, roots, roots.len() as int),
                    closed_except(cls, g0, self.slots@, wl@, a as int),
                decreases refs@.len() - k,
            {
                let b = refs[k];
                let ghost pre = self.slots@;
                proof {
                    if in_heap(g0, b as int) {
                        assert(live(pre, b as int));
                    }
                }
                if self.heap_unmarked(b) {
                    proof {
                        assert(refs@[k as int] == field_word(
                            g0[a as int]->0.obj.body,
                            class_at(cls, g0, a as int).ref_fields@[k as int],
                        ));
                        assert(points_to(cls, g0, a as int, b as int));
                        lemma_reach_extend(cls, g0, roots, a as int, b as int);
                    }
                    self.push_mark(b, &mut wl, Ghost(cls), Ghost(g0), Ghost(roots), Ghost(a as int), Ghost(roots.len() as int));
                }
                proof {
                    assert forall|j: int|
                        0 <= j < k + 1 && in_heap(g0, refs@[j] as int) implies marked_at(self.slots@, #[trigger] refs@[j] as int) by {
                        if j < k {
                            assert(marked_at(pre, refs@[j] as int));
                        }
                    }
                }
                k = k + 1;
            }
            proof {
                assert forall|x: int, y: int|
                    marked_at(self.slots@, x) && x != -1 && !wl@.contains(x as usize) && #[trigger] points_to(cls, g0, x, y)
                        implies marked_at(self.slots@, y) by {
                    if x == a {
                        let j = choose|j: int|
                            0 <= j < class_at(cls, g0, a as int).ref_fields@.len() && #[trigger] field_word(
                                g0[a as int]->0.obj.body,
                                class_at(cls, g0, a as int).ref_fields@[j],
                            ) == y;
                        assert(refs@[j] == y);
                    }
                }
            }
        }
        proof {
            assert forall|a: int| #[trigger] marked_at(self.slots@, a) <==> (in_heap(g0, a)
                && reachable(cls, g0, roots, a)) by {
                if in_heap(g0, a) && reachable(cls, g0, roots, a) {
                    let p = choose|p: Seq<usize>| #[trigger] is_path(cls, g0, roots, p) && p.last() == a;
                    lemma_path_marked(cls, g0, self.slots@, roots, p, p.len() - 1);
                }
            }
        }
    }

    fn set_header_at(&mut self, a: usize, mark: bool, next: usize)
        requires
            live(old(self).slots@, a as int),
        ensures
            final(self).slots@.len() == old(self).slots@.len(),
            forall|i: int| 0 <= i < old(self).slots@.len() && i != a ==> final(self).slots@[i] == old(self).slots@[i],
            live(final(self).slots@, a as int),
            final(self).slots@[a as int]->0.space == old(self).slots@[a as int]->0.space,
            final(self).slots@[a as int]->0.obj.body == old(self).slots@[a as int]->0.obj.body,
            final(self).slots@[a as int]->0.obj.header == (Header {
                mark: mark,
                next: next,
                ..old(self).slots@[a as int]->0.obj.header
            }),
            final(self).roots == old(self).roots,
            final(self).head == old(self).head,
            final(self).used == old(self).used,
            final(self).limit == old(self).limit,
    {
        match &mut self.slots[a] {
            Some(cell) => {
                cell.obj.header.set_mark(mark);
                cell.obj.header.set_succ(next);
            },
            None => {},
        }
    }

    /// What the object at `a` is: in which arena, whether marked, its size.
    fn inspect(&self, classes: &Vec<Class>, a: usize) -> (r: (Space, bool, usize))
        requires
            live(self.slots@, a as int),
            cell_wf(classes@, self.slots@[a as int]->0),
            classes_wf(classes@),
        ensures
            r.0 == self.slots@[a as int]->0.space,
            r.1 == self.slots@[a as int]->0.obj.header.mark,
            r.2 == self.slots@[a as int]->0.obj.spec_size(class_at(classes@, self.slots@, a as int)),
    {
        match &self.slots[a] {
            Some(c) => {
                assert(classes@[c.obj.header.vtable as int].wf());
                (c.space, c.obj.header.mark, c.obj.size(classes))
            },
            None => (Space::Heap, false, 0),
        }
    }

    /// Frees every unmarked heap object, clears the mark of the others and
    /// relinks the survivors, each to the next lower one.
    fn sweep(&mut self, classes: &Vec<Class>, Ghost(g0): Ghost<Seq<Option<Cell>>>, Ghost(roots): Ghost<Seq<usize>>)
        requires
            classes_wf(classes@),
            g0.len() >= 1,
            g0[0] is None,
            forall|a: int| #[trigger] live(g0, a) ==> cell_wf(classes@, g0[a]->0),
            forall|a: int| live(g0, a) ==> !#[trigger] marked_at(g0, a),
            old(self).used == heap_bytes(classes@, g0),
            old(self).used <= old(self).limit,
            mark_frame(g0, old(self).slots@),
            forall|a: int|
                #[trigger] marked_at(old(self).slots@, a) <==> (in_heap(g0, a) && reachable(classes@, g0, roots, a)),
        ensures
            final(self).wf(classes@),
            collected(classes@, g0, final(self).slots@, roots),
            final(self).roots == old(self).roots,
            final(self).limit == old(self).limit,
    {
        let ghost cm = self.slots@;
        let ghost cls = classes@;
        proof {
            assert forall|i: int| 0 <= i < g0.len() implies cell_bytes(cls, #[trigger] g0[i]) == cell_bytes(cls, cm[i]) by {
                assert(live(cm, i) <==> live(g0, i));
            }
            lemma_heap_bytes_same(cls, g0, cm);
            assert(live(cm, 0) <==> live(g0, 0));
        }
        let mut prev: usize = 0;
        let mut i: usize = 1;
        while i < self.slots.len()
            invariant
                cls == classes@,
                classes_wf(cls),
                1 <= i <= self.slots@.len(),
                self.slots@.len() == g0.len(),
                cm.len() == g0.len(),
                self.slots@[0] is None,
                g0[0] is None,
                forall|a: int| #[trigger] live(g0, a) ==> cell_wf(cls, g0[a]->0),
                forall|a: int| live(g0, a) ==> !#[trigger] marked_at(g0, a),
                mark_frame(g0, cm),
                forall|a: int| #[trigger] marked_at(cm, a) ==> in_heap(g0, a),
                forall|a: int| i <= a < g0.len() ==> #[trigger] self.slots@[a] == cm[a],
                forall|a: int|
                    0 <= a < i ==> (#[trigger] live(self.slots@, a) <==> (in_perm(g0, a) || marked_at(cm, a))),
                forall|a: int| 0 <= a < i && #[trigger] live(self.slots@, a) ==> kept_unmarked(g0, self.slots@, a),
                self.used == heap_bytes(cls, self.slots@),
                self.used <= self.limit,
                self.roots == old(self).roots,
                self.limit == old(self).limit,
            decreases g0.len() - i,
        {
            let ghost pre = self.slots@;
            proof {
                assert(pre[i as int] == cm[i as int]);
                assert(live(cm, i as int) <==> live(g0, i as int));
                if live(cm, i as int) {
                    assert(cm[i as int]->0.space == g0[i as int]->0.space);
                    assert(cm[i as int]->0.obj.body == g0[i as int]->0.obj.body);
                    assert(cm[i as int]->0.obj.header.vtable == g0[i as int]->0.obj.header.vtable);
                    if cm[i as int]->0.space == Space::Perm {
                        assert(!marked_at(cm, i as int));
                    }
                }
            }
            if self.slots[i].is_some() {
                proof {
                    assert(pre[i as int] == cm[i as int]);
                    assert(live(cm, i as int));
                    assert(live(g0, i as int));
                }
                let (space, marked, size) = self.inspect(classes, i);
                if space == Space::Heap {
                    if marked {
                        self.set_header_at(i, false, prev);
                        prev = i;
                        proof {
                            lemma_heap_bytes_update(cls, pre, i as int, self.slots@[i as int]);
                            assert(self.slots@ =~= pre.update(i as int, self.slots@[i as int]));
                        }
                    } else {
                        proof {
                            lemma_heap_bytes_update(cls, pre, i as int, None);
                            assert forall|j: int| 0 <= j < pre.len() implies cell_bytes(cls, #[trigger] pre.update(i as int, None)[j]) >= 0 by {
                                if j != i && live(pre, j) {
                                    if j < i {
                                        assert(in_perm(g0, j) || marked_at(cm, j));
                                        assert(live(g0, j));
                                        assert(kept_unmarked(g0, pre, j));
                                    } else {
                                        assert(pre[j] == cm[j]);
                                        assert(live(cm, j));
                                        assert(live(g0, j));
                                    }
                                }
                            }
                            lemma_heap_bytes_nonneg(cls, pre.update(i as int, None));
                        }
                        self.slots.set(i, None);
                        self.used = self.used - size;
                        proof {
                            assert(self.slots@ =~= pre.update(i as int, None));
                        }
                    }
                }
            }
            proof {
                assert(live(self.slots@, i as int) <==> (in_perm(g0, i as int) || marked_at(cm, i as int)));
                if live(self.slots@, i as int) {
                    assert(kept_unmarked(g0, self.slots@, i as int));
                }
                assert forall|a: int|
                    0 <= a < i + 1 implies (#[trigger] live(self.slots@, a) <==> (in_perm(g0, a) || marked_at(cm, a))) by {
                    if a < i {
                        assert(self.slots@[a] == pre[a]);
                        assert(live(pre, a) <==> (in_perm(g0, a) || marked_at(cm, a)));
                    } else {
                        assert(live(cm, a) <==> live(g0, a));
                        if live(cm, a) {
                            assert(cm[a]->0.space == g0[a]->0.space);
                        }
                    }
                }
                assert forall|a: int| 0 <= a < i + 1 && #[trigger] live(self.slots@, a) implies kept_unmarked(g0, self.slots@, a) by {
                    if a < i {
                        assert(self.slots@[a] == pre[a]);
                        assert(live(pre, a));
                        assert(kept_unmarked(g0, pre, a));
                    }
                }
            }
            i = i + 1;
        }
        self.head = prev;
        proof {
            assert forall|a: int| #[trigger] live(self.slots@, a) implies cell_wf(cls, self.slots@[a]->0) by {
                assert(live(g0, a));
            }
            assert forall|a: int| live(self.slots@, a) implies !#[trigger] marked_at(self.slots@, a) by {
                assert(kept_unmarked(g0, self.slots@, a));
            }
            assert forall|a: int| 0 <= a < g0.len() implies (#[trigger] live(self.slots@, a) <==> (in_perm(g0, a) || (in_heap(g0, a)
                && reachable(cls, g0, roots, a)))) by {
                assert(marked_at(cm, a) <==> (in_heap(g0, a) && reachable(cls, g0, roots, a)));
            }
        }
    }

    /// Runs a full collection: marks what the roots reach, then frees every
    /// heap object left unmarked. Permanent objects are never touched.
    pub fn collect(&mut self, classes: &Vec<Class>)
        requires
            old(self).wf(classes@),
            classes_wf(classes@),
        ensures
            final(self).wf(classes@),
            collected(classes@, old(self).cells(), final(self).cells(), old(self).root_set()),
            final(self).root_set() == old(self).root_set(),
            final(self).limit_bytes() == old(self).limit_bytes(),
    {
        let ghost g0 = self.slots@;
        let ghost roots = self.roots@;
        self.mark(classes);
        self.sweep(classes, Ghost(g0), Ghost(roots));
    }

    /// Puts `obj` at a fresh address at the end of the arena.
    fn place(&mut self, classes: &Vec<Class>, obj: Obj, space: Space, size: usize) -> (r: usize)
        requires
            old(self).wf(classes@),
            classes_wf(classes@),
            cell_wf(classes@, Cell { space: space, obj: obj }),
            size == obj.spec_size(classes@[obj.header.vtable as int]),
            space == Space::Heap ==> old(self).used + size <= old(self).limit,
        ensures
            final(self).wf(classes@),
            r == old(self).slots@.len(),
            final(self).slots@.len() == r + 1,
            final(self).slots@.take(r as int) == old(self).slots@,
            fresh_object(final(self).slots@[r as int], space, obj),
            final(self).roots == old(self).roots,
            final(self).limit == old(self).limit,
            final(self).used == old(self).used + if space == Space::Heap { size as int } else { 0 },
    {
        let r = self.slots.len();
        let mut obj = obj;
        obj.header.mark = false;
        let ghost before = self.slots@;
        if space == Space::Heap {
            obj.header.next = self.head;
            self.head = r;
            self.used = self.used + size;
        }
        self.slots.push(Some(Cell { space: space, obj: obj }));
        proof {
            lemma_heap_bytes_push(classes@, before, self.slots@[r as int]);
            assert(self.slots@ =~= before.push(self.slots@[r as int]));
            assert(self.slots@.take(r as int) =~= before);
            assert forall|a: int| #[trigger] live(self.slots@, a) implies cell_wf(classes@, self.slots@[a]->0) by {
                if a < r {
                    assert(live(before, a));
                }
            }
            assert forall|a: int| live(self.slots@, a) implies !#[trigger] marked_at(self.slots@, a) by {
                if a < r {
                    assert(live(before, a));
                    assert(!marked_at(before, a));
                }
            }
        }
        r
    }

    /// Allocates `obj` in the collected heap. When the heap has no room for
    /// it, collects once and tries again; `None` means that even then the
    /// object does not fit.
    pub fn allocate(&mut self, classes: &Vec<Class>, obj: Obj) -> (r: Option<usize>)
        requires
            old(self).wf(classes@),
            classes_wf(classes@),
            cell_wf(classes@, Cell { space: Space::Heap, obj: obj }),
        ensures
            final(self).wf(classes@),
            final(self).root_set() == old(self).root_set(),
            final(self).limit_bytes() == old(self).limit_bytes(),
            old(self).used_bytes() + obj.spec_size(classes@[obj.header.vtable as int]) <= old(self).limit_bytes()
                ==> r is Some && r->0 == old(self).cells().len() && final(self).cells().take(old(self).cells().len() as int) == old(self).cells()
                && final(self).used_bytes() == old(self).used_bytes() + obj.spec_size(classes@[obj.header.vtable as int]),
            r is Some && old(self).used_bytes() + obj.spec_size(classes@[obj.header.vtable as int]) > old(self).limit_bytes()
                ==> collected(classes@, old(self).cells(), final(self).cells().take(r->0 as int), old(self).root_set()),
            match r {
                Some(a) => {
                    &&& a == old(self).cells().len()
                    &&& final(self).cells().len() == a + 1
                    &&& fresh_object(final(self).cells()[a as int], Space::Heap, obj)
                    &&& (final(self).cells().take(a as int) == old(self).cells() || collected(
                        classes@,
                        old(self).cells(),
                        final(self).cells().take(a as int),
                        old(self).root_set(),
                    ))
                },
                None => {
                    &&& collected(classes@, old(self).cells(), final(self).cells(), old(self).root_set())
                    &&& final(self).used_bytes() + obj.spec_size(classes@[obj.header.vtable as int]) > final(self).limit_bytes()
                },
            },
    {
        assert(classes@[obj.header.vtable as int].wf());
        let size = obj.size(classes);
        if size > self.limit - self.used {
            self.collect(classes);
            if size > self.limit - self.used {
                return None;
            }
        }
        let a = self.place(classes, obj, Space::Heap, size);
        Some(a)
    }

    /// Allocates `obj` in the permanent space, which is never collected.
    pub fn alloc_perm(&mut self, classes: &Vec<Class>, obj: Obj) -> (r: usize)
        requires
            old(self).wf(classes@),
            classes_wf(classes@),
            cell_wf(classes@, Cell { space: Space::Perm, obj: obj }),
        ensures
            final(self).wf(classes@),
            final(self).root_set() == old(self).root_set(),
            final(self).limit_bytes() == old(self).limit_bytes(),
            final(self).used_bytes() == old(self).used_bytes(),
            r == old(self).cells().len(),
            final(self).cells().len() == r + 1,
            final(self).cells().take(r as int) == old(self).cells(),
            fresh_object(final(self).cells()[r as int], Space::Perm, obj),
    {
        assert(classes@[obj.header.vtable as int].wf());
        let size = obj.size(classes);
        self.place(classes, obj, Space::Perm, size)
    }

    /// Registers `a` as a root of the next collections.
    pub fn add_root(&mut self, a: usize)
        ensures
            final(self).root_set() == old(self).root_set().push(a),
            final(self).cells() == old(self).cells(),
            final(self).used_bytes() == old(self).used_bytes(),
            final(self).limit_bytes() == old(self).limit_bytes(),
            forall|classes: Seq<Class>| old(self).wf(classes) ==> #[trigger] final(self).wf(classes),
    {
        self.roots.push(a);
    }

    /// Forgets every registered root.
    pub fn clear_roots(&mut self)
        ensures
            final(self).root_set() == Seq::<usize>::empty(),
            final(self).cells() == old(self).cells(),
            final(self).used_bytes() == old(self).used_bytes(),
            final(self).limit_bytes() == old(self).limit_bytes(),
            forall|classes: Seq<Class>| old(self).wf(classes) ==> #[trigger] final(self).wf(classes),
    {
        self.roots = Vec::new();
    }

    /// Whether an object lives at `a`.
    pub fn is_live(&self, a: usize) -> (r: bool)
        ensures
            r == live(self.cells(), a as int),
    {
        a < self.slots.len() && self.slots[a].is_some()
    }

    /// The arena of the object at `a`.
    pub fn space_of(&self, a: usize) -> (r: Space)
        requires
            live(self.cells(), a as int),
        ensures
            r == self.cells()[a as int]->0.space,
    {
        match &self.slots[a] {
            Some(c) => c.space,
            None => Space::Heap,
        }
    }

    /// The object at `a`.
    pub fn obj(&self, a: usize) -> (r: &Obj)
        requires
            live(self.cells(), a as int),
        ensures
            *r == self.cells()[a as int]->0.obj,
    {
        let c = self.slots[a].as_ref().unwrap();
        &c.obj
    }

    /// A well-formed arena stays well formed when classes are appended to the registry.
    pub proof fn lemma_wf_more_classes(&self, c1: Seq<Class>, c2: Seq<Class>)
        requires
            self.wf(c1),
            c1.len() <= c2.len(),
            forall|j: int| 0 <= j < c1.len() ==> #[trigger] c2[j] == c1[j],
        ensures
            self.wf(c2),
    {
        assert forall|a: int| #[trigger] live(self.slots@, a) implies cell_wf(c2, self.slots@[a]->0) by {
            let vt = self.slots@[a]->0.obj.header.vtable as int;
            assert(c2[vt] == c1[vt]);
        }
        assert forall|i: int| #[trigger] live(self.slots@, i) implies self.slots@[i]->0.obj.header.vtable < c1.len() by {
            assert(cell_wf(c1, self.slots@[i]->0));
        }
        lemma_heap_bytes_classes(c1, c2, self.slots@);
    }

    /// Stores `value` in the field at byte offset `off` of the plain object at `a`.
    pub fn set_field(&mut self, classes: &Vec<Class>, a: usize, off: usize, value: usize)
        requires
            old(self).wf(classes@),
            classes_wf(classes@),
            live(old(self).cells(), a as int),
            class_at(classes@, old(self).cells(), a as int).kind == ClassKind::Plain,
            valid_ref_offset(class_at(classes@, old(self).cells(), a as int).size, off),
        ensures
            final(self).wf(classes@),
            final(self).root_set() == old(self).root_set(),
            final(self).limit_bytes() == old(self).limit_bytes(),
            final(self).used_bytes() == old(self).used_bytes(),
            final(self).cells().len() == old(self).cells().len(),
            forall|i: int| 0 <= i < old(self).cells().len() && i != a ==> final(self).cells()[i] == old(self).cells()[i],
            live(final(self).cells(), a as int),
            final(self).cells()[a as int]->0.space == old(self).cells()[a as int]->0.space,
            final(self).cells()[a as int]->0.obj.header == old(self).cells()[a as int]->0.obj.header,
            body_kind(final(self).cells()[a as int]->0.obj.body) == ClassKind::Plain,
            field_word(final(self).cells()[a as int]->0.obj.body, off) == value,
            forall|o: usize| o != off && valid_ref_offset(class_at(classes@, old(self).cells(), a as int).size, o)
                ==> #[trigger] field_word(final(self).cells()[a as int]->0.obj.body, o) == field_word(old(self).cells()[a as int]->0.obj.body, o),
    {
        let ghost pre = self.slots@;
        let ghost cls = class_at(classes@, pre, a as int);
        proof {
            assert(cell_wf(classes@, pre[a as int]->0));
            assert(classes@[pre[a as int]->0.obj.header.vtable as int].wf());
            let c = (cls.size - HEADER_SIZE) / (PTR_WIDTH as int);
            let i = (off - HEADER_SIZE) / (PTR_WIDTH as int);
            assert(cls.size - HEADER_SIZE == c * 8);
            assert(off - HEADER_SIZE == i * 8);
            assert(i < c) by (nonlinear_arith)
                requires
                    i * 8 + 8 <= c * 8,
            ;
        }
        match &mut self.slots[a] {
            Some(cell) => {
                match &mut cell.obj.body {
                    Body::Fields(v) => {
                        let i = (off - HEADER_SIZE) / PTR_WIDTH;
                        v.set(i, value);
                    },
                    _ => {},
                }
            },
            None => {},
        }
        proof {
            let nb = self.slots@[a as int]->0.obj.body;
            assert forall|o: usize| o != off && valid_ref_offset(cls.size, o)
                implies #[trigger] field_word(nb, o) == field_word(pre[a as int]->0.obj.body, o) by {
                let j = (o - HEADER_SIZE) / (PTR_WIDTH as int);
                let i = (off - HEADER_SIZE) / (PTR_WIDTH as int);
                assert(o - HEADER_SIZE == j * 8);
                assert(off - HEADER_SIZE == i * 8);
                assert(i != j);
            }
            lemma_heap_bytes_update(classes@, pre, a as int, self.slots@[a as int]);
            assert(self.slots@ =~= pre.update(a as int, self.slots@[a as int]));
            assert forall|x: int| #[trigger] live(self.slots@, x) implies cell_wf(classes@, self.slots@[x]->0) by {
                if x != a {
                    assert(live(pre, x));
                }
            }
            assert forall|x: int| live(self.slots@, x) implies !#[trigger] marked_at(self.slots@, x) by {
                if x != a {
                    assert(live(pre, x));
                }
                assert(!marked_at(pre, x));
            }
        }
    }

    /// Stores `v` as element `i` of the array object at `a`.
    pub fn write_elem<T: ArrayElem>(&mut self, classes: &Vec<Class>, a: usize, i: usize, v: T)
        requires
            old(self).wf(classes@),
            classes_wf(classes@),
            live(old(self).cells(), a as int),
            T::elems(old(self).cells()[a as int]->0.obj.body) is Some,
            i < T::elems(old(self).cells()[a as int]->0.obj.body)->0.len(),
        ensures
            final(self).wf(classes@),
            final(self).root_set() == old(self).root_set(),
            final(self).limit_bytes() == old(self).limit_bytes(),
            final(self).used_bytes() == old(self).used_bytes(),
            final(self).cells().len() == old(self).cells().len(),
            forall|j: int| 0 <= j < old(self).cells().len() && j != a ==> final(self).cells()[j] == old(self).cells()[j],
            live(final(self).cells(), a as int),
            final(self).cells()[a as int]->0.space == old(self).cells()[a as int]->0.space,
            final(self).cells()[a as int]->0.obj.header == old(self).cells()[a as int]->0.obj.header,
            T::elems(final(self).cells()[a as int]->0.obj.body) == Some(
                T::elems(old(self).cells()[a as int]->0.obj.body)->0.update(i as int, v),
            ),
    {
        let ghost pre = self.slots@;
        match &mut self.slots[a] {
            Some(cell) => {
                T::write(&mut cell.obj.body, i, v);
            },
            None => {},
        }
        proof {
            let ob = pre[a as int]->0.obj.body;
            let nb = self.slots@[a as int]->0.obj.body;
            T::lemma_elems(ob);
            T::lemma_elems(nb);
            assert(body_len(nb) == body_len(ob));
            assert(body_kind(nb) == body_kind(ob));
            assert(cell_wf(classes@, pre[a as int]->0));
            lemma_heap_bytes_update(classes@, pre, a as int, self.slots@[a as int]);
            assert(self.slots@ =~= pre.update(a as int, self.slots@[a as int]));
            assert forall|x: int| #[trigger] live(self.slots@, x) implies cell_wf(classes@, self.slots@[x]->0) by {
                if x != a {
                    assert(live(pre, x));
                }
            }
            assert forall|x: int| live(self.slots@, x) implies !#[trigger] marked_at(self.slots@, x) by {
                if x != a {
                    assert(live(pre, x));
                }
                assert(!marked_at(pre, x));
            }
        }
    }
}

} // verus!
