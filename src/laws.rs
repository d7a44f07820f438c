use vstd::prelude::*;

use crate::class::Class;
use crate::gc::{
    Cell, collected, heap_alloc_result, in_heap, in_perm, is_path, live, points_to, reachable,
};
use crate::object::field_word;

verus! {

/// A heap object reachable before a collection is still reachable after it.
pub proof fn lemma_survivor_reachable(
    classes: Seq<Class>,
    c0: Seq<Option<Cell>>,
    c1: Seq<Option<Cell>>,
    roots: Seq<usize>,
    a: int,
)
    requires
        collected(classes, c0, c1, roots),
        in_heap(c0, a),
        reachable(classes, c0, roots, a),
    ensures
        in_heap(c1, a),
        reachable(classes, c1, roots, a),
{
    let p = choose|p: Seq<usize>| #[trigger] is_path(classes, c0, roots, p) && p.last() == a;
    assert forall|i: int| 0 <= i < p.len() implies #[trigger] in_heap(c1, p[i] as int) by {
        let q = p.take(i + 1);
        assert forall|j: int| 0 <= j < q.len() - 1 implies #[trigger] points_to(
            classes,
            c0,
            q[j] as int,
            q[j + 1] as int,
        ) by {
            assert(q[j] == p[j] && q[j + 1] == p[j + 1]);
        }
        assert(q[0] == p[0]);
        assert(is_path(classes, c0, roots, q));
        assert(q.last() == p[i]);
        if i > 0 {
            let j = i - 1;
            assert(points_to(classes, c0, p[j] as int, p[j + 1] as int));
        }
        assert(in_heap(c0, p[i] as int));
        assert(live(c1, p[i] as int));
    }
    assert forall|i: int| 0 <= i < p.len() - 1 implies #[trigger] points_to(
        classes,
        c1,
        p[i] as int,
        p[i + 1] as int,
    ) by {
        assert(points_to(classes, c0, p[i] as int, p[i + 1] as int));
        let x = p[i] as int;
        let y = p[i + 1] as int;
        assert(in_heap(c1, x));
        assert(in_heap(c1, y));
        assert(live(c1, x));
        let cls = classes[c0[x]->0.obj.header.vtable as int];
        let k = choose|k: int|
            0 <= k < cls.ref_fields@.len() && #[trigger] field_word(c0[x]->0.obj.body, cls.ref_fields@[k]) == y;
        assert(field_word(c1[x]->0.obj.body, cls.ref_fields@[k]) == y);
    }
    assert(is_path(classes, c1, roots, p));
}

/// Collecting twice in a row with no allocation between reclaims nothing the
/// second time, and both times every survivor is left unmarked.
pub proof fn lemma_collect_idempotent(
    classes: Seq<Class>,
    c0: Seq<Option<Cell>>,
    c1: Seq<Option<Cell>>,
    c2: Seq<Option<Cell>>,
    roots: Seq<usize>,
)
    requires
        collected(classes, c0, c1, roots),
        collected(classes, c1, c2, roots),
    ensures
        c2.len() == c1.len(),
        forall|a: int| 0 <= a < c1.len() ==> (#[trigger] live(c2, a) <==> live(c1, a)),
        forall|a: int| #[trigger] live(c1, a) ==> !c1[a]->0.obj.header.mark,
        forall|a: int| #[trigger] live(c2, a) ==> !c2[a]->0.obj.header.mark,
{
    assert forall|a: int| 0 <= a < c1.len() implies (#[trigger] live(c2, a) <==> live(c1, a)) by {
        if live(c1, a) {
            if in_perm(c0, a) {
                assert(in_perm(c1, a));
            } else {
                lemma_survivor_reachable(classes, c0, c1, roots, a);
            }
        }
    }
}

/// Two heap objects that refer to each other both survive a collection when
/// one of them is a root, and are both reclaimed when neither is reachable.
pub proof fn lemma_cycle(
    classes: Seq<Class>,
    c0: Seq<Option<Cell>>,
    c1: Seq<Option<Cell>>,
    roots: Seq<usize>,
    a: int,
    b: int,
)
    requires
        collected(classes, c0, c1, roots),
        points_to(classes, c0, a, b),
        points_to(classes, c0, b, a),
    ensures
        roots.contains(a as usize) ==> live(c1, a) && live(c1, b),
        !reachable(classes, c0, roots, a) && !reachable(classes, c0, roots, b) ==> !live(c1, a) && !live(
            c1,
            b,
        ),
{
    if roots.contains(a as usize) {
        let p = seq![a as usize];
        assert(is_path(classes, c0, roots, p));
        let q = p.push(b as usize);
        assert(q[0] == a as usize && q[1] == b as usize);
        assert(is_path(classes, c0, roots, q));
        assert(reachable(classes, c0, roots, a));
        assert(reachable(classes, c0, roots, b));
    }
}

/// A permanent object survives any number of successive collections,
/// whatever the roots, unchanged.
pub proof fn lemma_perm_survives(
    classes: Seq<Class>,
    cs: Seq<Seq<Option<Cell>>>,
    roots: Seq<Seq<usize>>,
    a: int,
)
    requires
        cs.len() >= 1,
        roots.len() + 1 >= cs.len(),
        forall|i: int| 0 <= i < cs.len() - 1 ==> collected(classes, #[trigger] cs[i], cs[i + 1], roots[i]),
        in_perm(cs[0], a),
    ensures
        forall|i: int| 0 <= i < cs.len() ==> #[trigger] in_perm(cs[i], a) && cs[i][a]->0.obj.body
            == cs[0][a]->0.obj.body && cs[i][a]->0.obj.header.vtable == cs[0][a]->0.obj.header.vtable,
    decreases cs.len(),
{
    if cs.len() > 1 {
        let d = cs.drop_last();
        assert forall|i: int| 0 <= i < d.len() - 1 implies collected(classes, #[trigger] d[i], d[i + 1], roots[i]) by {
            assert(d[i] == cs[i] && d[i + 1] == cs[i + 1]);
        }
        lemma_perm_survives(classes, d, roots, a);
        let n = cs.len() - 1;
        assert(in_perm(d[n - 1], a));
        assert(collected(classes, cs[n - 1], cs[n], roots[n - 1]));
        assert(live(cs[n], a));
        assert forall|i: int| 0 <= i < cs.len() implies #[trigger] in_perm(cs[i], a) && cs[i][a]->0.obj.body
            == cs[0][a]->0.obj.body && cs[i][a]->0.obj.header.vtable == cs[0][a]->0.obj.header.vtable by {
            if i < n {
                assert(d[i] == cs[i]);
                assert(in_perm(d[i], a));
            }
        }
    }
}

/// An allocation hands out an address that held no object before and that
/// no other object of the arena shares: every other object keeps a lower
/// address.
pub proof fn lemma_fresh_address(
    classes: Seq<Class>,
    c0: Seq<Option<Cell>>,
    c1: Seq<Option<Cell>>,
    roots: Seq<usize>,
    a: usize,
)
    requires
        heap_alloc_result(classes, c0, c1, roots, Some(a)),
    ensures
        !live(c0, a as int),
        forall|b: int| #[trigger] live(c1, b) && b != a ==> b < a,
{
}

} // verus!
