use vstd::prelude::*;

use crate::cascade::{doomed, is_chain, marks_spread, swept, swept_handles};
use crate::components::EntityId;
use crate::engine::{pose_step, Engine};
use crate::pose::Pose;
use crate::propagate::{composed, has_origin, is_seed, is_target, propagated};
use crate::world::{children_of, Slot, World};

verus! {

/// `path` is a non-empty walk down child lists of `w` that starts at a seed.
pub open spec fn is_seed_path<M, T>(w: Seq<Slot<M, T>>, path: Seq<int>) -> bool {
    &&& path.len() > 0
    &&& is_seed(w[path[0]])
    &&& forall|i: int| 0 <= i < path.len() ==> 0 <= #[trigger] path[i] < w.len()
    &&& forall|i: int| 0 <= i < path.len() - 1 ==> #[trigger] children_of(w[path[i]]).contains(path[i + 1] as EntityId)
}

/// Whether some seed of `w` has `e` on or below it.
pub open spec fn under_seed<M, T>(w: Seq<Slot<M, T>>, e: int) -> bool {
    exists|path: Seq<int>| #[trigger] is_seed_path(w, path) && path.last() == e
}

/// Every entity written by a propagation pass lies on or below a seed.
pub proof fn lemma_written_under_seed<M, T, F: Fn(M, M) -> M>(
    compose: F,
    o: Seq<Slot<M, T>>,
    n: Seq<Slot<M, T>>,
    w: Seq<EntityId>,
    i: int,
)
    requires
        propagated(compose, o, n, w),
        0 <= i < w.len(),
    ensures
        under_seed(o, w[i] as int),
    decreases i,
{
    assert(has_origin(o, n, w, i));
    assert(w[i] < o.len());
    if is_seed(o[w[i] as int]) && n[w[i] as int].global.unwrap().parent == o[w[i] as int].global.unwrap().parent {
        let path = seq![w[i] as int];
        assert(is_seed_path(o, path) && path.last() == w[i] as int);
    } else {
        let j = choose|j: int| 0 <= j < i && #[trigger] children_of(o[w[j] as int]).contains(w[i])
            && n[w[i] as int].global.unwrap().parent == n[w[j] as int].global.unwrap().global;
        lemma_written_under_seed(compose, o, n, w, j);
        let p = choose|p: Seq<int>| #[trigger] is_seed_path(o, p) && p.last() == w[j] as int;
        let q = p.push(w[i] as int);
        assert(w[j] < o.len());
        assert forall|k: int| 0 <= k < q.len() - 1 implies #[trigger] children_of(o[q[k]]).contains(q[k + 1] as EntityId) by {
            if k < p.len() - 1 {
                assert(q[k] == p[k] && q[k + 1] == p[k + 1]);
            } else {
                assert(q[k] == w[j] as int && q[k + 1] == w[i] as int);
            }
        }
        assert(is_seed_path(o, q) && q.last() == w[i] as int);
    }
}

/// A propagation pass leaves untouched every entity that has no seed on its
/// path from the roots: no needless recomputation.
pub proof fn lemma_minimality<M, T, F: Fn(M, M) -> M>(
    compose: F,
    o: Seq<Slot<M, T>>,
    n: Seq<Slot<M, T>>,
    w: Seq<EntityId>,
)
    requires
        propagated(compose, o, n, w),
        o.len() <= usize::MAX,
    ensures
        forall|e: int| 0 <= e < o.len() && !under_seed(o, e) ==> #[trigger] n[e] == o[e],
{
    assert forall|e: int| 0 <= e < o.len() && !under_seed(o, e) implies #[trigger] n[e] == o[e] by {
        if w.contains(e as EntityId) {
            let i = choose|i: int| 0 <= i < w.len() && w[i] == e as EntityId;
            lemma_written_under_seed(compose, o, n, w, i);
        }
    }
}

/// A tagged chain is tagged all the way down once the tag has been spread.
pub proof fn lemma_marks_follow_chain<M, T>(o: Seq<Slot<M, T>>, n: Seq<Slot<M, T>>, path: Seq<int>)
    requires
        marks_spread(o, n),
        is_chain(o, path),
        o.len() <= usize::MAX,
    ensures
        n[path.last()].delete,
    decreases path.len(),
{
    assert(World::<M, T>::live(o, path[0]));
    if path.len() == 1 {
        assert(path.last() == path[0]);
    } else {
        let p = path.drop_last();
        assert forall|i: int| 0 <= i < p.len() implies World::<M, T>::live(o, #[trigger] p[i]) by {
            assert(p[i] == path[i]);
            assert(World::<M, T>::live(o, path[i]));
        }
        assert forall|i: int| 0 <= i < p.len() - 1 implies #[trigger] children_of(o[p[i]]).contains(p[i + 1] as EntityId) by {
            assert(p[i] == path[i] && p[i + 1] == path[i + 1]);
        }
        lemma_marks_follow_chain(o, n, p);
        let a = path[path.len() - 2];
        let c = path.last();
        assert(children_of(o[path[path.len() - 2]]).contains(path[path.len() - 2 + 1] as EntityId));
        assert(World::<M, T>::live(o, path[path.len() - 1]));
        assert(n[a] == (Slot { delete: n[a].delete, ..o[a] }));
        assert(n[c] == (Slot { delete: n[c].delete, ..o[c] }));
        assert(children_of(n[a]).contains(c as EntityId));
        assert(n[a].delete);
        assert((c as EntityId) as int == c);
        assert(World::<M, T>::live(n, a));
        assert(World::<M, T>::live(n, (c as EntityId) as int));
    }
}

/// Deletion is transitive and exact: after the tag is spread and the sweep
/// runs, an entity is gone exactly when it was live and on or below a tagged
/// live entity; every other entity is as it was.
pub proof fn lemma_deletion_transitive<M, T>(o: Seq<Slot<M, T>>, n: Seq<Slot<M, T>>, m: Seq<Slot<M, T>>)
    requires
        marks_spread(o, n),
        swept(n, m),
        o.len() <= usize::MAX,
    ensures
        m.len() == o.len(),
        forall|e: int| 0 <= e < o.len() ==> (#[trigger] doomed(o, e) ==> !m[e].alive),
        forall|e: int| 0 <= e < o.len() && !doomed(o, e) ==> #[trigger] m[e] == o[e] || !o[e].alive,
{
    assert forall|e: int| 0 <= e < o.len() implies (#[trigger] doomed(o, e) ==> !m[e].alive) by {
        if doomed(o, e) {
            let path = choose|path: Seq<int>| #[trigger] is_chain(o, path) && path.last() == e;
            lemma_marks_follow_chain(o, n, path);
            assert(n[e] == (Slot { delete: n[e].delete, ..o[e] }));
        }
    }
    assert forall|e: int| 0 <= e < o.len() && !doomed(o, e) implies #[trigger] m[e] == o[e] || !o[e].alive by {
        if o[e].alive {
            assert(n[e] == (Slot { delete: n[e].delete, ..o[e] }));
            if o[e].delete {
                let path = seq![e];
                assert(is_chain(o, path) && path.last() == e);
            }
        }
    }
}

/// With no live entity tagged, spreading the tag and sweeping change nothing
/// and release nothing.
pub proof fn lemma_empty_sweep_is_noop<M, T>(o: Seq<Slot<M, T>>, n: Seq<Slot<M, T>>, m: Seq<Slot<M, T>>)
    requires
        marks_spread(o, n),
        swept(n, m),
        forall|e: int| 0 <= e < o.len() && #[trigger] o[e].alive ==> !o[e].delete,
    ensures
        n == o,
        m == o,
        swept_handles(n, n.len() as int) == Seq::<u32>::empty(),
{
    assert forall|e: int| 0 <= e < o.len() implies #[trigger] n[e] == o[e] by {
        assert(n[e] == (Slot { delete: n[e].delete, ..o[e] }));
        if n[e].delete && !o[e].delete {
            let path = choose|path: Seq<int>| #[trigger] is_chain(o, path) && path.last() == e;
            assert(World::<M, T>::live(o, path[0]));
        }
    }
    assert(n =~= o);
    assert(m =~= o);
    lemma_no_handles(n, n.len() as int);
}

proof fn lemma_no_handles<M, T>(w: Seq<Slot<M, T>>, upto: int)
    requires
        upto <= w.len(),
        forall|e: int| 0 <= e < w.len() && #[trigger] w[e].alive ==> !w[e].delete,
    ensures
        swept_handles(w, upto) == Seq::<u32>::empty(),
    decreases upto,
{
    if upto > 0 {
        lemma_no_handles(w, upto - 1);
    }
}

/// A slot that is part of the managed tree: live, with a local transform, a
/// cached world transform and a hierarchy.
pub open spec fn placed<M, T>(s: Slot<M, T>) -> bool {
    s.alive && s.local is Some && s.global is Some && s.hierarchy is Some
}

/// Every placed entity whose local transform has not changed this tick holds
/// `f` of its recorded parent and its local transform (with `all`, every
/// placed entity does).
pub open spec fn composed_by<M, T>(w: Seq<Slot<M, T>>, f: spec_fn(M, M) -> M, all: bool) -> bool {
    forall|e: int| 0 <= e < w.len() && #[trigger] placed(w[e]) && (all || !w[e].local_changed)
        ==> w[e].global.unwrap().global == f(w[e].global.unwrap().parent, w[e].local.unwrap())
}

/// Every placed child listed by a placed entity records that entity's world
/// transform as its parent: world transforms are products along root paths.
pub open spec fn linked<M, T>(w: Seq<Slot<M, T>>) -> bool {
    forall|p: int, c: EntityId|
        0 <= p < w.len() && placed(w[p]) && #[trigger] children_of(w[p]).contains(c) && c < w.len()
            && placed(w[c as int]) ==> w[c as int].global.unwrap().parent == w[p].global.unwrap().global
}

/// No entity is listed as a child by two entities.
pub open spec fn is_forest<M, T>(w: Seq<Slot<M, T>>) -> bool {
    forall|p1: int, p2: int, c: EntityId|
        0 <= p1 < w.len() && 0 <= p2 < w.len() && #[trigger] children_of(w[p1]).contains(c)
            && #[trigger] children_of(w[p2]).contains(c) ==> p1 == p2
}

/// No seed lies strictly below a seed.
pub open spec fn seeds_apart<M, T>(w: Seq<Slot<M, T>>) -> bool {
    forall|path: Seq<int>| #[trigger] is_seed_path(w, path) && path.len() >= 2 ==> !is_seed(w[path.last()])
}

/// Propagation is correct: on a forest whose world transforms were products
/// along root paths before this tick's local changes, a pass with a `compose`
/// that computes `f` leaves every placed entity's world transform equal to the
/// product along its root path again, whichever entities changed, provided no
/// changed entity lies below another changed one (there the earlier queued,
/// stale parent transform would win).
pub proof fn lemma_propagation_correct<M, T, F: Fn(M, M) -> M>(
    compose: F,
    f: spec_fn(M, M) -> M,
    o: Seq<Slot<M, T>>,
    n: Seq<Slot<M, T>>,
    w: Seq<EntityId>,
)
    requires
        propagated(compose, o, n, w),
        o.len() <= usize::MAX,
        forall|a: M, b: M, r: M| #[trigger] compose.ensures((a, b), r) ==> r == f(a, b),
        is_forest(o),
        seeds_apart(o),
        composed_by(o, f, false),
        linked(o),
    ensures
        composed_by(n, f, true),
        linked(n),
{
    assert forall|e: int| 0 <= e < n.len() && #[trigger] placed(n[e])
        implies n[e].global.unwrap().global == f(n[e].global.unwrap().parent, n[e].local.unwrap()) by {
        if w.contains(e as EntityId) {
            let i = choose|i: int| 0 <= i < w.len() && w[i] == e as EntityId;
            assert(composed(compose, o[w[i] as int], n[w[i] as int]));
        } else {
            assert(n[e] == o[e]);
            if o[e].local_changed {
                assert(is_seed(o[e]));
            }
        }
    }
    assert forall|p: int, c: EntityId|
        0 <= p < n.len() && placed(n[p]) && #[trigger] children_of(n[p]).contains(c) && c < n.len()
            && placed(n[c as int]) implies n[c as int].global.unwrap().parent == n[p].global.unwrap().global by {
        lemma_link(compose, f, o, n, w, p, c);
    }
}

proof fn lemma_link<M, T, F: Fn(M, M) -> M>(
    compose: F,
    f: spec_fn(M, M) -> M,
    o: Seq<Slot<M, T>>,
    n: Seq<Slot<M, T>>,
    w: Seq<EntityId>,
    p: int,
    c: EntityId,
)
    requires
        propagated(compose, o, n, w),
        o.len() <= usize::MAX,
        is_forest(o),
        seeds_apart(o),
        linked(o),
        0 <= p < n.len(),
        placed(n[p]),
        children_of(n[p]).contains(c),
        c < n.len(),
        placed(n[c as int]),
    ensures
        n[c as int].global.unwrap().parent == n[p].global.unwrap().global,
{
    let pw = w.contains(p as EntityId);
    let cw = w.contains(c);
    if pw {
        let ip = choose|i: int| 0 <= i < w.len() && w[i] == p as EntityId;
        assert(composed(compose, o[w[ip] as int], n[w[ip] as int]));
        assert(children_of(o[w[ip] as int]).contains(c));
        if !cw {
            assert(n[c as int] == o[c as int]);
            assert(is_target(o, c as int));
        }
        let ic = choose|i: int| 0 <= i < w.len() && w[i] == c;
        assert(composed(compose, o[w[ic] as int], n[w[ic] as int]));
        assert(has_origin(o, n, w, ic));
        if is_seed(o[c as int]) {
            lemma_written_under_seed(compose, o, n, w, ip);
            let path = choose|path: Seq<int>| #[trigger] is_seed_path(o, path) && path.last() == w[ip] as int;
            let q = path.push(c as int);
            assert forall|k: int| 0 <= k < q.len() - 1 implies #[trigger] children_of(o[q[k]]).contains(q[k + 1] as EntityId) by {
                if k < path.len() - 1 {
                    assert(q[k] == path[k] && q[k + 1] == path[k + 1]);
                } else {
                    assert(q[k] == p && q[k + 1] == c as int);
                }
            }
            assert(is_seed_path(o, q));
            assert(false);
        } else {
            let j = choose|j: int| 0 <= j < ic && #[trigger] children_of(o[w[j] as int]).contains(w[ic])
                && n[w[ic] as int].global.unwrap().parent == n[w[j] as int].global.unwrap().global;
            assert(w[j] < o.len());
            assert(w[j] as int == p);
        }
    } else {
        assert(n[p] == o[p]);
        if cw {
            let ic = choose|i: int| 0 <= i < w.len() && w[i] == c;
            assert(composed(compose, o[w[ic] as int], n[w[ic] as int]));
            assert(has_origin(o, n, w, ic));
            if is_seed(o[c as int]) && n[c as int].global.unwrap().parent == o[c as int].global.unwrap().parent {
                assert(placed(o[c as int]));
            } else {
                let j = choose|j: int| 0 <= j < ic && #[trigger] children_of(o[w[j] as int]).contains(w[ic])
                    && n[w[ic] as int].global.unwrap().parent == n[w[j] as int].global.unwrap().global;
                assert(w[j] < o.len());
                assert(w[j] as int == p);
                assert(false);
            }
        } else {
            assert(n[c as int] == o[c as int]);
        }
    }
}

/// A tracking identifier's life: the first live report creates one entity,
/// the next overwrites that entity's pose without creating another, and the
/// lost report tags that entity for deletion and forgets the identifier.
pub proof fn lemma_pose_lifecycle<M: Copy, T: Copy>(
    s0: Engine<M, T>,
    s1: Engine<M, T>,
    s2: Engine<M, T>,
    s3: Engine<M, T>,
    id: u32,
    k1: Pose<T>,
    k2: Pose<T>,
    k3: Pose<T>,
)
    requires
        s0.world@.len() < usize::MAX,
        !s0.pose_ids().contains_key(id),
        pose_step(s0, s1, id, true, k1),
        pose_step(s1, s2, id, true, k2),
        pose_step(s2, s3, id, false, k3),
    ensures
        s1.pose_ids()[id] == s0.world@.len(),
        s1.world@.len() == s0.world@.len() + 1,
        s2.pose_ids()[id] == s1.pose_ids()[id],
        s2.world@.len() == s1.world@.len(),
        s2.world@[s1.pose_ids()[id] as int].pose == Some(k2),
        !s3.pose_ids().contains_key(id),
        s3.world@[s1.pose_ids()[id] as int].delete,
{
    assert(s1.pose_ids().contains_key(id));
    assert((s0.world@.len() as EntityId) as int == s0.world@.len());
}

/// A live report for an identifier that is not mapped creates an entity whose
/// identifier no earlier entity had.
pub proof fn lemma_pose_fresh<M: Copy, T: Copy>(s: Engine<M, T>, t: Engine<M, T>, id: u32, k: Pose<T>)
    requires
        s.world@.len() < usize::MAX,
        !s.pose_ids().contains_key(id),
        pose_step(s, t, id, true, k),
    ensures
        t.pose_ids().contains_key(id),
        t.pose_ids()[id] == s.world@.len(),
        t.world@.len() == s.world@.len() + 1,
        World::<M, T>::live(t.world@, t.pose_ids()[id] as int),
{
    assert((s.world@.len() as EntityId) as int == s.world@.len());
}

} // verus!
