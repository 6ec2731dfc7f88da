use vstd::prelude::*;

use crate::components::{EntityId, GlobalTransform};
use crate::world::{children_of, Slot, World};

verus! {

/// An entity whose local transform changed this tick and which is part of the
/// managed tree, with the parent world transform it was last composed against
/// and its depth.
#[derive(Clone, Copy)]
pub struct Seed<M> {
    pub entity: EntityId,
    pub parent: M,
    pub level: usize,
}

/// A slot whose local transform changed this tick and which carries a cached
/// world transform and a hierarchy: propagation starts from it.
pub open spec fn is_seed<M, T>(s: Slot<M, T>) -> bool {
    &&& s.alive
    &&& s.local_changed
    &&& s.local is Some
    &&& s.global is Some
    &&& s.hierarchy is Some
}

/// The seed record for entity `e` of `w`.
pub open spec fn seed_of<M, T>(w: Seq<Slot<M, T>>, e: EntityId) -> Seed<M> {
    Seed { entity: e, parent: w[e as int].global.unwrap().parent, level: w[e as int].hierarchy.unwrap().level }
}

/// The seeds of `w`, each once, shallowest first.
pub open spec fn seeds_spec<M, T>(w: Seq<Slot<M, T>>, r: Seq<Seed<M>>) -> bool {
    &&& forall|k: int| 0 <= k < r.len() ==> {
        &&& #[trigger] r[k].entity < w.len()
        &&& is_seed(w[r[k].entity as int])
        &&& r[k] == seed_of(w, r[k].entity)
    }
    &&& forall|e: int| 0 <= e < w.len() && #[trigger] is_seed(w[e]) ==>
        exists|k: int| 0 <= k < r.len() && r[k].entity == e
    &&& forall|k: int, l: int| 0 <= k < l < r.len() ==> r[k].entity != r[l].entity
    &&& forall|k: int, l: int| 0 <= k < l < r.len() ==> r[k].level <= r[l].level
}


/// Whether `c` names a live entity of `w` that carries a local transform: the
/// entities that propagation can reach through a parent's child list.
pub open spec fn is_target<M, T>(w: Seq<Slot<M, T>>, c: int) -> bool {
    0 <= c < w.len() && w[c].alive && w[c].local is Some
}

/// Slot `n` is slot `o` with its world transform rewritten by `compose`: the
/// new world transform is the recorded parent composed with the local one.
pub open spec fn composed<M, T, F: Fn(M, M) -> M>(compose: F, o: Slot<M, T>, n: Slot<M, T>) -> bool {
    &&& o.alive
    &&& o.local is Some
    &&& n.global is Some
    &&& n == Slot { global: n.global, global_changed: true, ..o }
    &&& compose.ensures((n.global.unwrap().parent, o.local.unwrap()), n.global.unwrap().global)
}

/// Where the recorded parent of the `i`-th written entity came from: it is a
/// seed composed against its cached parent, or a child of an entity written
/// before it, composed against that entity's new world transform.
pub open spec fn has_origin<M, T>(o: Seq<Slot<M, T>>, n: Seq<Slot<M, T>>, w: Seq<EntityId>, i: int) -> bool {
    ||| (is_seed(o[w[i] as int]) && n[w[i] as int].global.unwrap().parent == o[w[i] as int].global.unwrap().parent)
    ||| exists|j: int| 0 <= j < i && #[trigger] children_of(o[w[j] as int]).contains(w[i])
        && n[w[i] as int].global.unwrap().parent == n[w[j] as int].global.unwrap().global
}

/// A queued entry made by listing a child of an already written entity,
/// paired with that entity's new world transform.
pub open spec fn from_written<M, T>(o: Seq<Slot<M, T>>, n: Seq<Slot<M, T>>, w: Seq<EntityId>, entry: (EntityId, M)) -> bool {
    exists|i: int| 0 <= i < w.len()
        && #[trigger] children_of(o[w[i] as int]).contains(entry.0)
        && entry.1 == n[w[i] as int].global.unwrap().global
}

/// The outcome of one propagation pass from `o` to `n`, which wrote the world
/// transforms of the entities `w`, in that order.
pub open spec fn propagated<M, T, F: Fn(M, M) -> M>(
    compose: F,
    o: Seq<Slot<M, T>>,
    n: Seq<Slot<M, T>>,
    w: Seq<EntityId>,
) -> bool {
    &&& n.len() == o.len()
    &&& w.no_duplicates()
    &&& forall|i: int| 0 <= i < w.len() ==> #[trigger] w[i] < o.len() && composed(compose, o[w[i] as int], n[w[i] as int])
    &&& forall|i: int| 0 <= i < w.len() ==> #[trigger] has_origin(o, n, w, i)
    &&& forall|e: int| 0 <= e < o.len() && !w.contains(e as EntityId) ==> #[trigger] n[e] == o[e]
    &&& forall|e: int| 0 <= e < o.len() && #[trigger] is_seed(o[e]) ==> w.contains(e as EntityId)
    &&& forall|i: int, c: EntityId|
        0 <= i < w.len() && #[trigger] children_of(o[w[i] as int]).contains(c) && is_target(o, c as int)
            ==> w.contains(c)
}

impl<M: Copy, T: Copy> World<M, T> {
    /// Collects the seeds, ordered by depth; seeds of equal depth keep the
    /// order of their identifiers.
    pub fn dirty_roots(&self) -> (r: Vec<Seed<M>>)
        ensures
            seeds_spec(self@, r@),
    {
        let n = self.len();
        let mut r: Vec<Seed<M>> = Vec::new();
        let mut e: usize = 0;
        while e < n
            invariant
                n == self@.len(),
                e <= n,
                forall|k: int| 0 <= k < r@.len() ==> {
                    &&& #[trigger] r@[k].entity < e
                    &&& is_seed(self@[r@[k].entity as int])
                    &&& r@[k] == seed_of(self@, r@[k].entity)
                },
                forall|x: int| 0 <= x < e && #[trigger] is_seed(self@[x]) ==>
                    exists|k: int| 0 <= k < r@.len() && r@[k].entity == x,
                forall|k: int, l: int| 0 <= k < l < r@.len() ==> r@[k].entity != r@[l].entity,
                forall|k: int, l: int| 0 <= k < l < r@.len() ==> r@[k].level <= r@[l].level,
            decreases n - e,
        {
            let seed = match (self.local(e), self.global(e), self.hierarchy(e)) {
                (Some(_), Some(g), Some(h)) => {
                    if self.is_alive(e) && self.local_changed(e) {
                        Some(Seed { entity: e, parent: g.parent, level: h.level })
                    } else {
                        None
                    }
                },
                _ => None,
            };
            if let Some(x) = seed {
                let mut pos = r.len();
                while pos > 0 && r[pos - 1].level > x.level
                    invariant
                        pos <= r@.len(),
                        forall|j: int| pos <= j < r@.len() ==> #[trigger] r@[j].level > x.level,
                    decreases pos,
                {
                    pos = pos - 1;
                }
                let ghost old_r = r@;
                proof {
                    r@.insert_ensures(pos as int, x);
                }
                r.insert(pos, x);
                assert forall|y: int| 0 <= y <= e && #[trigger] is_seed(self@[y]) implies
                    exists|k: int| 0 <= k < r@.len() && r@[k].entity == y by {
                    if y == e {
                        assert(r@[pos as int].entity == y);
                    } else {
                        let k = choose|k: int| 0 <= k < old_r.len() && old_r[k].entity == y;
                        if k < pos {
                            assert(r@[k].entity == y);
                        } else {
                            assert(r@[k + 1].entity == y);
                        }
                    }
                }
            }
            e = e + 1;
        }
        r
    }

    /// Recomputes the world transform of every seed and of everything reachable
    /// from the seeds through child lists, breadth first, each entity once: the
    /// first queued parent transform for an entity is the one it is composed
    /// against. Children that are not live or carry no local transform are
    /// skipped. Returns the written entities in the order they were written.
    pub fn recalculate_transforms<F: Fn(M, M) -> M>(&mut self, compose: F) -> (written: Vec<EntityId>)
        requires
            forall|a: M, b: M| #[trigger] compose.requires((a, b)),
        ensures
            propagated(compose, old(self)@, final(self)@, written@),
    {
        let ghost o = self@;
        let n = self.len();
        let seeds = self.dirty_roots();
        let ns = seeds.len();
        let mut queue: Vec<(EntityId, M)> = Vec::new();
        let mut k: usize = 0;
        while k < ns
            invariant
                k <= ns,
                ns == seeds@.len(),
                queue@.len() == k,
                forall|j: int| 0 <= j < k ==> #[trigger] queue@[j] == (seeds@[j].entity, seeds@[j].parent),
            decreases ns - k,
        {
            queue.push((seeds[k].entity, seeds[k].parent));
            k = k + 1;
        }
        let mut visited: Vec<bool> = Vec::new();
        let mut k: usize = 0;
        while k < n
            invariant
                k <= n,
                visited@.len() == k,
                forall|j: int| 0 <= j < k ==> !#[trigger] visited@[j],
            decreases n - k,
        {
            visited.push(false);
            k = k + 1;
        }
        let mut written: Vec<EntityId> = Vec::new();
        let ghost mut vs: Set<int> = Set::empty();
        let mut head: usize = 0;
        while head < queue.len()
            invariant
                forall|a: M, b: M| #[trigger] compose.requires((a, b)),
                n == o.len(),
                self@.len() == n,
                visited@.len() == n,
                ns == seeds@.len(),
                seeds_spec(o, seeds@),
                head <= queue@.len(),
                ns <= queue@.len(),
                forall|j: int| 0 <= j < ns ==> #[trigger] queue@[j] == (seeds@[j].entity, seeds@[j].parent),
                forall|j: int| ns <= j < queue@.len() ==> from_written(o, self@, written@, #[trigger] queue@[j]),
                written@.no_duplicates(),
                forall|i: int| 0 <= i < written@.len() ==> #[trigger] written@[i] < n
                    && composed(compose, o[written@[i] as int], self@[written@[i] as int]),
                forall|i: int| 0 <= i < written@.len() ==> #[trigger] has_origin(o, self@, written@, i),
                forall|e: int| 0 <= e < n ==> (#[trigger] visited@[e] <==> written@.contains(e as EntityId)),
                forall|e: int| 0 <= e < n && !written@.contains(e as EntityId) ==> #[trigger] self@[e] == o[e],
                forall|i: int, c: EntityId| 0 <= i < written@.len() && #[trigger] children_of(o[written@[i] as int]).contains(c)
                    ==> exists|j: int| 0 <= j < queue@.len() && queue@[j].0 == c,
                forall|j: int| 0 <= j < head && is_target(o, #[trigger] queue@[j].0 as int)
                    ==> written@.contains(queue@[j].0),
                vs.finite(),
                vs.len() == written@.len(),
                forall|x: int| #[trigger] vs.contains(x) <==> (0 <= x < n && written@.contains(x as EntityId)),
            decreases n - written@.len(), queue@.len() - head,
        {
            let (e, p) = queue[head];
            let ghost h = head;
            head = head + 1;
            if e < n && !visited[e] && self.is_alive(e) {
                if let Some(local) = self.local(e) {
                    proof {
                        vstd::set_lib::lemma_int_range(0, n as int);
                        assert(vs.subset_of(vstd::set_lib::set_int_range(0, n as int)));
                        vstd::set_lib::lemma_len_subset(vs, vstd::set_lib::set_int_range(0, n as int));
                        assert(!vs.contains(e as int));
                        assert(vs.insert(e as int).subset_of(vstd::set_lib::set_int_range(0, n as int)));
                        vstd::set_lib::lemma_len_subset(vs.insert(e as int), vstd::set_lib::set_int_range(0, n as int));
                    }
                    let g = compose(p, local);
                    let ghost before = self@;
                    let ghost wb = written@;
                    self.set_global(e, GlobalTransform { parent: p, global: g });
                    visited.set(e, true);
                    written.push(e);
                    proof {
                        vs = vs.insert(e as int);
                        assert forall|x: EntityId| written@.contains(x) <==> (wb.contains(x) || x == e) by {
                            if wb.contains(x) {
                                let i = choose|i: int| 0 <= i < wb.len() && wb[i] == x;
                                assert(written@[i] == x);
                            }
                            if x == e {
                                assert(written@[wb.len() as int] == e);
                            }
                            if written@.contains(x) {
                                let i = choose|i: int| 0 <= i < written@.len() && written@[i] == x;
                                if i < wb.len() {
                                    assert(wb[i] == x);
                                }
                            }
                        }
                        assert forall|i: int| 0 <= i < written@.len() implies #[trigger] has_origin(o, self@, written@, i) by {
                            if i < wb.len() {
                                assert(has_origin(o, before, wb, i));
                                assert(written@[i] == wb[i]);
                                if !(is_seed(o[wb[i] as int]) && before[wb[i] as int].global.unwrap().parent == o[wb[i] as int].global.unwrap().parent) {
                                    let j = choose|j: int| 0 <= j < i && #[trigger] children_of(o[wb[j] as int]).contains(wb[i])
                                        && before[wb[i] as int].global.unwrap().parent == before[wb[j] as int].global.unwrap().global;
                                    assert(written@[j] == wb[j]);
                                }
                            } else {
                                if h < ns {
                                    assert(queue@[h as int] == (seeds@[h as int].entity, seeds@[h as int].parent));
                                } else {
                                    assert(from_written(o, before, wb, queue@[h as int]));
                                    let j = choose|j: int| 0 <= j < wb.len()
                                        && #[trigger] children_of(o[wb[j] as int]).contains(queue@[h as int].0)
                                        && queue@[h as int].1 == before[wb[j] as int].global.unwrap().global;
                                    assert(written@[j] == wb[j]);
                                }
                            }
                        }
                    }
                    let ghost q0 = queue@;
                    let ghost cur = self@;
                    assert(cur[e as int].hierarchy == o[e as int].hierarchy);
                    match self.hierarchy(e) {
                        Some(hier) => {
                            let mut c: usize = 0;
                            while c < hier.children.len()
                                invariant
                                    c <= hier.children@.len(),
                                    queue@.len() == q0.len() + c,
                                    forall|j: int| 0 <= j < q0.len() ==> #[trigger] queue@[j] == q0[j],
                                    forall|j: int| 0 <= j < c ==> #[trigger] queue@[q0.len() + j] == (hier.children@[j], g),
                                decreases hier.children@.len() - c,
                            {
                                queue.push((hier.children[c], g));
                                c = c + 1;
                            }
                            assert(children_of(o[e as int]) == hier.children@);
                            assert forall|x: EntityId| #[trigger] children_of(o[e as int]).contains(x)
                                implies exists|j: int| 0 <= j < queue@.len() && queue@[j].0 == x by {
                                let idx = choose|idx: int| 0 <= idx < hier.children@.len() && hier.children@[idx] == x;
                                assert(queue@[q0.len() + idx] == (hier.children@[idx], g));
                            }
                            assert forall|j: int| ns <= j < queue@.len() implies from_written(o, self@, written@, #[trigger] queue@[j]) by {
                                if j < q0.len() {
                                    assert(queue@[j] == q0[j]);
                                    assert(from_written(o, before, wb, q0[j]));
                                    let i = choose|i: int| 0 <= i < wb.len()
                                        && #[trigger] children_of(o[wb[i] as int]).contains(q0[j].0)
                                        && q0[j].1 == before[wb[i] as int].global.unwrap().global;
                                    assert(written@[i] == wb[i]);
                                } else {
                                    let idx = j - q0.len();
                                    assert(queue@[q0.len() + idx] == (hier.children@[idx], g));
                                    assert(written@[wb.len() as int] == e);
                                    assert(children_of(o[e as int]).contains(hier.children@[idx]));
                                }
                            }
                        },
                        None => {
                            assert(children_of(o[e as int]) =~= Seq::<EntityId>::empty());
                            assert forall|j: int| ns <= j < queue@.len() implies from_written(o, self@, written@, #[trigger] queue@[j]) by {
                                assert(from_written(o, before, wb, q0[j]));
                                let i = choose|i: int| 0 <= i < wb.len()
                                    && #[trigger] children_of(o[wb[i] as int]).contains(q0[j].0)
                                    && q0[j].1 == before[wb[i] as int].global.unwrap().global;
                                assert(written@[i] == wb[i]);
                            }
                        },
                    }
                    assert forall|i: int, x: EntityId|
                        0 <= i < written@.len() && #[trigger] children_of(o[written@[i] as int]).contains(x)
                        implies exists|j: int| 0 <= j < queue@.len() && queue@[j].0 == x by {
                        if i < wb.len() {
                            assert(written@[i] == wb[i]);
                            let j = choose|j: int| 0 <= j < q0.len() && q0[j].0 == x;
                            assert(queue@[j] == q0[j]);
                        } else {
                            assert(written@[i] == e);
                        }
                    }
                }
            }
        }
        proof {
            assert forall|x: int| 0 <= x < n && #[trigger] is_seed(o[x]) implies written@.contains(x as EntityId) by {
                let k = choose|k: int| 0 <= k < seeds@.len() && seeds@[k].entity == x;
                assert(queue@[k] == (seeds@[k].entity, seeds@[k].parent));
                assert(is_target(o, queue@[k].0 as int));
            }
            assert forall|i: int, c: EntityId|
                0 <= i < written@.len() && #[trigger] children_of(o[written@[i] as int]).contains(c) && is_target(o, c as int)
                implies written@.contains(c) by {
                let j = choose|j: int| 0 <= j < queue@.len() && queue@[j].0 == c;
                assert(is_target(o, queue@[j].0 as int));
            }
        }
        written
    }
}
} // verus!
