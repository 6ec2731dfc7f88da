use vstd::prelude::*;

use crate::components::{Delete, EntityId};
use crate::world::{children_of, Slot, World};

verus! {

/// `path` is a non-empty walk down child lists of `w` through live entities,
/// starting at one that carries the deletion tag.
pub open spec fn is_chain<M, T>(w: Seq<Slot<M, T>>, path: Seq<int>) -> bool {
    &&& path.len() > 0
    &&& w[path[0]].delete
    &&& forall|i: int| 0 <= i < path.len() ==> World::<M, T>::live(w, #[trigger] path[i])
    &&& forall|i: int| 0 <= i < path.len() - 1 ==> #[trigger] children_of(w[path[i]]).contains(path[i + 1] as EntityId)
}

/// Whether `e` of `w` is live and reached from a tagged live entity in any
/// number of steps down child lists.
pub open spec fn doomed<M, T>(w: Seq<Slot<M, T>>, e: int) -> bool {
    exists|path: Seq<int>| #[trigger] is_chain(w, path) && path.last() == e
}

/// `n` is `o` with the deletion tag spread from every tagged live entity to
/// every live entity below it, and nothing else changed.
pub open spec fn marks_spread<M, T>(o: Seq<Slot<M, T>>, n: Seq<Slot<M, T>>) -> bool {
    &&& n.len() == o.len()
    &&& forall|e: int| 0 <= e < o.len() ==> #[trigger] n[e] == (Slot { delete: n[e].delete, ..o[e] })
    &&& forall|e: int| 0 <= e < o.len() && o[e].delete ==> #[trigger] n[e].delete
    &&& forall|e: int| 0 <= e < o.len() && #[trigger] n[e].delete && !o[e].delete ==> doomed(o, e)
    &&& forall|e: int, c: EntityId|
        World::<M, T>::live(n, e) && n[e].delete && #[trigger] children_of(n[e]).contains(c)
            && World::<M, T>::live(n, c as int) ==> n[c as int].delete
}

/// What removal leaves of a slot.
pub open spec fn removed_slot<M, T>(s: Slot<M, T>) -> Slot<M, T> {
    Slot {
        alive: false,
        local: None,
        local_changed: false,
        global: None,
        global_changed: false,
        hierarchy: None,
        delete: false,
        rendered: None,
        pose: None,
    }
}

/// `n` is `o` with every live tagged entity removed and nothing else changed.
pub open spec fn swept<M, T>(o: Seq<Slot<M, T>>, n: Seq<Slot<M, T>>) -> bool {
    &&& n.len() == o.len()
    &&& forall|x: int| 0 <= x < o.len() ==> #[trigger] n[x] == (if World::<M, T>::live(o, x) && o[x].delete {
        removed_slot(o[x])
    } else {
        o[x]
    })
}

/// The visual handles carried by the live tagged entities among the first
/// `upto` of `w`, in identifier order.
pub open spec fn swept_handles<M, T>(w: Seq<Slot<M, T>>, upto: int) -> Seq<u32>
    decreases upto,
{
    if upto <= 0 {
        Seq::empty()
    } else {
        let prev = swept_handles(w, upto - 1);
        let s = w[upto - 1];
        if s.alive && s.delete && s.rendered is Some {
            prev.push(s.rendered.unwrap())
        } else {
            prev
        }
    }
}

/// One more step down a child list extends a chain.
pub proof fn lemma_chain_child<M, T>(w: Seq<Slot<M, T>>, path: Seq<int>, e: int)
    requires
        is_chain(w, path),
        children_of(w[path.last()]).contains(e as EntityId),
        World::<M, T>::live(w, e),
    ensures
        is_chain(w, path.push(e)),
        doomed(w, e),
{
    let q = path.push(e);
    assert forall|i: int| 0 <= i < q.len() - 1 implies #[trigger] children_of(w[q[i]]).contains(q[i + 1] as EntityId) by {
        if i < path.len() - 1 {
            assert(q[i] == path[i] && q[i + 1] == path[i + 1]);
        } else {
            assert(q[i] == path.last() && q[i + 1] == e);
        }
    }
    assert(q.last() == e);
}

/// A set of in-range identifiers with room for one more: it has fewer than `n`
/// members.
proof fn lemma_room(vs: Set<int>, n: int, x: int)
    requires
        vs.finite(),
        forall|y: int| #[trigger] vs.contains(y) ==> 0 <= y < n,
        0 <= x < n,
        !vs.contains(x),
    ensures
        vs.len() + 1 <= n,
{
    let r = vstd::set_lib::set_int_range(0, n);
    vstd::set_lib::lemma_int_range(0, n);
    assert(vs.insert(x).subset_of(r));
    vstd::set_lib::lemma_len_subset(vs.insert(x), r);
}

impl<M: Copy, T: Copy> World<M, T> {
    /// Spreads the deletion tag from every tagged entity to all its live
    /// descendants, breadth first, visiting each entity at most once so that
    /// shared or cyclic child lists terminate.
    pub fn propagate_delete_to_children(&mut self)
        ensures
            marks_spread(old(self)@, final(self)@),
    {
        let ghost o = self@;
        let n = self.len();
        let mut queue: Vec<EntityId> = Vec::new();
        let mut seen: Vec<bool> = Vec::new();
        let ghost mut vs: Set<int> = Set::empty();
        let mut e: usize = 0;
        while e < n
            invariant
                o == self@,
                n == o.len(),
                e <= n,
                seen@.len() == e,
                queue@.len() == vs.len(),
                vs.finite(),
                forall|y: int| #[trigger] vs.contains(y) ==> 0 <= y < e,
                forall|x: int| 0 <= x < e ==> (#[trigger] seen@[x] <==> vs.contains(x)),
                forall|x: int| 0 <= x < e ==> (#[trigger] seen@[x] <==> (Self::live(o, x) && o[x].delete)),
                forall|x: int| 0 <= x < e ==> (#[trigger] seen@[x] <==> queue@.contains(x as EntityId)),
                forall|j: int| 0 <= j < queue@.len() ==> #[trigger] queue@[j] < e && doomed(o, queue@[j] as int),
            decreases n - e,
        {
            let tagged = self.is_alive(e) && self.is_marked(e);
            let ghost s0 = seen@;
            let ghost qb = queue@;
            if tagged {
                proof {
                    lemma_room(vs, e + 1, e as int);
                    vs = vs.insert(e as int);
                }
                queue.push(e);
                proof {
                    let path = seq![e as int];
                    assert(is_chain(o, path) && path.last() == e as int);
                }
            }
            seen.push(tagged);
            proof {
                assert forall|x: int| 0 <= x <= e implies (#[trigger] seen@[x] <==> queue@.contains(x as EntityId)) by {
                    if x < e {
                        assert(seen@[x] == s0[x]);
                        if qb.contains(x as EntityId) {
                            let j = choose|j: int| 0 <= j < qb.len() && qb[j] == x as EntityId;
                            assert(queue@[j] == qb[j]);
                        }
                    }
                    if x == e && tagged {
                        assert(queue@[qb.len() as int] == x);
                    }
                    if queue@.contains(x as EntityId) {
                        let j = choose|j: int| 0 <= j < queue@.len() && queue@[j] == x as EntityId;
                        if j < qb.len() {
                            assert(qb[j] == x as EntityId);
                        } else {
                            assert(queue@[j] == e);
                        }
                    }
                }
            }
            e = e + 1;
        }
        proof {
            vstd::set_lib::lemma_int_range(0, n as int);
            vstd::set_lib::lemma_len_subset(vs, vstd::set_lib::set_int_range(0, n as int));
        }
        let mut head: usize = 0;
        while head < queue.len()
            invariant
                n == o.len(),
                self@.len() == n,
                seen@.len() == n,
                head <= queue@.len(),
                queue@.len() <= n,
                queue@.len() == vs.len(),
                vs.finite(),
                forall|y: int| #[trigger] vs.contains(y) ==> 0 <= y < n,
                forall|x: int| 0 <= x < n ==> (#[trigger] seen@[x] <==> vs.contains(x)),
                forall|x: int| 0 <= x < n ==> (#[trigger] seen@[x] <==> queue@.contains(x as EntityId)),
                forall|x: int| 0 <= x < n && Self::live(o, x) && o[x].delete ==> #[trigger] seen@[x],
                forall|j: int| 0 <= j < queue@.len() ==> #[trigger] queue@[j] < n && doomed(o, queue@[j] as int),
                forall|x: int| 0 <= x < n ==> #[trigger] self@[x] == (Slot { delete: self@[x].delete, ..o[x] }),
                forall|x: int| 0 <= x < n && o[x].delete ==> #[trigger] self@[x].delete,
                forall|x: int| 0 <= x < n && #[trigger] self@[x].delete && !o[x].delete
                    ==> exists|j: int| 0 <= j < head && queue@[j] == x,
                forall|j: int, c: EntityId| 0 <= j < head && #[trigger] children_of(o[queue@[j] as int]).contains(c)
                    && Self::live(o, c as int) ==> seen@[c as int],
                forall|j: int| 0 <= j < head ==> #[trigger] self@[queue@[j] as int].delete,
            decreases n - queue@.len(), queue@.len() - head,
        {
            let c = queue[head];
            let ghost before = self@;
            if !self.is_marked(c) {
                self.mark_delete(c, Delete);
            }
            let ghost q0 = queue@;
            let ghost s1 = seen@;
            let ghost k0 = choose|path: Seq<int>| #[trigger] is_chain(o, path) && path.last() == c as int;
            assert(self@[c as int].hierarchy == o[c as int].hierarchy);
            match self.hierarchy(c) {
                Some(h) => {
                    assert(children_of(o[c as int]) == h.children@);
                    let mut i: usize = 0;
                    while i < h.children.len()
                        invariant
                            n == o.len(),
                            self@.len() == n,
                            seen@.len() == n,
                            i <= h.children@.len(),
                            children_of(o[c as int]) == h.children@,
                            is_chain(o, k0),
                            k0.last() == c as int,
                            queue@.len() <= n,
                            queue@.len() == vs.len(),
                            q0.len() <= queue@.len(),
                            forall|j: int| 0 <= j < q0.len() ==> #[trigger] queue@[j] == q0[j],
                            vs.finite(),
                            forall|y: int| #[trigger] vs.contains(y) ==> 0 <= y < n,
                            forall|x: int| 0 <= x < n ==> (#[trigger] seen@[x] <==> vs.contains(x)),
                            forall|x: int| 0 <= x < n ==> (#[trigger] seen@[x] <==> queue@.contains(x as EntityId)),
                            forall|j: int| 0 <= j < queue@.len() ==> #[trigger] queue@[j] < n && doomed(o, queue@[j] as int),
                            forall|x: int| 0 <= x < n ==> #[trigger] self@[x] == (Slot { delete: self@[x].delete, ..o[x] }),
                            forall|x: int| 0 <= x < n && (#[trigger] s1[x]) ==> seen@[x],
                            forall|m: int| 0 <= m < i && Self::live(o, h.children@[m] as int) ==> #[trigger] seen@[h.children@[m] as int],
                        decreases h.children@.len() - i,
                    {
                        let x = h.children[i];
                        if x < n && !seen[x] && self.is_alive(x) {
                            proof {
                                lemma_room(vs, n as int, x as int);
                                vs = vs.insert(x as int);
                                assert(children_of(o[c as int]).contains(x));
                                assert(self@[x as int] == (Slot { delete: self@[x as int].delete, ..o[x as int] }));
                                assert(o[x as int].alive);
                                lemma_chain_child(o, k0, x as int);
                            }
                            let ghost qb = queue@;
                            seen.set(x, true);
                            queue.push(x);
                            proof {
                                assert forall|y: int| 0 <= y < n implies (#[trigger] seen@[y] <==> queue@.contains(y as EntityId)) by {
                                    if qb.contains(y as EntityId) {
                                        let j = choose|j: int| 0 <= j < qb.len() && qb[j] == y as EntityId;
                                        assert(queue@[j] == qb[j]);
                                    }
                                    if y == x {
                                        assert(queue@[qb.len() as int] == x);
                                    }
                                    if queue@.contains(y as EntityId) {
                                        let j = choose|j: int| 0 <= j < queue@.len() && queue@[j] == y as EntityId;
                                        if j < qb.len() {
                                            assert(qb[j] == y);
                                        }
                                    }
                                }
                            }
                        }
                        i = i + 1;
                    }
                },
                None => {
                    assert(children_of(o[c as int]) =~= Seq::<EntityId>::empty());
                },
            }
            assert(queue@[head as int] == c);
            assert forall|x: int| 0 <= x < n && Self::live(o, x) && o[x].delete implies #[trigger] seen@[x] by {
                assert(s1[x]);
            }
            head = head + 1;
            proof {
                assert forall|x: int| 0 <= x < n && #[trigger] self@[x].delete && !o[x].delete
                    implies exists|j: int| 0 <= j < head && queue@[j] == x by {
                    if x != c {
                        assert(before[x].delete);
                        let j = choose|j: int| 0 <= j < head - 1 && q0[j] == x;
                        assert(queue@[j] == q0[j]);
                    } else {
                        assert(queue@[head - 1] == x);
                    }
                }
                assert forall|j: int, y: EntityId| 0 <= j < head && #[trigger] children_of(o[queue@[j] as int]).contains(y)
                    && Self::live(o, y as int) implies seen@[y as int] by {
                    if j < head - 1 {
                        assert(queue@[j] == q0[j]);
                    } else {
                        assert(queue@[j] == c);
                        let m = choose|m: int| 0 <= m < children_of(o[c as int]).len() && children_of(o[c as int])[m] == y;
                    }
                }
                assert forall|j: int| 0 <= j < head implies #[trigger] self@[queue@[j] as int].delete by {
                    if j < head - 1 {
                        assert(queue@[j] == q0[j]);
                    }
                }
            }
        }
        proof {
            assert forall|x: int, y: EntityId|
                Self::live(self@, x) && self@[x].delete && #[trigger] children_of(self@[x]).contains(y)
                    && Self::live(self@, y as int) implies self@[y as int].delete by {
                assert(self@[x] == (Slot { delete: self@[x].delete, ..o[x] }));
                assert(self@[y as int] == (Slot { delete: self@[y as int].delete, ..o[y as int] }));
                assert(seen@[x]);
                let j = choose|j: int| 0 <= j < queue@.len() && queue@[j] == x as EntityId;
                assert(children_of(o[queue@[j] as int]).contains(y));
                assert(seen@[y as int]);
                let j2 = choose|j2: int| 0 <= j2 < queue@.len() && queue@[j2] == y;
                assert(self@[queue@[j2] as int].delete);
            }
        }
    }

    /// Removes every live entity that carries the deletion tag. Returns the
    /// renderer's handles of the visual objects they carried, in identifier
    /// order, so that the objects can be released.
    pub fn do_delete(&mut self) -> (released: Vec<u32>)
        ensures
            swept(old(self)@, final(self)@),
            released@ == swept_handles(old(self)@, old(self)@.len() as int),
    {
        let ghost o = self@;
        let n = self.len();
        let mut released: Vec<u32> = Vec::new();
        let mut e: usize = 0;
        while e < n
            invariant
                n == o.len(),
                self@.len() == n,
                e <= n,
                released@ == swept_handles(o, e as int),
                forall|x: int| 0 <= x < e ==> #[trigger] self@[x] == (if Self::live(o, x) && o[x].delete {
                    removed_slot(o[x])
                } else {
                    o[x]
                }),
                forall|x: int| e <= x < n ==> #[trigger] self@[x] == o[x],
            decreases n - e,
        {
            if self.is_alive(e) && self.is_marked(e) {
                let r = self.remove(e);
                assert(self@[e as int] == removed_slot(o[e as int]));
                if let Some(h) = r {
                    released.push(h);
                }
            }
            e = e + 1;
        }
        released
    }
}
} // verus!
