use vstd::prelude::*;

use crate::world::{Slot, World};

verus! {

/// The `(handle, world transform)` updates owed to the renderer for the first
/// `upto` entities of `w`, in identifier order: one for each live entity whose
/// world transform changed this tick and which carries a visual object.
pub open spec fn notified<M, T>(w: Seq<Slot<M, T>>, upto: int) -> Seq<(u32, M)>
    decreases upto,
{
    if upto <= 0 {
        Seq::empty()
    } else {
        let prev = notified(w, upto - 1);
        let s = w[upto - 1];
        if needs_notice(s) {
            prev.push((s.rendered.unwrap(), s.global.unwrap().global))
        } else {
            prev
        }
    }
}

/// A live slot with a changed world transform and a visual object.
pub open spec fn needs_notice<M, T>(s: Slot<M, T>) -> bool {
    s.alive && s.global_changed && s.global is Some && s.rendered is Some
}

impl<M: Copy, T: Copy> World<M, T> {
    /// The transform updates to report to the renderer this tick.
    pub fn changed_visuals(&self) -> (r: Vec<(u32, M)>)
        ensures
            r@ == notified(self@, self@.len() as int),
    {
        let n = self.len();
        let mut r: Vec<(u32, M)> = Vec::new();
        let mut e: usize = 0;
        while e < n
            invariant
                n == self@.len(),
                e <= n,
                r@ == notified(self@, e as int),
            decreases n - e,
        {
            if self.is_alive(e) && self.global_changed(e) {
                match (self.global(e), self.rendered(e)) {
                    (Some(g), Some(h)) => {
                        r.push((h, g.global));
                    },
                    _ => {},
                }
            }
            e = e + 1;
        }
        r
    }
}

/// The entities among the first `upto` of `w` that are owed an update, in
/// identifier order.
pub open spec fn noticing<M, T>(w: Seq<Slot<M, T>>, upto: int) -> Seq<int>
    decreases upto,
{
    if upto <= 0 {
        Seq::empty()
    } else {
        let prev = noticing(w, upto - 1);
        if needs_notice(w[upto - 1]) {
            prev.push(upto - 1)
        } else {
            prev
        }
    }
}

/// The renderer hears exactly once per tick of each live entity with a
/// changed world transform and a visual object, with its handle and new world
/// transform, and never of any other entity.
pub proof fn lemma_notice_once<M, T>(w: Seq<Slot<M, T>>, upto: int)
    requires
        0 <= upto <= w.len(),
    ensures
        notified(w, upto).len() == noticing(w, upto).len(),
        forall|k: int| 0 <= k < noticing(w, upto).len() ==> #[trigger] notified(w, upto)[k] == (
            w[noticing(w, upto)[k]].rendered.unwrap(),
            w[noticing(w, upto)[k]].global.unwrap().global,
        ),
        noticing(w, upto).no_duplicates(),
        forall|k: int| 0 <= k < noticing(w, upto).len() ==> 0 <= #[trigger] noticing(w, upto)[k] < upto,
        forall|e: int| 0 <= e < upto ==> (noticing(w, upto).contains(e) <==> #[trigger] needs_notice(w[e])),
    decreases upto,
{
    if upto > 0 {
        lemma_notice_once(w, upto - 1);
        let prev = noticing(w, upto - 1);
        if needs_notice(w[upto - 1]) {
            let cur = prev.push(upto - 1);
            assert(cur[prev.len() as int] == upto - 1);
            assert forall|e: int| 0 <= e < upto implies (cur.contains(e) <==> #[trigger] needs_notice(w[e])) by {
                if e < upto - 1 && prev.contains(e) {
                    let k = choose|k: int| 0 <= k < prev.len() && prev[k] == e;
                    assert(cur[k] == e);
                }
                if cur.contains(e) && e < upto - 1 {
                    let k = choose|k: int| 0 <= k < cur.len() && cur[k] == e;
                    assert(k < prev.len());
                    assert(prev[k] == e);
                }
            }
        }
    }
}

} // verus!
