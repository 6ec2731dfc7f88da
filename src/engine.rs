use vstd::prelude::*;

use crate::cascade::{marks_spread, swept, swept_handles};
use crate::components::{Delete, EntityId, Hierarchy};
use crate::notify::notified;
use crate::pose::Pose;
use crate::propagate::propagated;
use crate::world::{is_empty_live, Slot, World};

verus! {

/// What one tick leaves for the renderer: the entities whose world transform
/// was rewritten, the transform updates to report, and the visual objects to
/// release.
pub struct TickReport<M> {
    pub written: Vec<EntityId>,
    pub updates: Vec<(u32, M)>,
    pub released: Vec<u32>,
}

/// `n` is `o` with every changed flag cleared.
pub open spec fn cleared<M, T>(o: Seq<Slot<M, T>>, n: Seq<Slot<M, T>>) -> bool {
    &&& n.len() == o.len()
    &&& forall|e: int| 0 <= e < o.len() ==> #[trigger] n[e] == (Slot {
        local_changed: false,
        global_changed: false,
        ..o[e]
    })
}

/// One tracker report `(id, alive, data)` took the scene `o` to `n`.
pub open spec fn pose_step<M: Copy, T: Copy>(o: Engine<M, T>, n: Engine<M, T>, id: u32, alive: bool, data: Pose<T>) -> bool {
    &&& (alive && o.pose_ids().contains_key(id) ==> {
        &&& n.pose_ids() == o.pose_ids()
        &&& n.world@ == o.world@.update(
            o.pose_ids()[id] as int,
            Slot { pose: Some(data), ..o.world@[o.pose_ids()[id] as int] },
        )
    })
    &&& (alive && !o.pose_ids().contains_key(id) ==> {
        let e = o.world@.len();
        &&& n.pose_ids() == o.pose_ids().insert(id, e as EntityId)
        &&& n.world@.len() == e + 1
        &&& n.world@.subrange(0, e as int) == o.world@
        &&& n.world@[e as int].pose == Some(data)
        &&& n.world@[e as int].hierarchy is Some
        &&& n.world@[e as int].hierarchy.unwrap().level == 0
        &&& n.world@[e as int].hierarchy.unwrap().children@.len() == 0
        &&& is_empty_live(Slot { pose: None, hierarchy: None, ..n.world@[e as int] })
    })
    &&& (!alive ==> {
        &&& n.pose_ids() == o.pose_ids().remove(id)
        &&& n.world@ == o.world@.update(
            o.pose_ids()[id] as int,
            Slot { delete: true, ..o.world@[o.pose_ids()[id] as int] },
        )
    })
}

/// The scene as driven by the host: the entity store and the mapping from
/// external tracking identifiers to the entities that carry their poses.
pub struct Engine<M, T> {
    pub world: World<M, T>,
    pub poses: Vec<(u32, EntityId)>,
    pub id_map: Ghost<Map<u32, EntityId>>,
}

impl<M: Copy, T: Copy> Engine<M, T> {
    /// The entity each tracking identifier is mapped to.
    pub open spec fn pose_ids(&self) -> Map<u32, EntityId> {
        self.id_map@
    }

    /// The list of pairs holds each tracking identifier once and agrees with
    /// the mapping.
    pub open spec fn wf(&self) -> bool {
        &&& forall|i: int| 0 <= i < self.poses@.len() ==> {
            &&& self.id_map@.contains_key(#[trigger] self.poses@[i].0)
            &&& self.id_map@[self.poses@[i].0] == self.poses@[i].1
        }
        &&& forall|k: u32| #[trigger] self.id_map@.contains_key(k) ==>
            exists|i: int| 0 <= i < self.poses@.len() && self.poses@[i].0 == k
        &&& forall|i: int, j: int| 0 <= i < j < self.poses@.len() ==> self.poses@[i].0 != self.poses@[j].0
    }

    /// An empty scene.
    pub fn new() -> (r: Self)
        ensures
            r.wf(),
            r.world@.len() == 0,
            r.pose_ids() == Map::<u32, EntityId>::empty(),
    {
        Engine { world: World::new(), poses: Vec::new(), id_map: Ghost(Map::empty()) }
    }

    fn find(&self, id: u32) -> (r: Option<usize>)
        requires
            self.wf(),
        ensures
            match r {
                Some(i) => i < self.poses@.len() && self.poses@[i as int].0 == id,
                None => !self.pose_ids().contains_key(id),
            },
    {
        let mut i: usize = 0;
        while i < self.poses.len()
            invariant
                i <= self.poses@.len(),
                forall|j: int| 0 <= j < i ==> self.poses@[j].0 != id,
            decreases self.poses@.len() - i,
        {
            if self.poses[i].0 == id {
                return Some(i);
            }
            i = i + 1;
        }
        None
    }

    /// The entity that carries the pose of tracking identifier `id`, if any.
    pub fn pose_entity(&self, id: u32) -> (r: Option<EntityId>)
        requires
            self.wf(),
        ensures
            r == (if self.pose_ids().contains_key(id) { Some(self.pose_ids()[id]) } else { None::<EntityId> }),
    {
        match self.find(id) {
            Some(i) => Some(self.poses[i].1),
            None => None,
        }
    }

    /// Handles one report of the external tracker. A live report for an
    /// unseen identifier creates a root entity carrying the pose and maps the
    /// identifier to it; one for a known identifier overwrites that entity's
    /// pose in place. A lost report tags the mapped entity for deletion and
    /// forgets the identifier, which must be known.
    pub fn pose_event(&mut self, id: u32, alive: bool, data: Pose<T>)
        requires
            old(self).wf(),
            !alive ==> old(self).pose_ids().contains_key(id),
            old(self).pose_ids().contains_key(id) ==> World::<M, T>::live(old(self).world@, old(self).pose_ids()[id] as int),
        ensures
            final(self).wf(),
            pose_step(*old(self), *final(self), id, alive, data),
    {
        match self.find(id) {
            Some(i) => {
                let e = self.poses[i].1;
                if alive {
                    self.world.set_pose(e, data);
                } else {
                    self.world.mark_delete(e, Delete);
                    let ghost old_poses = self.poses@;
                    self.poses.remove(i);
                    self.id_map = Ghost(self.id_map@.remove(id));
                    proof {
                        assert forall|k: int| 0 <= k < self.poses@.len() implies #[trigger] self.poses@[k] == (if k < i {
                            old_poses[k]
                        } else {
                            old_poses[k + 1]
                        }) by {}
                        assert forall|x: u32| #[trigger] self.id_map@.contains_key(x) implies
                            exists|j: int| 0 <= j < self.poses@.len() && self.poses@[j].0 == x by {
                            let j = choose|j: int| 0 <= j < old_poses.len() && old_poses[j].0 == x;
                            if j < i {
                                assert(self.poses@[j] == old_poses[j]);
                            } else {
                                assert(self.poses@[j - 1] == old_poses[j]);
                            }
                        }
                    }
                }
            },
            None => {
                let e = self.world.spawn();
                self.world.set_pose(e, data);
                self.world.set_hierarchy(e, Hierarchy::root());
                let ghost old_poses = self.poses@;
                self.poses.push((id, e));
                self.id_map = Ghost(self.id_map@.insert(id, e));
                proof {
                    assert forall|x: u32| #[trigger] self.id_map@.contains_key(x) implies
                        exists|j: int| 0 <= j < self.poses@.len() && self.poses@[j].0 == x by {
                        if x == id {
                            assert(self.poses@[old_poses.len() as int].0 == x);
                        } else {
                            let j = choose|j: int| 0 <= j < old_poses.len() && old_poses[j].0 == x;
                            assert(self.poses@[j] == old_poses[j]);
                        }
                    }
                    assert(self.world@.subrange(0, e as int) =~= old(self).world@);
                }
            },
        }
    }

    /// Runs the per-tick pipeline after the host's own updates: world
    /// transforms are propagated with `compose` (parent first, then local),
    /// the renderer updates are collected, the deletion tag is spread and the
    /// tagged entities removed, and the change window is closed.
    pub fn tick<F: Fn(M, M) -> M>(&mut self, compose: F) -> (r: TickReport<M>)
        requires
            forall|a: M, b: M| #[trigger] compose.requires((a, b)),
        ensures
            final(self).pose_ids() == old(self).pose_ids(),
            final(self).wf() == old(self).wf(),
            exists|w1: Seq<Slot<M, T>>, w2: Seq<Slot<M, T>>, w3: Seq<Slot<M, T>>| {
                &&& #[trigger] propagated(compose, old(self).world@, w1, r.written@)
                &&& r.updates@ == notified(w1, w1.len() as int)
                &&& #[trigger] marks_spread(w1, w2)
                &&& #[trigger] swept(w2, w3)
                &&& r.released@ == swept_handles(w2, w2.len() as int)
                &&& cleared(w3, final(self).world@)
            },
    {
        let written = self.world.recalculate_transforms(compose);
        let ghost w1 = self.world@;
        let updates = self.world.changed_visuals();
        self.world.propagate_delete_to_children();
        let ghost w2 = self.world@;
        let released = self.world.do_delete();
        let ghost w3 = self.world@;
        self.world.clear_changes();
        let r = TickReport { written, updates, released };
        assert(propagated(compose, old(self).world@, w1, r.written@));
        assert(marks_spread(w1, w2));
        assert(swept(w2, w3));
        assert(self.poses@ == old(self).poses@ && self.id_map@ == old(self).id_map@);
        r
    }
}

} // verus!
