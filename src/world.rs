use vstd::prelude::*;

use crate::components::{Delete, EntityId, GlobalTransform, Hierarchy, Rendered};
use crate::pose::Pose;

verus! {

/// Everything the store holds for one entity identifier. `M` is the transform
/// type and `T` the pose coordinate type.
pub struct Slot<M, T> {
    /// False once the entity has been removed.
    pub alive: bool,
    pub local: Option<M>,
    /// Set on every write of `local`, cleared at the end of the tick.
    pub local_changed: bool,
    pub global: Option<GlobalTransform<M>>,
    /// Set on every write of `global`, cleared at the end of the tick.
    pub global_changed: bool,
    pub hierarchy: Option<Hierarchy>,
    /// Whether the entity carries the deletion tag.
    pub delete: bool,
    /// The renderer's handle of the entity's visual object, if any.
    pub rendered: Option<u32>,
    pub pose: Option<Pose<T>>,
}

/// The children listed in a slot's hierarchy, or none.
pub open spec fn children_of<M, T>(s: Slot<M, T>) -> Seq<EntityId> {
    match s.hierarchy {
        Some(h) => h.children@,
        None => Seq::empty(),
    }
}

/// A slot for a live entity that carries no component.
pub open spec fn is_empty_live<M, T>(s: Slot<M, T>) -> bool {
    &&& s.alive
    &&& s.local is None
    &&& !s.local_changed
    &&& s.global is None
    &&& !s.global_changed
    &&& s.hierarchy is None
    &&& !s.delete
    &&& s.rendered is None
    &&& s.pose is None
}

/// A slot left behind by a removed entity.
pub open spec fn is_removed<M, T>(s: Slot<M, T>) -> bool {
    &&& !s.alive
    &&& s.local is None
    &&& !s.local_changed
    &&& s.global is None
    &&& !s.global_changed
    &&& s.hierarchy is None
    &&& !s.delete
    &&& s.rendered is None
    &&& s.pose is None
}

/// The entity store. Entity `e` owns slot `e`; identifiers are never reused.
pub struct World<M, T> {
    slots: Vec<Slot<M, T>>,
}

impl<M, T> View for World<M, T> {
    type V = Seq<Slot<M, T>>;

    closed spec fn view(&self) -> Seq<Slot<M, T>> {
        self.slots@
    }
}

impl<M, T> World<M, T> {
    /// Whether `e` names a live entity of `w`.
    pub open spec fn live(w: Seq<Slot<M, T>>, e: int) -> bool {
        0 <= e < w.len() && w[e].alive
    }
}

impl<M: Copy, T: Copy> World<M, T> {
    /// An empty store.
    pub fn new() -> (r: Self)
        ensures
            r@.len() == 0,
    {
        World { slots: Vec::new() }
    }

    /// Creates an entity with no components and returns its identifier, which
    /// no earlier entity had.
    pub fn spawn(&mut self) -> (e: EntityId)
        ensures
            e == old(self)@.len(),
            final(self)@.len() == old(self)@.len() + 1,
            final(self)@.subrange(0, e as int) == old(self)@,
            is_empty_live(final(self)@[e as int]),
    {
        let e = self.slots.len();
        self.slots.push(
            Slot {
                alive: true,
                local: None,
                local_changed: false,
                global: None,
                global_changed: false,
                hierarchy: None,
                delete: false,
                rendered: None,
                pose: None,
            },
        );
        assert(self.slots@.subrange(0, e as int) =~= old(self)@);
        e
    }

    /// Number of identifiers handed out so far.
    pub fn len(&self) -> (r: usize)
        ensures
            r == self@.len(),
    {
        self.slots.len()
    }

    /// Whether `e` names a live entity.
    pub fn is_alive(&self, e: EntityId) -> (r: bool)
        ensures
            r == Self::live(self@, e as int),
    {
        e < self.slots.len() && self.slots[e].alive
    }

    /// Inserts or overwrites the local transform of `e` and marks it changed.
    pub fn set_local(&mut self, e: EntityId, m: M)
        requires
            Self::live(old(self)@, e as int),
        ensures
            final(self)@ == old(self)@.update(
                e as int,
                Slot { local: Some(m), local_changed: true, ..old(self)@[e as int] },
            ),
    {
        let s = &mut self.slots[e];
        s.local = Some(m);
        s.local_changed = true;
        assert(self.slots@ =~= old(self)@.update(
            e as int,
            Slot { local: Some(m), local_changed: true, ..old(self)@[e as int] },
        ));
    }

    /// The local transform of `e`, if it has one.
    pub fn local(&self, e: EntityId) -> (r: Option<M>)
        requires
            e < self@.len(),
        ensures
            r == self@[e as int].local,
    {
        self.slots[e].local
    }

    /// Whether the local transform of `e` was written during this tick.
    pub fn local_changed(&self, e: EntityId) -> (r: bool)
        requires
            e < self@.len(),
        ensures
            r == self@[e as int].local_changed,
    {
        self.slots[e].local_changed
    }

    /// Whether the world transform of `e` was written during this tick.
    pub fn global_changed(&self, e: EntityId) -> (r: bool)
        requires
            e < self@.len(),
        ensures
            r == self@[e as int].global_changed,
    {
        self.slots[e].global_changed
    }

    /// Inserts or overwrites the cached world transform of `e` and marks it
    /// changed.
    pub fn set_global(&mut self, e: EntityId, g: GlobalTransform<M>)
        requires
            Self::live(old(self)@, e as int),
        ensures
            final(self)@ == old(self)@.update(
                e as int,
                Slot { global: Some(g), global_changed: true, ..old(self)@[e as int] },
            ),
    {
        let s = &mut self.slots[e];
        s.global = Some(g);
        s.global_changed = true;
        assert(self.slots@ =~= old(self)@.update(
            e as int,
            Slot { global: Some(g), global_changed: true, ..old(self)@[e as int] },
        ));
    }

    /// The cached world transform of `e`, if it has one.
    pub fn global(&self, e: EntityId) -> (r: Option<GlobalTransform<M>>)
        requires
            e < self@.len(),
        ensures
            r == self@[e as int].global,
    {
        self.slots[e].global
    }

    /// Inserts or overwrites the hierarchy of `e`.
    pub fn set_hierarchy(&mut self, e: EntityId, h: Hierarchy)
        requires
            Self::live(old(self)@, e as int),
        ensures
            final(self)@ == old(self)@.update(e as int, Slot { hierarchy: Some(h), ..old(self)@[e as int] }),
    {
        let s = &mut self.slots[e];
        s.hierarchy = Some(h);
        assert(self.slots@ =~= old(self)@.update(e as int, Slot { hierarchy: Some(h), ..old(self)@[e as int] }));
    }

    /// The hierarchy of `e`, if it has one.
    pub fn hierarchy(&self, e: EntityId) -> (r: Option<&Hierarchy>)
        requires
            e < self@.len(),
        ensures
            match r {
                Some(h) => self@[e as int].hierarchy == Some(*h),
                None => self@[e as int].hierarchy is None,
            },
    {
        self.slots[e].hierarchy.as_ref()
    }

    /// Attaches a visual object to `e`.
    pub fn set_rendered(&mut self, e: EntityId, r: Rendered)
        requires
            Self::live(old(self)@, e as int),
        ensures
            final(self)@ == old(self)@.update(e as int, Slot { rendered: Some(r.0), ..old(self)@[e as int] }),
    {
        let s = &mut self.slots[e];
        s.rendered = Some(r.0);
        assert(self.slots@ =~= old(self)@.update(e as int, Slot { rendered: Some(r.0), ..old(self)@[e as int] }));
    }

    /// The renderer's handle of the visual object of `e`, if it has one.
    pub fn rendered(&self, e: EntityId) -> (r: Option<u32>)
        requires
            e < self@.len(),
        ensures
            r == self@[e as int].rendered,
    {
        self.slots[e].rendered
    }

    /// Tags `e` for removal at the end of the tick.
    pub fn mark_delete(&mut self, e: EntityId, tag: Delete)
        requires
            Self::live(old(self)@, e as int),
        ensures
            final(self)@ == old(self)@.update(e as int, Slot { delete: true, ..old(self)@[e as int] }),
    {
        let s = &mut self.slots[e];
        s.delete = true;
        assert(self.slots@ =~= old(self)@.update(e as int, Slot { delete: true, ..old(self)@[e as int] }));
    }

    /// Whether `e` carries the deletion tag.
    pub fn is_marked(&self, e: EntityId) -> (r: bool)
        requires
            e < self@.len(),
        ensures
            r == self@[e as int].delete,
    {
        self.slots[e].delete
    }

    /// Inserts or overwrites the pose of `e`.
    pub fn set_pose(&mut self, e: EntityId, p: Pose<T>)
        requires
            Self::live(old(self)@, e as int),
        ensures
            final(self)@ == old(self)@.update(e as int, Slot { pose: Some(p), ..old(self)@[e as int] }),
    {
        let s = &mut self.slots[e];
        s.pose = Some(p);
        assert(self.slots@ =~= old(self)@.update(e as int, Slot { pose: Some(p), ..old(self)@[e as int] }));
    }

    /// The pose of `e`, if it has one.
    pub fn pose(&self, e: EntityId) -> (r: Option<Pose<T>>)
        requires
            e < self@.len(),
        ensures
            r == self@[e as int].pose,
    {
        self.slots[e].pose
    }

    /// Drops the hierarchy of `e`, if it has one.
    pub fn remove_hierarchy(&mut self, e: EntityId)
        requires
            Self::live(old(self)@, e as int),
        ensures
            final(self)@ == old(self)@.update(e as int, Slot { hierarchy: None, ..old(self)@[e as int] }),
    {
        let s = &mut self.slots[e];
        s.hierarchy = None;
        assert(self.slots@ =~= old(self)@.update(e as int, Slot { hierarchy: None, ..old(self)@[e as int] }));
    }

    /// Detaches the visual object of `e`. Returns its handle, if it had one,
    /// so that the object can be released.
    pub fn remove_rendered(&mut self, e: EntityId) -> (r: Option<u32>)
        requires
            Self::live(old(self)@, e as int),
        ensures
            r == old(self)@[e as int].rendered,
            final(self)@ == old(self)@.update(e as int, Slot { rendered: None, ..old(self)@[e as int] }),
    {
        let s = &mut self.slots[e];
        let r = s.rendered;
        s.rendered = None;
        assert(self.slots@ =~= old(self)@.update(e as int, Slot { rendered: None, ..old(self)@[e as int] }));
        r
    }

    /// Removes `e`: every component is dropped and the identifier becomes
    /// invalid. Returns the renderer's handle of its visual object, if it had
    /// one, so that the object can be released.
    pub fn remove(&mut self, e: EntityId) -> (r: Option<u32>)
        requires
            e < old(self)@.len(),
        ensures
            r == old(self)@[e as int].rendered,
            final(self)@.len() == old(self)@.len(),
            is_removed(final(self)@[e as int]),
            forall|x: int| 0 <= x < old(self)@.len() && x != e ==> #[trigger] final(self)@[x] == old(self)@[x],
    {
        let r = self.slots[e].rendered;
        self.slots.set(
            e,
            Slot {
                alive: false,
                local: None,
                local_changed: false,
                global: None,
                global_changed: false,
                hierarchy: None,
                delete: false,
                rendered: None,
                pose: None,
            },
        );
        r
    }

    /// Ends the tick's change window: every changed flag is cleared and nothing
    /// else moves.
    pub fn clear_changes(&mut self)
        ensures
            final(self)@.len() == old(self)@.len(),
            forall|e: int|
                0 <= e < old(self)@.len() ==> #[trigger] final(self)@[e] == (Slot {
                    local_changed: false,
                    global_changed: false,
                    ..old(self)@[e]
                }),
    {
        let n = self.slots.len();
        let mut i: usize = 0;
        while i < n
            invariant
                n == old(self)@.len(),
                self.slots@.len() == n,
                i <= n,
                forall|e: int|
                    0 <= e < i ==> #[trigger] self.slots@[e] == (Slot {
                        local_changed: false,
                        global_changed: false,
                        ..old(self)@[e]
                    }),
                forall|e: int| i <= e < n ==> #[trigger] self.slots@[e] == old(self)@[e],
            decreases n - i,
        {
            let s = &mut self.slots[i];
            s.local_changed = false;
            s.global_changed = false;
            i = i + 1;
        }
    }
}
} // verus!
