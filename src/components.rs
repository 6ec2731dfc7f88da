use vstd::prelude::*;

verus! {

/// A stable entity identifier. Identifiers are handed out in increasing order
/// and never reused, so one that names a removed entity stays invalid.
pub type EntityId = usize;

/// An opaque handle to a material owned by the external renderer.
pub struct Material(pub u32);

impl Material {
    /// The renderer's handle for this material.
    pub fn handle(&self) -> (r: u32)
        ensures
            r == self.0,
    {
        self.0
    }
}

/// An opaque handle to a visual object owned by the external renderer. The
/// object is released when the entity that carries it is removed.
pub struct Rendered(pub u32);

impl Rendered {
    /// The renderer's handle for this visual object.
    pub fn handle(&self) -> (r: u32)
        ensures
            r == self.0,
    {
        self.0
    }
}

/// Tag marking an entity, and through the cascade all its descendants, for
/// removal at the end of the tick.
pub struct Delete;

/// An entity's transform relative to its parent.
#[derive(Clone, Copy)]
pub struct Transform<M>(pub M);

/// An entity's cached world transform: the parent's world transform it was
/// composed against, and the composed result.
#[derive(Clone, Copy)]
pub struct GlobalTransform<M> {
    pub parent: M,
    pub global: M,
}

impl<M: Copy> GlobalTransform<M> {
    /// A cached world transform for an entity not yet placed under any parent:
    /// both parts are `identity`.
    pub fn identity(identity: M) -> (r: Self)
        ensures
            r.parent == identity,
            r.global == identity,
    {
        GlobalTransform { parent: identity, global: identity }
    }
}

/// An entity's ordered list of children and its depth in the tree.
pub struct Hierarchy {
    pub children: Vec<EntityId>,
    pub level: usize,
}

impl Hierarchy {
    /// A root without children.
    pub fn root() -> (r: Self)
        ensures
            r.children@ == Seq::<EntityId>::empty(),
            r.level == 0,
    {
        Hierarchy { children: Vec::new(), level: 0 }
    }

    /// A root with the given children, in order.
    pub fn root_with_children<const N: usize>(children: [EntityId; N]) -> (r: Self)
        ensures
            r.children@ == children@,
            r.level == 0,
    {
        Hierarchy { children: copy_ids(&children), level: 0 }
    }

    /// A node one level below `parent`, with the given children, in order.
    pub fn child_of<const N: usize>(parent: &Hierarchy, children: [EntityId; N]) -> (r: Self)
        requires
            parent.level < usize::MAX,
        ensures
            r.children@ == children@,
            r.level == parent.level + 1,
    {
        Hierarchy { children: copy_ids(&children), level: parent.level + 1 }
    }
}

fn copy_ids<const N: usize>(ids: &[EntityId; N]) -> (r: Vec<EntityId>)
    ensures
        r@ == ids@,
{
    let mut out: Vec<EntityId> = Vec::new();
    let mut i: usize = 0;
    while i < N
        invariant
            i <= N,
            N == ids@.len(),
            out@ == ids@.subrange(0, i as int),
        decreases N - i,
    {
        out.push(ids[i]);
        i = i + 1;
    }
    assert(out@ == ids@);
    out
}

} // verus!
