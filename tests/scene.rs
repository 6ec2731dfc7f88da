use simulo::{Delete, Engine, GlobalTransform, Hierarchy, Pose, Rendered, World};

type V = (i64, i64);

fn add(p: V, l: V) -> V {
    (p.0 + l.0, p.1 + l.1)
}

fn managed(w: &mut World<V, i32>, local: V, h: Hierarchy) -> usize {
    let e = w.spawn();
    w.set_local(e, local);
    w.set_global(e, GlobalTransform::identity((0, 0)));
    w.set_hierarchy(e, h);
    e
}

#[test]
fn hierarchy_constructors() {
    let r = Hierarchy::root();
    assert!(r.children.is_empty());
    assert_eq!(r.level, 0);
    let r = Hierarchy::root_with_children([3, 4]);
    assert_eq!(r.children, vec![3, 4]);
    assert_eq!(r.level, 0);
    let c = Hierarchy::child_of(&r, [7]);
    assert_eq!(c.children, vec![7]);
    assert_eq!(c.level, 1);
    let g = Hierarchy::child_of(&c, []);
    assert_eq!(g.level, 2);
}

#[test]
fn pose_keypoints() {
    let mut data = [0i32; 34];
    for i in 0..34 {
        data[i] = i as i32 * 10;
    }
    let p = Pose::new(data);
    assert_eq!(p.nose(), (0, 10));
    assert_eq!(p.left_eye(), (20, 30));
    assert_eq!(p.right_ankle(), (320, 330));
    assert_eq!(p.keypoint(Pose::<i32>::LEFT_WRIST), (180, 190));
}

#[test]
fn child_translation_follows_local_change() {
    let mut eng: Engine<V, i32> = Engine::new();
    let c = {
        let w = &mut eng.world;
        let r = w.spawn();
        let c = managed(w, (1, 0), Hierarchy::root());
        w.set_local(r, (0, 0));
        w.set_global(r, GlobalTransform::identity((0, 0)));
        w.set_hierarchy(r, Hierarchy::root_with_children([c]));
        w.set_hierarchy(c, Hierarchy::child_of(&Hierarchy::root(), []));
        c
    };
    let first = eng.tick(add);
    assert_eq!(first.written, vec![0, 1]);
    assert_eq!(eng.world.global(c).unwrap().global, (1, 0));
    eng.world.set_local(c, (2, 0));
    let second = eng.tick(add);
    assert_eq!(second.written, vec![c]);
    let g = eng.world.global(c).unwrap();
    assert_eq!(g.global, (2, 0));
    assert_eq!(g.parent, (0, 0));
    assert!(!eng.world.global_changed(0));
}

#[test]
fn composition_runs_down_the_tree() {
    let mut w: World<V, i32> = World::new();
    let a = w.spawn();
    let b = managed(&mut w, (0, 5), Hierarchy::root());
    let c = managed(&mut w, (1, 1), Hierarchy::root());
    w.set_local(a, (10, 0));
    w.set_global(a, GlobalTransform::identity((0, 0)));
    w.set_hierarchy(a, Hierarchy::root_with_children([b]));
    w.set_hierarchy(b, Hierarchy::child_of(&Hierarchy::root(), [c]));
    w.recalculate_transforms(add);
    w.clear_changes();
    w.set_local(a, (10, 0));
    let written = w.recalculate_transforms(add);
    assert_eq!(written, vec![a, b, c]);
    assert_eq!(w.global(b).unwrap().global, (10, 5));
    assert_eq!(w.global(c).unwrap().global, (11, 6));
    assert_eq!(w.global(c).unwrap().parent, (10, 5));
}

#[test]
fn untouched_subtree_is_not_rewritten() {
    let mut w: World<V, i32> = World::new();
    let a = managed(&mut w, (1, 0), Hierarchy::root());
    let b = managed(&mut w, (2, 0), Hierarchy::root());
    w.recalculate_transforms(add);
    w.clear_changes();
    w.set_local(a, (5, 0));
    let written = w.recalculate_transforms(add);
    assert_eq!(written, vec![a]);
    assert!(!w.global_changed(b));
    assert_eq!(w.global(b).unwrap().global, (2, 0));
}

#[test]
fn diamond_child_written_once() {
    let mut w: World<V, i32> = World::new();
    let a = w.spawn();
    let b = w.spawn();
    let c = managed(&mut w, (1, 0), Hierarchy::root());
    for (e, x) in [(a, 10), (b, 20)] {
        w.set_local(e, (x, 0));
        w.set_global(e, GlobalTransform::identity((0, 0)));
        w.set_hierarchy(e, Hierarchy::root_with_children([c]));
    }
    w.clear_changes();
    w.set_local(a, (10, 0));
    w.set_local(b, (20, 0));
    let written = w.recalculate_transforms(add);
    assert_eq!(written, vec![a, b, c]);
    // The first queued parent wins.
    assert_eq!(w.global(c).unwrap().global, (11, 0));
}

#[test]
fn seeds_run_shallowest_first() {
    let mut w: World<V, i32> = World::new();
    let deep = w.spawn();
    let top = managed(&mut w, (0, 0), Hierarchy::root());
    w.set_local(deep, (1, 0));
    w.set_global(deep, GlobalTransform::identity((0, 0)));
    w.set_hierarchy(deep, Hierarchy::child_of(&Hierarchy::child_of(&Hierarchy::root(), []), []));
    let seeds = w.dirty_roots();
    assert_eq!(seeds.len(), 2);
    assert_eq!(seeds[0].entity, top);
    assert_eq!(seeds[1].entity, deep);
    assert_eq!(seeds[1].level, 2);
}

#[test]
fn deletion_cascades_to_descendants_only() {
    let mut eng: Engine<V, i32> = Engine::new();
    let w = &mut eng.world;
    let r = w.spawn();
    let a = w.spawn();
    let b = w.spawn();
    let x = w.spawn();
    w.set_hierarchy(r, Hierarchy::root_with_children([a]));
    w.set_hierarchy(a, Hierarchy::child_of(&Hierarchy::root(), [b]));
    w.set_hierarchy(x, Hierarchy::root());
    w.set_rendered(b, Rendered(42));
    w.mark_delete(r, Delete);
    let rep = eng.tick(add);
    assert_eq!(rep.released, vec![42]);
    assert!(!eng.world.is_alive(r));
    assert!(!eng.world.is_alive(a));
    assert!(!eng.world.is_alive(b));
    assert!(eng.world.is_alive(x));
    let again = eng.tick(add);
    assert!(again.released.is_empty());
    assert!(again.written.is_empty());
    assert!(eng.world.is_alive(x));
}

#[test]
fn deletion_survives_cycles() {
    let mut w: World<V, i32> = World::new();
    let a = w.spawn();
    let b = w.spawn();
    w.set_hierarchy(a, Hierarchy::root_with_children([b]));
    w.set_hierarchy(b, Hierarchy::root_with_children([a]));
    w.mark_delete(b, Delete);
    w.propagate_delete_to_children();
    assert!(w.is_marked(a));
    assert!(w.is_marked(b));
    let released = w.do_delete();
    assert!(released.is_empty());
    assert!(!w.is_alive(a) && !w.is_alive(b));
}

#[test]
fn pose_lifecycle() {
    let mut eng: Engine<V, i32> = Engine::new();
    let k1 = Pose::new([1; 34]);
    let k2 = Pose::new([2; 34]);
    eng.pose_event(7, true, k1);
    let e = eng.pose_entity(7).unwrap();
    assert_eq!(eng.world.pose(e).unwrap().nose(), (1, 1));
    assert_eq!(eng.world.hierarchy(e).unwrap().level, 0);
    eng.pose_event(7, true, k2);
    assert_eq!(eng.pose_entity(7), Some(e));
    assert_eq!(eng.world.len(), 1);
    assert_eq!(eng.world.pose(e).unwrap().nose(), (2, 2));
    eng.pose_event(7, false, k2);
    assert_eq!(eng.pose_entity(7), None);
    assert!(eng.world.is_marked(e));
    eng.tick(add);
    assert!(!eng.world.is_alive(e));
    eng.pose_event(7, true, k1);
    let e2 = eng.pose_entity(7).unwrap();
    assert_ne!(e2, e);
    assert!(eng.world.is_alive(e2));
}

#[test]
fn visual_updates_only_for_changed() {
    let mut eng: Engine<V, i32> = Engine::new();
    let w = &mut eng.world;
    let a = managed(w, (3, 4), Hierarchy::root());
    let b = managed(w, (5, 6), Hierarchy::root());
    w.set_rendered(a, Rendered(1));
    w.set_rendered(b, Rendered(2));
    let rep = eng.tick(add);
    assert_eq!(rep.updates, vec![(1, (3, 4)), (2, (5, 6))]);
    eng.world.set_local(b, (7, 7));
    let rep = eng.tick(add);
    assert_eq!(rep.updates, vec![(2, (7, 7))]);
    let rep = eng.tick(add);
    assert!(rep.updates.is_empty());
}

#[test]
fn handles_read_back() {
    assert_eq!(Rendered(9).handle(), 9);
    assert_eq!(simulo::Material(4).handle(), 4);
}

#[test]
fn changed_descendant_of_changed_ancestor_keeps_stale_parent() {
    let mut w: World<V, i32> = World::new();
    let a = w.spawn();
    let b = managed(&mut w, (0, 1), Hierarchy::root());
    w.set_local(a, (1, 0));
    w.set_global(a, GlobalTransform::identity((0, 0)));
    w.set_hierarchy(a, Hierarchy::root_with_children([b]));
    w.set_hierarchy(b, Hierarchy::child_of(&Hierarchy::root(), []));
    w.recalculate_transforms(add);
    w.clear_changes();
    w.set_local(a, (5, 0));
    w.set_local(b, (0, 2));
    let written = w.recalculate_transforms(add);
    assert_eq!(written, vec![a, b]);
    // b was queued as a seed before a's new transform reached it.
    assert_eq!(w.global(b).unwrap().parent, (0, 0));
    assert_eq!(w.global(b).unwrap().global, (0, 2));
}

#[test]
fn component_removal() {
    let mut w: World<V, i32> = World::new();
    let e = w.spawn();
    w.set_rendered(e, Rendered(5));
    w.set_hierarchy(e, Hierarchy::root());
    assert_eq!(w.remove_rendered(e), Some(5));
    assert_eq!(w.remove_rendered(e), None);
    w.remove_hierarchy(e);
    assert!(w.hierarchy(e).is_none());
    assert_eq!(w.remove(e), None);
    assert!(!w.is_alive(e));
    assert!(!w.is_alive(99));
}

#[test]
fn entity_without_hierarchy_is_not_a_seed() {
    let mut w: World<V, i32> = World::new();
    let e = w.spawn();
    w.set_local(e, (1, 1));
    w.set_global(e, GlobalTransform::identity((0, 0)));
    assert!(w.dirty_roots().is_empty());
    assert!(w.recalculate_transforms(add).is_empty());
    assert_eq!(w.global(e).unwrap().global, (0, 0));
}

#[test]
fn changes_cleared_at_end_of_tick() {
    let mut w: World<V, i32> = World::new();
    let e = managed(&mut w, (1, 1), Hierarchy::root());
    assert!(w.local_changed(e));
    w.recalculate_transforms(add);
    assert!(w.global_changed(e));
    w.clear_changes();
    assert!(!w.local_changed(e));
    assert!(!w.global_changed(e));
    assert_eq!(w.local(e), Some((1, 1)));
}
