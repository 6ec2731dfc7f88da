//! A retained-mode scene graph: an entity store with parent/child hierarchy,
//! incremental world-transform propagation, cascading deletion and tracking of
//! externally supplied body poses.
mod cascade;
mod components;
mod engine;
mod laws;
mod notify;
mod pose;
mod propagate;
mod world;

pub use cascade::{doomed, is_chain, lemma_chain_child, marks_spread, removed_slot, swept, swept_handles};
pub use engine::{cleared, pose_step, Engine, TickReport};
pub use components::{Delete, EntityId, GlobalTransform, Hierarchy, Material, Rendered, Transform};
pub use laws::{composed_by, is_forest, is_seed_path, lemma_propagation_correct, linked, placed, seeds_apart, lemma_deletion_transitive, lemma_empty_sweep_is_noop, lemma_marks_follow_chain, lemma_minimality, lemma_pose_fresh, lemma_pose_lifecycle, lemma_written_under_seed, under_seed};
pub use notify::{lemma_notice_once, needs_notice, noticing, notified};
pub use pose::{Pose, KEYPOINT_COUNT};
pub use propagate::{composed, has_origin, is_seed, is_target, propagated, seed_of, seeds_spec, Seed};
pub use world::{children_of, is_empty_live, is_removed, Slot, World};
