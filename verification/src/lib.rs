//! Core of an entity-component-system runtime: entity identity management,
//! typed component storage keyed by explicit component descriptors, a system
//! scheduler that partitions systems into batches with pairwise-disjoint
//! component signatures, a FIFO job queue with a drain barrier, and a
//! fixed-interval timer.

mod component;
mod engine;
mod entity;
mod err;
mod scene;
mod system;
mod thread_pool;
mod timer;

pub use component::lemma_unregistered_never_succeeds;
pub use component::Component;
pub use component::ComponentManager;
pub use engine::Engine;
pub use engine::PHYSICS_TICK_NANOS;
pub use entity::lemma_destroy_order_is_reissue_order;
pub use entity::lemma_freed_ids_reissued_fifo;
pub use entity::lemma_fresh_id_only_after_reissue;
pub use entity::lemma_living_iff_live;
pub use entity::spec_create;
pub use entity::spec_create_n;
pub use entity::spec_create_result;
pub use entity::Entity;
pub use entity::EntityManager;
pub use err::Error;
pub use err::ErrorKind;
pub use scene::spec_remove_ids;
pub use scene::Scene;
pub use scene::SceneManager;
pub use scene::SceneState;
pub use system::lemma_overlapping_never_share_batch;
pub use system::lemma_sigs_disjoint_symmetric;
pub use system::matching_entities;
pub use system::sigs_disjoint;
pub use system::System;
pub use system::SystemManager;
pub use system::Systems;
pub use thread_pool::lemma_drain_barrier_open_means_empty;
pub use thread_pool::JobQueue;
pub use thread_pool::ThreadLock;
pub use timer::Timer;
