//! Core data structures for an active preference-elicitation engine.
//!
//! A set of items is ranked from noisy pairwise "a beat b" observations by a
//! TrueSkill-style Gaussian belief-propagation solver, and the next most
//! informative pair to compare is chosen by expected information gain. The
//! floating-point message passing itself lives with the caller; this crate
//! holds the verified backbone it runs on: the deduplicating work queues that
//! drive the fixed point, the factor-graph incidence structure with its
//! push/pop rollback, the validation and unrolling of observation matrices,
//! and the deterministic argmax used to pick the recommended pair.

pub mod graph;
pub mod matrix;
pub mod messages;
pub mod pending;
pub mod select;
pub mod text;
