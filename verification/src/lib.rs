//! Control plane for per-frame playback of parametric animations.
//!
//! An animation instance is driven by a small state machine: it is requested,
//! possibly deferred on the progress of a sibling instance, started once its
//! sampler assets are loaded, paused, resumed, stepped, retargeted with new
//! input values or blend weights, and finally aborted and reclaimed. Each
//! instance fans out over a hierarchy of target entities, each of which holds
//! a per-node collection of sampler controls mirroring the instance state.
//!
//! The entity/component store, the asset pipeline and the curve-sampling math
//! are collaborators outside this crate: the store is modelled here as an
//! explicit list of entity records plus a buffer of structural mutations that
//! is applied only after the per-tick pass, and assets are modelled by their
//! identifiers together with a loaded-set.

pub mod animation;
pub mod control;
pub mod driver;
pub mod hierarchy;
pub mod laws;
pub mod process;
pub mod propagate;
pub mod sampler;
pub mod starter;
pub mod state;
pub mod world;
