//! Core vocabulary of the control plane: instance states, caller commands,
//! end-of-playback policies and deferred-start relations.
//!
//! Durations and offsets are carried in integer milliseconds. Rate
//! multipliers, blend weights, input values and sampled ("anchor") values are
//! opaque scalar encodings chosen by the host (for instance the bit pattern
//! of its floating-point value): this crate only stores and routes them,
//! never computes with them.

use vstd::prelude::*;

verus! {

/// Identifier of a target entity in the host's store.
pub type Entity = u64;

/// Elapsed playback time, in milliseconds.
pub type Millis = u64;

/// Opaque scalar encoding (rate multiplier, blend weight, sampled value).
pub type Scalar = u64;

/// Identifier of a sampler asset.
pub type SamplerId = u64;

/// Identifier of an animation-definition asset.
pub type AnimationId = u64;

/// Identifier of an animation channel on the target component.
pub type ChannelId = u64;

/// Blend weight given to a freshly started sampler control. The host's
/// scalar encoding must denote full weight by this value.
pub const INITIAL_BLEND_WEIGHT: Scalar = 1;

/// State of one animation instance, mirrored per node by sampler controls.
#[derive(Debug, Clone, Copy, PartialEq, Eq, Structural)]
pub enum ControlState {
    /// Waiting for a start attempt (initial state of a fresh instance).
    Requested,
    /// Scheduled to start with the given elapsed slack already accumulated.
    Deferred(Millis),
    /// Playing, with the elapsed time shown.
    Running(Millis),
    /// Paused, with the elapsed time frozen.
    Paused(Millis),
    /// Terminating: per-node controls have been asked to stop.
    Abort,
    /// Finished; treated like `Abort` by every transition.
    Done,
}

impl ControlState {
    /// True of the two terminal states, which share every transition.
    pub open spec fn is_terminal(self) -> bool {
        self is Abort || self is Done
    }
}

/// Direction of a single-frame step through a running animation.
#[derive(Debug, Clone, Copy, PartialEq, Eq, Structural)]
pub enum StepDirection {
    Forward,
    Backward,
}

/// Weight assigned to one channel of one node while blending.
#[derive(Debug, Clone, Copy, PartialEq, Eq, Structural)]
pub struct BlendWeight {
    /// Node the weight applies to.
    pub node_index: usize,
    /// Channel of that node's component.
    pub channel: ChannelId,
    /// Opaque weight value.
    pub weight: Scalar,
}

/// Caller-facing intent attached to an animation instance.
///
/// `Step` and `SetInputValue` are one-shot: the driver downgrades them to
/// `Start` after one tick so they are not reapplied every frame.
#[derive(Debug, Clone, PartialEq, Eq)]
pub enum AnimationCommand {
    /// Start, resume, or keep the animation running.
    Start,
    /// Step one frame in the given direction (one-shot).
    Step(StepDirection),
    /// Force the animation input (elapsed time) to the given value (one-shot).
    SetInputValue(Millis),
    /// Set blend weights per `(node, channel)`.
    SetBlendWeights(Vec<BlendWeight>),
    /// Pause the animation.
    Pause,
    /// Abort the animation and reclaim its per-node controls.
    Abort,
}

impl AnimationCommand {
    /// True of the commands that apply for one tick and then revert to
    /// `Start`.
    pub open spec fn is_one_shot(self) -> bool {
        self is Step || self is SetInputValue
    }
}

/// What happens to a sampler when its animation reaches the end.
///
/// Carried through to the sampling layer; never interpreted here.
#[derive(Debug, Clone, Copy, PartialEq, Eq)]
pub enum EndControl {
    /// Loop the given number of times, or forever when `None`.
    Loop(Option<u32>),
    /// Play once, then report done.
    Normal,
    /// Play once, then hold the final value.
    Stay,
}

/// How a deferred instance relates to the instance it waits on.
#[derive(Debug, Clone, Copy, PartialEq, Eq, Structural)]
pub enum DeferStartRelation {
    /// Begin once the dependency has run for the given number of
    /// milliseconds, carrying the slack past that offset into the new
    /// instance's own elapsed time.
    Start(Millis),
    /// Begin once the dependency has ended.
    End,
}

} // verus!
