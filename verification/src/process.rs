//! The per-instance state machine: one step of one animation control
//! object, as driven once per tick.
//!
//! The whole transition relation is written down once, in
//! [`spec_process_post`], and both the hierarchy-resolving entry point and
//! the resolved worker are proved against it.

use vstd::prelude::*;

use crate::animation::{spec_only_one_index, Animation, AnimationNode, SamplerAssets};
use crate::control::AnimationControl;
use crate::hierarchy::{spec_targets_entity, AnimationHierarchy};
use crate::propagate::{
    check_and_terminate_animation, check_termination, pause_animation, reclaim_instance,
    set_animation_input, set_blend_weights, spec_all_terminated, spec_is_remove_sampler,
    spec_record_cleared, spec_record_propagated, spec_record_weighted, step_animation,
    unpause_animation, update_animation_rate, SamplerOp,
};
use crate::sampler::spec_clear_seq;
use crate::starter::{
    spec_anchor, spec_control_visible, spec_is_start_op, spec_new_control, spec_start_frame,
    spec_start_ok, spec_start_state, spec_start_valid, start_animation,
};
use crate::state::{AnimationCommand, ControlState, Entity, SamplerId};
use crate::world::{spec_unique_entities, EntityRecord, MutationBuffer, World, WorldMutation};
use crate::hierarchy::spec_node_entity;

verus! {

/// The node-to-entity mapping one step works with: the supplied hierarchy,
/// or the synthesized single-node mapping onto the owning entity.
pub open spec fn spec_resolved_nodes(
    h: Option<&AnimationHierarchy>,
    anim: Seq<AnimationNode>,
    entity: Entity,
) -> Seq<(usize, Entity)> {
    match h {
        Some(hh) => hh.nodes@,
        None => seq![(anim[0].node_index, entity)],
    }
}

/// The transition relation of one state-machine step.
///
/// Relates, over the resolved node mapping `nodes` and the definition
/// entries `anim`: the store before (`w0`) and after (`w1`), the mutation
/// buffer before (`b0`) and after (`b1`), the control object before (`c0`)
/// and after (`c1`), whether the instance is to be dropped (`remove1`,
/// starting from `false`), the runtime-id counter before (`id0`) and after
/// (`id1`), and the state `r` the step reports back (`None` leaves the
/// stored state unchanged).
pub open spec fn spec_process_post(
    nodes: Seq<(usize, Entity)>,
    anim: Seq<AnimationNode>,
    loaded: Seq<SamplerId>,
    w0: Seq<EntityRecord>,
    w1: Seq<EntityRecord>,
    b0: Seq<WorldMutation>,
    b1: Seq<WorldMutation>,
    c0: AnimationControl,
    c1: AnimationControl,
    remove1: bool,
    id0: u64,
    id1: u64,
    r: Option<ControlState>,
) -> bool {
    if c0.command is Abort || c0.state.is_terminal() {
        // two-phase shutdown: reclaim when every node acknowledged, else
        // signal abort and retry next tick
        &&& r == Some(ControlState::Abort)
        &&& c1 == c0
        &&& id1 == id0
        &&& remove1 == spec_all_terminated(w0, nodes, c0.id)
        &&& w1.len() == w0.len()
        &&& (remove1 ==> forall|i: int|
            0 <= i < w0.len() && spec_targets_entity(nodes, w0[i].entity)
                ==> spec_record_cleared(w0[i], #[trigger] w1[i], c0.id))
        &&& (!remove1 ==> forall|i: int|
            0 <= i < w0.len() && spec_targets_entity(nodes, w0[i].entity)
                ==> spec_record_propagated(w0[i], #[trigger] w1[i], c0.id, SamplerOp::Abort))
        &&& (forall|i: int|
            0 <= i < w0.len() && !spec_targets_entity(nodes, w0[i].entity) ==> #[trigger] w1[i]
                == w0[i])
        &&& b0.is_prefix_of(b1)
        &&& (!remove1 ==> b1 == b0)
        &&& (forall|j: int| b0.len() <= j < b1.len() ==> spec_is_remove_sampler(#[trigger] b1[j]))
        &&& (remove1 ==> forall|i: int|
            0 <= i < w0.len() && spec_targets_entity(nodes, (#[trigger] w0[i]).entity)
                && w0[i].samplers is Some && spec_clear_seq(w0[i].samplers->0.samplers@, c0.id).len()
                == 0 ==> exists|j: int|
                b0.len() <= j < b1.len() && b1[j] == (WorldMutation::RemoveSamplerSet {
                    entity: w0[i].entity,
                }))
    } else {
        match (c0.state, c0.command) {
            (ControlState::Requested, AnimationCommand::Start)
            | (ControlState::Deferred(_), AnimationCommand::Start) => {
                // assign a fresh runtime id and attempt the start; a
                // failure leaves the stored state for a retry next tick
                let c_started = AnimationControl { id: id0, ..c0 };
                let ok = spec_start_ok(anim, nodes, w0, loaded);
                &&& c1 == c_started
                &&& id1 == id0 + 1
                &&& remove1 == false
                &&& r == (if ok {
                    Some(ControlState::Running(0))
                } else {
                    Option::<ControlState>::None
                })
                &&& w1.len() == w0.len()
                &&& (forall|i: int| 0 <= i < w0.len() ==> spec_start_frame(w0[i], #[trigger] w1[i]))
                &&& b0.is_prefix_of(b1)
                &&& (forall|j: int| b0.len() <= j < b1.len() ==> spec_is_start_op(#[trigger] b1[j]))
                &&& (!spec_start_valid(anim, nodes, loaded) ==> w1 == w0 && b1 == b0)
                &&& (ok ==> forall|i: int, rr: int|
                    0 <= i < anim.len() && 0 <= rr < w0.len() && (#[trigger] w0[rr]).entity
                        == spec_node_entity(nodes, (#[trigger] anim[i]).node_index)->0
                        ==> spec_control_visible(
                        w1,
                        b1,
                        w0[rr].entity,
                        spec_new_control(
                            c_started,
                            anim[i],
                            spec_anchor(w0[rr])->0,
                            spec_start_state(c0.state),
                        ),
                    ))
            },
            (ControlState::Running(_), AnimationCommand::Pause) => {
                &&& r == Some(ControlState::Paused(0))
                &&& c1 == c0
                &&& id1 == id0
                &&& remove1 == false
                &&& b1 == b0
                &&& w1.len() == w0.len()
                &&& (forall|i: int|
                    0 <= i < w0.len() && spec_targets_entity(nodes, w0[i].entity)
                        ==> spec_record_propagated(w0[i], #[trigger] w1[i], c0.id, SamplerOp::Pause))
                &&& (forall|i: int|
                    0 <= i < w0.len() && !spec_targets_entity(nodes, w0[i].entity)
                        ==> #[trigger] w1[i] == w0[i])
            },
            (ControlState::Paused(_), AnimationCommand::Start) => {
                &&& r == Some(ControlState::Running(0))
                &&& c1 == c0
                &&& id1 == id0
                &&& remove1 == false
                &&& b1 == b0
                &&& w1.len() == w0.len()
                &&& (forall|i: int|
                    0 <= i < w0.len() && spec_targets_entity(nodes, w0[i].entity)
                        ==> spec_record_propagated(
                        w0[i],
                        #[trigger] w1[i],
                        c0.id,
                        SamplerOp::Unpause,
                    ))
                &&& (forall|i: int|
                    0 <= i < w0.len() && !spec_targets_entity(nodes, w0[i].entity)
                        ==> #[trigger] w1[i] == w0[i])
            },
            (ControlState::Running(_), AnimationCommand::Step(dir)) => {
                &&& r is None
                &&& c1 == c0
                &&& id1 == id0
                &&& remove1 == false
                &&& b1 == b0
                &&& w1.len() == w0.len()
                &&& (forall|i: int|
                    0 <= i < w0.len() && spec_targets_entity(nodes, w0[i].entity)
                        ==> spec_record_propagated(
                        w0[i],
                        #[trigger] w1[i],
                        c0.id,
                        SamplerOp::Step(dir),
                    ))
                &&& (forall|i: int|
                    0 <= i < w0.len() && !spec_targets_entity(nodes, w0[i].entity)
                        ==> #[trigger] w1[i] == w0[i])
            },
            (ControlState::Running(_), AnimationCommand::SetInputValue(input)) => {
                &&& r is None
                &&& c1 == c0
                &&& id1 == id0
                &&& remove1 == false
                &&& b1 == b0
                &&& w1.len() == w0.len()
                &&& (forall|i: int|
                    0 <= i < w0.len() && spec_targets_entity(nodes, w0[i].entity)
                        ==> spec_record_propagated(
                        w0[i],
                        #[trigger] w1[i],
                        c0.id,
                        SamplerOp::SetInput(input),
                    ))
                &&& (forall|i: int|
                    0 <= i < w0.len() && !spec_targets_entity(nodes, w0[i].entity)
                        ==> #[trigger] w1[i] == w0[i])
            },
            (ControlState::Running(_), AnimationCommand::SetBlendWeights(wts)) => {
                &&& r is None
                &&& c1 == c0
                &&& id1 == id0
                &&& remove1 == false
                &&& b1 == b0
                &&& w1.len() == w0.len()
                &&& (forall|i: int|
                    0 <= i < w0.len() ==> spec_record_weighted(
                        w0[i],
                        #[trigger] w1[i],
                        wts@,
                        nodes,
                        c0.id,
                    ))
            },
            (ControlState::Running(_), AnimationCommand::Start) => {
                // live instance: reclaim once every node reports done,
                // else fan the current rate multiplier out
                &&& r is None
                &&& c1 == c0
                &&& id1 == id0
                &&& remove1 == spec_all_terminated(w0, nodes, c0.id)
                &&& w1.len() == w0.len()
                &&& (remove1 ==> forall|i: int|
                    0 <= i < w0.len() && spec_targets_entity(nodes, w0[i].entity)
                        ==> spec_record_cleared(w0[i], #[trigger] w1[i], c0.id))
                &&& (!remove1 ==> forall|i: int|
                    0 <= i < w0.len() && spec_targets_entity(nodes, w0[i].entity)
                        ==> spec_record_propagated(
                        w0[i],
                        #[trigger] w1[i],
                        c0.id,
                        SamplerOp::SetRate(c0.rate_multiplier),
                    ))
                &&& (forall|i: int|
                    0 <= i < w0.len() && !spec_targets_entity(nodes, w0[i].entity)
                        ==> #[trigger] w1[i] == w0[i])
                &&& b0.is_prefix_of(b1)
                &&& (!remove1 ==> b1 == b0)
                &&& (forall|j: int|
                    b0.len() <= j < b1.len() ==> spec_is_remove_sampler(#[trigger] b1[j]))
                &&& (remove1 ==> forall|i: int|
                    0 <= i < w0.len() && spec_targets_entity(nodes, (#[trigger] w0[i]).entity)
                        && w0[i].samplers is Some && spec_clear_seq(
                        w0[i].samplers->0.samplers@,
                        c0.id,
                    ).len() == 0 ==> exists|j: int|
                        b0.len() <= j < b1.len() && b1[j] == (WorldMutation::RemoveSamplerSet {
                            entity: w0[i].entity,
                        }))
            },
            _ => {
                // every remaining pair is a no-op
                &&& r is None
                &&& c1 == c0
                &&& id1 == id0
                &&& remove1 == false
                &&& w1 == w0
                &&& b1 == b0
            },
        }
    }
}

/// One step of the state machine against an already-resolved hierarchy.
pub fn process_resolved(
    world: &mut World,
    animation: &Animation,
    control: &mut AnimationControl,
    hierarchy: &AnimationHierarchy,
    samplers: &SamplerAssets,
    buffer: &mut MutationBuffer,
    remove: &mut bool,
    next_id: &mut u64,
) -> (r: Option<ControlState>)
    requires
        spec_unique_entities(old(world).records@),
        *old(remove) == false,
        *old(next_id) < u64::MAX,
    ensures
        spec_process_post(
            hierarchy.nodes@,
            animation.nodes@,
            samplers.loaded@,
            old(world).records@,
            final(world).records@,
            old(buffer).ops@,
            final(buffer).ops@,
            *old(control),
            *final(control),
            *final(remove),
            *old(next_id),
            *final(next_id),
            r,
        ),
        final(world).records@.len() == old(world).records@.len(),
        forall|i: int|
            0 <= i < old(world).records@.len() ==> (#[trigger] final(world).records@[i]).entity
                == old(world).records@[i].entity,
        forall|i: int|
            0 <= i < old(world).records@.len() ==> (#[trigger] final(world).records@[i]).control_set
                == old(world).records@[i].control_set && final(world).records@[i].hierarchy == old(
                world,
            ).records@[i].hierarchy,
        forall|i: int|
            0 <= i < old(world).records@.len() ==> (#[trigger] final(world).records@[i]).has_target
                == old(world).records@[i].has_target && final(world).records@[i].live == old(
                world,
            ).records@[i].live,
{
    let terminal = match control.state {
        ControlState::Abort => true,
        ControlState::Done => true,
        _ => false,
    };
    let abort_cmd = match control.command {
        AnimationCommand::Abort => true,
        _ => false,
    };
    if abort_cmd || terminal {
        if check_and_terminate_animation(control.id, hierarchy, world, buffer) {
            *remove = true;
        }
        return Some(ControlState::Abort);
    }
    match control.state {
        ControlState::Requested | ControlState::Deferred(_) => {
            match control.command {
                AnimationCommand::Start => {
                    control.id = *next_id;
                    *next_id = *next_id + 1;
                    if start_animation(animation, samplers, control, world, buffer, hierarchy) {
                        Some(ControlState::Running(0))
                    } else {
                        None
                    }
                },
                _ => None,
            }
        },
        ControlState::Running(_) => {
            match &control.command {
                AnimationCommand::Pause => {
                    pause_animation(control.id, hierarchy, world);
                    Some(ControlState::Paused(0))
                },
                AnimationCommand::Step(dir) => {
                    let d = *dir;
                    step_animation(control.id, hierarchy, world, d);
                    None
                },
                AnimationCommand::SetInputValue(input) => {
                    let v = *input;
                    set_animation_input(control.id, hierarchy, world, v);
                    None
                },
                AnimationCommand::SetBlendWeights(weights) => {
                    set_blend_weights(control.id, hierarchy, world, weights);
                    None
                },
                AnimationCommand::Start => {
                    if check_termination(control.id, hierarchy, world) {
                        reclaim_instance(control.id, hierarchy, world, buffer);
                        *remove = true;
                    } else {
                        update_animation_rate(control.id, hierarchy, world, control.rate_multiplier);
                    }
                    None
                },
                AnimationCommand::Abort => None,
            }
        },
        ControlState::Paused(_) => {
            match control.command {
                AnimationCommand::Start => {
                    unpause_animation(control.id, hierarchy, world);
                    Some(ControlState::Running(0))
                },
                _ => None,
            }
        },
        _ => None,
    }
}

/// One step of the state machine for one control object.
///
/// Resolves the node mapping first: an explicit hierarchy when supplied,
/// else — for a definition touching a single node — the synthesized
/// one-entry mapping onto the owning entity. A multi-node definition
/// without a hierarchy is an invalid instance: it is flagged for removal
/// and nothing else happens, a per-instance failure that leaves every
/// other instance and entity alone.
pub fn process_animation_control(
    entity: Entity,
    world: &mut World,
    animation: &Animation,
    control: &mut AnimationControl,
    hierarchy: Option<&AnimationHierarchy>,
    samplers: &SamplerAssets,
    buffer: &mut MutationBuffer,
    remove: &mut bool,
    next_id: &mut u64,
) -> (r: Option<ControlState>)
    requires
        spec_unique_entities(old(world).records@),
        animation.wf(),
        *old(remove) == false,
        *old(next_id) < u64::MAX,
    ensures
        hierarchy is None && !spec_only_one_index(animation.nodes@) ==> r is None && *final(remove)
            && final(world).records@ == old(world).records@ && final(buffer).ops@ == old(
            buffer,
        ).ops@ && *final(control) == *old(control) && *final(next_id) == *old(next_id),
        !(hierarchy is None && !spec_only_one_index(animation.nodes@)) ==> spec_process_post(
            spec_resolved_nodes(hierarchy, animation.nodes@, entity),
            animation.nodes@,
            samplers.loaded@,
            old(world).records@,
            final(world).records@,
            old(buffer).ops@,
            final(buffer).ops@,
            *old(control),
            *final(control),
            *final(remove),
            *old(next_id),
            *final(next_id),
            r,
        ),
        final(world).records@.len() == old(world).records@.len(),
        forall|i: int|
            0 <= i < old(world).records@.len() ==> (#[trigger] final(world).records@[i]).entity
                == old(world).records@[i].entity,
        forall|i: int|
            0 <= i < old(world).records@.len() ==> (#[trigger] final(world).records@[i]).control_set
                == old(world).records@[i].control_set && final(world).records@[i].hierarchy == old(
                world,
            ).records@[i].hierarchy,
        forall|i: int|
            0 <= i < old(world).records@.len() ==> (#[trigger] final(world).records@[i]).has_target
                == old(world).records@[i].has_target && final(world).records@[i].live == old(
                world,
            ).records@[i].live,
{
    match hierarchy {
        Some(hh) => process_resolved(world, animation, control, hh, samplers, buffer, remove, next_id),
        None => {
            if animation.only_one_index() {
                let h_local = AnimationHierarchy::new_single(
                    animation.nodes[0].node_index,
                    entity,
                );
                process_resolved(
                    world,
                    animation,
                    control,
                    &h_local,
                    samplers,
                    buffer,
                    remove,
                    next_id,
                )
            } else {
                *remove = true;
                None
            }
        },
    }
}

} // verus!
