//! Laws of the control plane, stated and proved once over the transition
//! relation and the deferred-start rules, so that callers need not re-derive
//! them from the individual contracts.

use vstd::prelude::*;

use crate::animation::AnimationNode;
use crate::control::AnimationControl;
use crate::driver::spec_defer_eligibility;
use crate::hierarchy::{spec_node_entity, spec_targets_entity};
use crate::process::spec_process_post;
use crate::propagate::{spec_record_propagated, SamplerOp};
use crate::propagate::spec_apply_sampler_op;
use crate::starter::{
    spec_anchor, spec_control_visible, spec_new_control, spec_start_ok, spec_start_state,
};
use crate::state::{
    AnimationCommand, ControlState, DeferStartRelation, Entity, Millis, SamplerId,
};
use crate::world::{spec_apply_one, spec_apply_ops, EntityRecord, WorldMutation};

verus! {

/// Law: a `Requested` instance commanded to `Start` transitions to
/// `Running(0)` exactly when every referenced sampler is loaded and every
/// mapped target yields an anchor value; a sampler control carrying the
/// fresh runtime id is then visible on every mapped target record. On any
/// failure no new state is reported, so the instance remains `Requested`
/// and is retried next tick.
pub proof fn lemma_requested_start(
    nodes: Seq<(usize, Entity)>,
    anim: Seq<AnimationNode>,
    loaded: Seq<SamplerId>,
    w0: Seq<EntityRecord>,
    w1: Seq<EntityRecord>,
    b0: Seq<WorldMutation>,
    b1: Seq<WorldMutation>,
    c0: AnimationControl,
    c1: AnimationControl,
    remove1: bool,
    id0: u64,
    id1: u64,
    r: Option<ControlState>,
)
    requires
        c0.state == ControlState::Requested,
        c0.command == AnimationCommand::Start,
        spec_process_post(nodes, anim, loaded, w0, w1, b0, b1, c0, c1, remove1, id0, id1, r),
    ensures
        c1.id == id0,
        remove1 == false,
        spec_start_ok(anim, nodes, w0, loaded) ==> r == Some(ControlState::Running(0)),
        !spec_start_ok(anim, nodes, w0, loaded) ==> r is None,
        spec_start_ok(anim, nodes, w0, loaded) ==> forall|i: int, rr: int|
            0 <= i < anim.len() && 0 <= rr < w0.len() && (#[trigger] w0[rr]).entity
                == spec_node_entity(nodes, (#[trigger] anim[i]).node_index)->0
                ==> spec_control_visible(
                w1,
                b1,
                w0[rr].entity,
                spec_new_control(c1, anim[i], spec_anchor(w0[rr])->0, ControlState::Requested),
            ),
{
    assert(spec_start_state(c0.state) == ControlState::Requested);
}

/// Law: abort is terminal and idempotent. A step taken with an `Abort`
/// command (or from a terminal state) always reports `Abort` and never a
/// `Running` state; taking a further step from the stored `Abort` state
/// reports `Abort` again. The instance is flagged for removal exactly when
/// every per-node control reports done.
pub proof fn lemma_abort_idempotent_terminal(
    nodes: Seq<(usize, Entity)>,
    anim: Seq<AnimationNode>,
    loaded: Seq<SamplerId>,
    w0: Seq<EntityRecord>,
    w1: Seq<EntityRecord>,
    w2: Seq<EntityRecord>,
    b0: Seq<WorldMutation>,
    b1: Seq<WorldMutation>,
    b2: Seq<WorldMutation>,
    c0: AnimationControl,
    c1: AnimationControl,
    c2: AnimationControl,
    remove1: bool,
    remove2: bool,
    id0: u64,
    id1: u64,
    id2: u64,
    r1: Option<ControlState>,
    r2: Option<ControlState>,
)
    requires
        c0.command == AnimationCommand::Abort || c0.state.is_terminal(),
        spec_process_post(nodes, anim, loaded, w0, w1, b0, b1, c0, c1, remove1, id0, id1, r1),
        spec_process_post(
            nodes,
            anim,
            loaded,
            w1,
            w2,
            b1,
            b2,
            AnimationControl { state: ControlState::Abort, ..c1 },
            c2,
            remove2,
            id1,
            id2,
            r2,
        ),
    ensures
        r1 == Some(ControlState::Abort),
        r2 == Some(ControlState::Abort),
        forall|d: Millis| r1 != Some(ControlState::Running(d)) && r2 != Some(
            ControlState::Running(d),
        ),
        c1 == c0,
        c2 == (AnimationControl { state: ControlState::Abort, ..c0 }),
{
}

/// Law: a pause/start round trip returns a running instance to `Running`
/// without changing its runtime id, and without touching the identity or
/// the anchor ("after") value of any per-node sampler control; a control of
/// this instance that was running resumes at exactly the elapsed time it
/// was paused at.
pub proof fn lemma_pause_start_round_trip(
    nodes: Seq<(usize, Entity)>,
    anim: Seq<AnimationNode>,
    loaded: Seq<SamplerId>,
    w0: Seq<EntityRecord>,
    w1: Seq<EntityRecord>,
    w2: Seq<EntityRecord>,
    b0: Seq<WorldMutation>,
    b1: Seq<WorldMutation>,
    b2: Seq<WorldMutation>,
    c0: AnimationControl,
    c1: AnimationControl,
    c2: AnimationControl,
    remove1: bool,
    remove2: bool,
    id0: u64,
    id1: u64,
    id2: u64,
    r1: Option<ControlState>,
    r2: Option<ControlState>,
    elapsed: Millis,
)
    requires
        c0.state == ControlState::Running(elapsed),
        c0.command == AnimationCommand::Pause,
        spec_process_post(nodes, anim, loaded, w0, w1, b0, b1, c0, c1, remove1, id0, id1, r1),
        spec_process_post(
            nodes,
            anim,
            loaded,
            w1,
            w2,
            b1,
            b2,
            AnimationControl {
                state: ControlState::Paused(0),
                command: AnimationCommand::Start,
                ..c1
            },
            c2,
            remove2,
            id1,
            id2,
            r2,
        ),
    ensures
        r1 == Some(ControlState::Paused(0)),
        r2 == Some(ControlState::Running(0)),
        c2.id == c0.id,
        b2 == b0,
        w2.len() == w0.len(),
        forall|i: int|
            0 <= i < w0.len() && !spec_targets_entity(nodes, w0[i].entity) ==> #[trigger] w2[i]
                == w0[i],
        forall|i: int|
            0 <= i < w0.len() && spec_targets_entity(nodes, (#[trigger] w0[i]).entity) && w0[i].samplers
                is Some ==> w2[i].samplers is Some && w2[i].samplers->0.samplers@.len()
                == w0[i].samplers->0.samplers@.len(),
        forall|i: int, k: int|
            0 <= i < w0.len() && spec_targets_entity(nodes, (#[trigger] w0[i]).entity) && w0[i].samplers
                is Some && 0 <= k < w0[i].samplers->0.samplers@.len() ==> {
                let a = w0[i].samplers->0.samplers@[k];
                let b = #[trigger] w2[i].samplers->0.samplers@[k];
                &&& b.after == a.after
                &&& b.control_id == a.control_id
                &&& b.channel == a.channel
                &&& b.sampler == a.sampler
                &&& b.rate_multiplier == a.rate_multiplier
                &&& b.blend_weight == a.blend_weight
                &&& (a.control_id == c0.id && a.state is Running ==> b == a)
            },
{
    assert forall|i: int, k: int|
        0 <= i < w0.len() && spec_targets_entity(nodes, (#[trigger] w0[i]).entity) && w0[i].samplers
            is Some && 0 <= k < w0[i].samplers->0.samplers@.len() implies {
        let a = w0[i].samplers->0.samplers@[k];
        let b = #[trigger] w2[i].samplers->0.samplers@[k];
        &&& b.after == a.after
        &&& b.control_id == a.control_id
        &&& b.channel == a.channel
        &&& b.sampler == a.sampler
        &&& b.rate_multiplier == a.rate_multiplier
        &&& b.blend_weight == a.blend_weight
        &&& (a.control_id == c0.id && a.state is Running ==> b == a)
    } by {
        assert(spec_record_propagated(w0[i], w1[i], c0.id, SamplerOp::Pause));
        assert(spec_record_propagated(w1[i], w2[i], c0.id, SamplerOp::Unpause));
        let o = w0[i].samplers->0.samplers@;
        let m = w1[i].samplers->0.samplers@;
        let n = w2[i].samplers->0.samplers@;
        assert(m[k] == spec_apply_sampler_op(o[k], c0.id, SamplerOp::Pause));
        assert(n[k] == spec_apply_sampler_op(m[k], c0.id, SamplerOp::Unpause));
    };
}

/// Law: runtime ids assigned within one tick are pairwise distinct and
/// strictly increasing in assignment order. A step never lowers the
/// counter; a step that starts a requested or deferred instance assigns it
/// exactly the counter's current value and advances the counter past it —
/// so of any two instances started by the steps of one pass, the later
/// one's id is strictly greater, and neither collides with an id below the
/// counter the pass began with.
pub proof fn lemma_assigned_ids_fresh(
    nodes: Seq<(usize, Entity)>,
    anim: Seq<AnimationNode>,
    loaded: Seq<SamplerId>,
    w0: Seq<EntityRecord>,
    w1: Seq<EntityRecord>,
    b0: Seq<WorldMutation>,
    b1: Seq<WorldMutation>,
    c0: AnimationControl,
    c1: AnimationControl,
    remove1: bool,
    id0: u64,
    id1: u64,
    r: Option<ControlState>,
)
    requires
        spec_process_post(nodes, anim, loaded, w0, w1, b0, b1, c0, c1, remove1, id0, id1, r),
    ensures
        id1 >= id0,
        (c0.state is Requested || c0.state is Deferred) && c0.command is Start ==> c1.id == id0
            && id1 == id0 + 1,
        !((c0.state is Requested || c0.state is Deferred) && c0.command is Start
            && !c0.state.is_terminal() && !(c0.command is Abort)) ==> c1.id == c0.id && id1 == id0,
{
}

/// Law: the deferred-start rules. A dependency absent from the tick's
/// snapshot counts as already satisfied, so the instance starts at once
/// with zero slack — in particular an offset-zero entry behind a dependency
/// that itself started this tick (snapshot duration zero) starts with zero
/// slack. A running dependency releases the instance exactly when its
/// duration has reached the offset, with the slack past the offset carried
/// over, and holds it back otherwise; a dependency recorded as not running
/// always holds it back.
pub proof fn lemma_deferred_start_rules()
    ensures
        forall|rel: DeferStartRelation| #[trigger] spec_defer_eligibility(None, rel) == Some(0 as Millis),
        spec_defer_eligibility(Some(Some(0)), DeferStartRelation::Start(0)) == Some(0 as Millis),
        forall|d: Millis, off: Millis|
            d >= off ==> #[trigger] spec_defer_eligibility(
                Some(Some(d)),
                DeferStartRelation::Start(off),
            ) == Some((d - off) as Millis),
        forall|d: Millis, off: Millis|
            d < off ==> #[trigger] spec_defer_eligibility(
                Some(Some(d)),
                DeferStartRelation::Start(off),
            ) is None,
        forall|rel: DeferStartRelation| #[trigger] spec_defer_eligibility(Some(None), rel) is None,
{
}

/// True when no buffered change attaches a sampler control set to the
/// entity.
pub open spec fn spec_no_sampler_attach_for(ops: Seq<WorldMutation>, e: Entity) -> bool {
    forall|j: int|
        0 <= j < ops.len() ==> !((#[trigger] ops[j]) matches WorldMutation::AddSamplerSet {
            entity,
            ..
        } && entity == e)
}

/// A record without a sampler control set keeps none through changes that
/// never attach one to its entity.
proof fn lemma_no_attach_keeps_none(r: EntityRecord, ops: Seq<WorldMutation>)
    requires
        r.samplers is None,
        spec_no_sampler_attach_for(ops, r.entity),
    ensures
        spec_apply_ops(r, ops).samplers is None,
    decreases ops.len(),
{
    if ops.len() > 0 {
        assert(spec_apply_one(r, ops[0]).samplers is None);
        assert(spec_apply_one(r, ops[0]).entity == r.entity);
        assert forall|j: int|
            0 <= j < ops.drop_first().len() implies !((#[trigger] ops.drop_first()[j]) matches
            WorldMutation::AddSamplerSet { entity, .. } && entity == r.entity) by {
            assert(ops.drop_first()[j] == ops[j + 1]);
        };
        lemma_no_attach_keeps_none(spec_apply_one(r, ops[0]), ops.drop_first());
    }
}

/// Law: reclamation removes the whole component, not merely its contents.
/// Once the tick's buffered changes hold a detach of the entity's sampler
/// control set, and nothing after that change attaches a fresh one, the
/// entity ends the tick without the component — absent, not merely empty.
pub proof fn lemma_sampler_set_detached(r: EntityRecord, ops: Seq<WorldMutation>, k: int)
    requires
        0 <= k < ops.len(),
        ops[k] == (WorldMutation::RemoveSamplerSet { entity: r.entity }),
        spec_no_sampler_attach_for(ops.skip(k + 1), r.entity),
    ensures
        spec_apply_ops(r, ops).samplers is None,
    decreases k,
{
    if k == 0 {
        assert(spec_apply_one(r, ops[0]).samplers is None);
        assert(spec_apply_one(r, ops[0]).entity == r.entity);
        assert(ops.drop_first() =~= ops.skip(1));
        lemma_no_attach_keeps_none(spec_apply_one(r, ops[0]), ops.drop_first());
    } else {
        assert(spec_apply_one(r, ops[0]).entity == r.entity);
        assert(ops.drop_first()[k - 1] == ops[k]);
        assert(ops.drop_first().skip(k) =~= ops.skip(k + 1));
        lemma_sampler_set_detached(spec_apply_one(r, ops[0]), ops.drop_first(), k - 1);
    }
}

} // verus!
