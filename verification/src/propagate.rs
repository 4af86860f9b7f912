//! Fan-out of per-instance directives to every target entity's sampler
//! controls, the termination checker, and reclamation of finished controls.
//!
//! Each directive visits every entity named by the hierarchy and applies
//! one operation to its sampler control set; entities missing from the
//! store or missing the set are silently skipped (they have not yet
//! received a control, for instance mid-start).

use vstd::prelude::*;

use crate::hierarchy::{spec_node_entity, spec_targets_entity, AnimationHierarchy};
use crate::sampler::{
    seq_mapped, spec_abort_ctrl, spec_clear_seq, spec_pause_ctrl, spec_set_input_ctrl,
    spec_set_rate_ctrl, spec_set_weight_ctrl, spec_step_ctrl, spec_terminated, spec_unpause_ctrl,
    SamplerControl,
};
use crate::state::{BlendWeight, Entity, Millis, Scalar, StepDirection};
use crate::world::{spec_unique_entities, EntityRecord, MutationBuffer, World, WorldMutation};

verus! {

/// One directive fanned out to the sampler controls of a runtime id.
#[derive(Debug, Clone, Copy, PartialEq, Eq)]
pub enum SamplerOp {
    /// Freeze running controls at their elapsed time.
    Pause,
    /// Resume paused controls at their frozen elapsed time.
    Unpause,
    /// Ask every not-yet-done control to stop.
    Abort,
    /// Record a one-frame step directive on running controls.
    Step(StepDirection),
    /// Force the elapsed time of running controls.
    SetInput(Millis),
    /// Set the rate multiplier of every control.
    SetRate(Scalar),
}

/// One control after one directive.
pub open spec fn spec_apply_sampler_op(c: SamplerControl, id: u64, op: SamplerOp) -> SamplerControl {
    match op {
        SamplerOp::Pause => spec_pause_ctrl(c, id),
        SamplerOp::Unpause => spec_unpause_ctrl(c, id),
        SamplerOp::Abort => spec_abort_ctrl(c, id),
        SamplerOp::Step(dir) => spec_step_ctrl(c, id, dir),
        SamplerOp::SetInput(input) => spec_set_input_ctrl(c, id, input),
        SamplerOp::SetRate(rate) => spec_set_rate_ctrl(c, id, rate),
    }
}

/// Applying a directive twice is the same as applying it once.
pub proof fn lemma_sampler_op_idempotent(c: SamplerControl, id: u64, op: SamplerOp)
    ensures
        spec_apply_sampler_op(spec_apply_sampler_op(c, id, op), id, op) == spec_apply_sampler_op(
            c,
            id,
            op,
        ),
{
}

/// True when `b` is `a` with every component unchanged except the sampler
/// control set.
pub open spec fn spec_same_but_samplers(a: EntityRecord, b: EntityRecord) -> bool {
    &&& b.entity == a.entity
    &&& b.has_target == a.has_target
    &&& b.live == a.live
    &&& b.rest == a.rest
    &&& b.control_set == a.control_set
    &&& b.hierarchy == a.hierarchy
}

/// True when `new_r` is `old_r` with the directive applied to its sampler
/// controls: a record without the set is left alone.
pub open spec fn spec_record_propagated(
    old_r: EntityRecord,
    new_r: EntityRecord,
    id: u64,
    op: SamplerOp,
) -> bool {
    match (old_r.samplers, new_r.samplers) {
        (Some(o), Some(n)) => {
            &&& seq_mapped(o.samplers@, n.samplers@, |c: SamplerControl| spec_apply_sampler_op(c, id, op))
            &&& spec_same_but_samplers(old_r, new_r)
        },
        (None, None) => new_r == old_r,
        _ => false,
    }
}

/// Applies one directive to the sampler controls of the runtime id on every
/// entity the hierarchy targets; all other records are untouched.
pub fn propagate_sampler_op(
    control_id: u64,
    hierarchy: &AnimationHierarchy,
    world: &mut World,
    op: SamplerOp,
)
    requires
        spec_unique_entities(old(world).records@),
    ensures
        final(world).records@.len() == old(world).records@.len(),
        forall|r: int|
            0 <= r < old(world).records@.len() && spec_targets_entity(
                hierarchy.nodes@,
                old(world).records@[r].entity,
            ) ==> spec_record_propagated(
                old(world).records@[r],
                #[trigger] final(world).records@[r],
                control_id,
                op,
            ),
        forall|r: int|
            0 <= r < old(world).records@.len() && !spec_targets_entity(
                hierarchy.nodes@,
                old(world).records@[r].entity,
            ) ==> #[trigger] final(world).records@[r] == old(world).records@[r],
{
    let n = hierarchy.nodes.len();
    let mut k: usize = 0;
    while k < n
        invariant
            k <= n,
            n == hierarchy.nodes@.len(),
            world.records@.len() == old(world).records@.len(),
            forall|r: int|
                0 <= r < old(world).records@.len() ==> (#[trigger] world.records@[r]).entity == old(
                    world,
                ).records@[r].entity,
            spec_unique_entities(world.records@),
            forall|r: int|
                0 <= r < old(world).records@.len() && spec_targets_entity(
                    hierarchy.nodes@.take(k as int),
                    old(world).records@[r].entity,
                ) ==> spec_record_propagated(
                    old(world).records@[r],
                    #[trigger] world.records@[r],
                    control_id,
                    op,
                ),
            forall|r: int|
                0 <= r < old(world).records@.len() && !spec_targets_entity(
                    hierarchy.nodes@.take(k as int),
                    old(world).records@[r].entity,
                ) ==> #[trigger] world.records@[r] == old(world).records@[r],
        decreases n - k,
    {
        let e = hierarchy.nodes[k].1;
        let ghost pre = world.records@;
        let pos = world.find(e);
        match pos {
            Some(p) => {
                match &mut world.records[p].samplers {
                    Some(s) => {
                        match op {
                            SamplerOp::Pause => s.pause(control_id),
                            SamplerOp::Unpause => s.unpause(control_id),
                            SamplerOp::Abort => s.abort(control_id),
                            SamplerOp::Step(dir) => s.step(control_id, dir),
                            SamplerOp::SetInput(input) => s.set_input(control_id, input),
                            SamplerOp::SetRate(rate) => s.set_rate_multiplier(control_id, rate),
                        }
                    },
                    None => {},
                }
                proof {
                    assert(spec_record_propagated(pre[p as int], world.records@[p as int], control_id, op));
                    assert(forall|r: int|
                        0 <= r < pre.len() && r != p ==> #[trigger] world.records@[r] == pre[r]);
                }
            },
            None => {},
        }
        proof {
            let taken = hierarchy.nodes@.take(k as int);
            let taken1 = hierarchy.nodes@.take(k + 1);
            assert(taken1.drop_last() =~= taken);
            assert(taken1.last() == hierarchy.nodes@[k as int]);
            assert forall|r: int|
                0 <= r < old(world).records@.len() && spec_targets_entity(
                    taken1,
                    old(world).records@[r].entity,
                ) implies spec_record_propagated(
                old(world).records@[r],
                #[trigger] world.records@[r],
                control_id,
                op,
            ) by {
                let o = old(world).records@[r];
                if spec_targets_entity(taken, o.entity) {
                    // already propagated before this iteration; a second
                    // application of the directive changes nothing
                    if pre[r].entity == e {
                        assert forall|c: SamplerControl|
                            #[trigger] spec_apply_sampler_op(
                                spec_apply_sampler_op(c, control_id, op),
                                control_id,
                                op,
                            ) == spec_apply_sampler_op(c, control_id, op) by {
                            lemma_sampler_op_idempotent(c, control_id, op);
                        };
                        assert(spec_record_propagated(pre[r], world.records@[r], control_id, op));
                        assert(spec_record_propagated(o, pre[r], control_id, op));
                    } else {
                        assert(world.records@[r] == pre[r]);
                    }
                } else {
                    // first visit: the entity must be this iteration's node
                    assert(exists|t: int| 0 <= t < taken1.len() && taken1[t].1 == o.entity);
                    assert(o.entity == e);
                    assert(pre[r] == o);
                }
            };
            assert forall|r: int|
                0 <= r < old(world).records@.len() && !spec_targets_entity(
                    taken1,
                    old(world).records@[r].entity,
                ) implies #[trigger] world.records@[r] == old(world).records@[r] by {
                assert(!spec_targets_entity(taken, old(world).records@[r].entity));
                assert(old(world).records@[r].entity != e) by {
                    assert(taken1[k as int].1 == e);
                }
            };
        }
        k += 1;
    }
    proof {
        assert(hierarchy.nodes@.take(n as int) =~= hierarchy.nodes@);
    }
}

/// Freezes the instance's sampler controls on every target entity.
pub fn pause_animation(control_id: u64, hierarchy: &AnimationHierarchy, world: &mut World)
    requires
        spec_unique_entities(old(world).records@),
    ensures
        final(world).records@.len() == old(world).records@.len(),
        forall|r: int|
            0 <= r < old(world).records@.len() && spec_targets_entity(
                hierarchy.nodes@,
                old(world).records@[r].entity,
            ) ==> spec_record_propagated(
                old(world).records@[r],
                #[trigger] final(world).records@[r],
                control_id,
                SamplerOp::Pause,
            ),
        forall|r: int|
            0 <= r < old(world).records@.len() && !spec_targets_entity(
                hierarchy.nodes@,
                old(world).records@[r].entity,
            ) ==> #[trigger] final(world).records@[r] == old(world).records@[r],
{
    propagate_sampler_op(control_id, hierarchy, world, SamplerOp::Pause);
}

/// Resumes the instance's sampler controls on every target entity.
pub fn unpause_animation(control_id: u64, hierarchy: &AnimationHierarchy, world: &mut World)
    requires
        spec_unique_entities(old(world).records@),
    ensures
        final(world).records@.len() == old(world).records@.len(),
        forall|r: int|
            0 <= r < old(world).records@.len() && spec_targets_entity(
                hierarchy.nodes@,
                old(world).records@[r].entity,
            ) ==> spec_record_propagated(
                old(world).records@[r],
                #[trigger] final(world).records@[r],
                control_id,
                SamplerOp::Unpause,
            ),
        forall|r: int|
            0 <= r < old(world).records@.len() && !spec_targets_entity(
                hierarchy.nodes@,
                old(world).records@[r].entity,
            ) ==> #[trigger] final(world).records@[r] == old(world).records@[r],
{
    propagate_sampler_op(control_id, hierarchy, world, SamplerOp::Unpause);
}

/// Records a one-frame step directive on every target entity.
pub fn step_animation(
    control_id: u64,
    hierarchy: &AnimationHierarchy,
    world: &mut World,
    direction: StepDirection,
)
    requires
        spec_unique_entities(old(world).records@),
    ensures
        final(world).records@.len() == old(world).records@.len(),
        forall|r: int|
            0 <= r < old(world).records@.len() && spec_targets_entity(
                hierarchy.nodes@,
                old(world).records@[r].entity,
            ) ==> spec_record_propagated(
                old(world).records@[r],
                #[trigger] final(world).records@[r],
                control_id,
                SamplerOp::Step(direction),
            ),
        forall|r: int|
            0 <= r < old(world).records@.len() && !spec_targets_entity(
                hierarchy.nodes@,
                old(world).records@[r].entity,
            ) ==> #[trigger] final(world).records@[r] == old(world).records@[r],
{
    propagate_sampler_op(control_id, hierarchy, world, SamplerOp::Step(direction));
}

/// Forces the elapsed time of the instance's running sampler controls.
pub fn set_animation_input(
    control_id: u64,
    hierarchy: &AnimationHierarchy,
    world: &mut World,
    input: Millis,
)
    requires
        spec_unique_entities(old(world).records@),
    ensures
        final(world).records@.len() == old(world).records@.len(),
        forall|r: int|
            0 <= r < old(world).records@.len() && spec_targets_entity(
                hierarchy.nodes@,
                old(world).records@[r].entity,
            ) ==> spec_record_propagated(
                old(world).records@[r],
                #[trigger] final(world).records@[r],
                control_id,
                SamplerOp::SetInput(input),
            ),
        forall|r: int|
            0 <= r < old(world).records@.len() && !spec_targets_entity(
                hierarchy.nodes@,
                old(world).records@[r].entity,
            ) ==> #[trigger] final(world).records@[r] == old(world).records@[r],
{
    propagate_sampler_op(control_id, hierarchy, world, SamplerOp::SetInput(input));
}

/// Fans a changed rate multiplier out to every target entity.
pub fn update_animation_rate(
    control_id: u64,
    hierarchy: &AnimationHierarchy,
    world: &mut World,
    rate_multiplier: Scalar,
)
    requires
        spec_unique_entities(old(world).records@),
    ensures
        final(world).records@.len() == old(world).records@.len(),
        forall|r: int|
            0 <= r < old(world).records@.len() && spec_targets_entity(
                hierarchy.nodes@,
                old(world).records@[r].entity,
            ) ==> spec_record_propagated(
                old(world).records@[r],
                #[trigger] final(world).records@[r],
                control_id,
                SamplerOp::SetRate(rate_multiplier),
            ),
        forall|r: int|
            0 <= r < old(world).records@.len() && !spec_targets_entity(
                hierarchy.nodes@,
                old(world).records@[r].entity,
            ) ==> #[trigger] final(world).records@[r] == old(world).records@[r],
{
    propagate_sampler_op(control_id, hierarchy, world, SamplerOp::SetRate(rate_multiplier));
}

/// True when the instance reports done on the given entity: every sampler
/// control of the runtime id in the entity's set is done. An entity missing
/// from the store, or missing the set, has nothing left to reclaim and
/// counts as done.
pub open spec fn spec_record_terminated(records: Seq<EntityRecord>, e: Entity, id: u64) -> bool {
    forall|r: int|
        0 <= r < records.len() && (#[trigger] records[r]).entity == e ==> match records[r].samplers {
            Some(s) => spec_terminated(s.samplers@, id),
            None => true,
        }
}

/// True when every entity the hierarchy targets reports the runtime id as
/// done.
pub open spec fn spec_all_terminated(
    records: Seq<EntityRecord>,
    nodes: Seq<(usize, Entity)>,
    id: u64,
) -> bool {
    forall|k: int| 0 <= k < nodes.len() ==> spec_record_terminated(records, (#[trigger] nodes[k]).1, id)
}

/// Reports whether every target entity's sampler controls under the runtime
/// id are done. The check visits all nodes of the hierarchy; a partial
/// check is never conclusive. A node entity absent from the store, or
/// holding no sampler control set, counts as done by choice: it has
/// nothing left to reclaim, which is what lets an abort reclaim an
/// instance that never managed to start.
pub fn check_termination(control_id: u64, hierarchy: &AnimationHierarchy, world: &World) -> (r:
    bool)
    requires
        spec_unique_entities(world.records@),
    ensures
        r == spec_all_terminated(world.records@, hierarchy.nodes@, control_id),
{
    let n = hierarchy.nodes.len();
    let mut k: usize = 0;
    while k < n
        invariant
            k <= n,
            n == hierarchy.nodes@.len(),
            spec_unique_entities(world.records@),
            spec_all_terminated(world.records@, hierarchy.nodes@.take(k as int), control_id),
        decreases n - k,
    {
        proof {
            assert(hierarchy.nodes@.take(k + 1).drop_last() =~= hierarchy.nodes@.take(k as int));
            assert(hierarchy.nodes@.take(k + 1).last() == hierarchy.nodes@[k as int]);
        }
        let e = hierarchy.nodes[k].1;
        let pos = world.find(e);
        match pos {
            Some(p) => {
                match &world.records[p].samplers {
                    Some(s) => {
                        if !s.check_termination(control_id) {
                            return false;
                        }
                    },
                    None => {},
                }
            },
            None => {},
        }
        proof {
            assert(spec_record_terminated(world.records@, e, control_id));
        }
        k += 1;
    }
    proof {
        assert(hierarchy.nodes@.take(n as int) =~= hierarchy.nodes@);
    }
    true
}

/// One record's sampler controls after one blend-weight triple: when the
/// triple's node maps to this record's entity, the weight is set on the
/// id's control of that channel; otherwise nothing changes.
pub open spec fn spec_weight_once(
    s: Seq<SamplerControl>,
    w: BlendWeight,
    nodes: Seq<(usize, Entity)>,
    id: u64,
    e: Entity,
) -> Seq<SamplerControl> {
    if spec_node_entity(nodes, w.node_index) == Some(e) {
        s.map_values(|c: SamplerControl| spec_set_weight_ctrl(c, id, w.channel, w.weight))
    } else {
        s
    }
}

/// One record's sampler controls after a list of blend-weight triples,
/// first to last.
pub open spec fn spec_weights_seq(
    s: Seq<SamplerControl>,
    weights: Seq<BlendWeight>,
    nodes: Seq<(usize, Entity)>,
    id: u64,
    e: Entity,
) -> Seq<SamplerControl>
    decreases weights.len(),
{
    if weights.len() == 0 {
        s
    } else {
        spec_weights_seq(spec_weight_once(s, weights[0], nodes, id, e), weights.drop_first(), nodes, id, e)
    }
}

/// Appending one triple applies it after the others.
pub proof fn lemma_weights_seq_snoc(
    s: Seq<SamplerControl>,
    weights: Seq<BlendWeight>,
    w: BlendWeight,
    nodes: Seq<(usize, Entity)>,
    id: u64,
    e: Entity,
)
    ensures
        spec_weights_seq(s, weights.push(w), nodes, id, e) == spec_weight_once(
            spec_weights_seq(s, weights, nodes, id, e),
            w,
            nodes,
            id,
            e,
        ),
    decreases weights.len(),
{
    let p = weights.push(w);
    if weights.len() == 0 {
        assert(p[0] == w);
        assert(p.drop_first() =~= Seq::<BlendWeight>::empty());
        assert(spec_weights_seq(s, p, nodes, id, e) == spec_weights_seq(
            spec_weight_once(s, w, nodes, id, e),
            p.drop_first(),
            nodes,
            id,
            e,
        ));
    } else {
        assert(p[0] == weights[0]);
        assert(p.drop_first() =~= weights.drop_first().push(w));
        lemma_weights_seq_snoc(
            spec_weight_once(s, weights[0], nodes, id, e),
            weights.drop_first(),
            w,
            nodes,
            id,
            e,
        );
    }
}

/// True when `new_r` is `old_r` with the blend-weight triples applied to
/// its sampler controls; a record without the set is left alone. Records
/// whose entity no triple maps to are unchanged, since every step of the
/// fold is then the identity.
pub open spec fn spec_record_weighted(
    old_r: EntityRecord,
    new_r: EntityRecord,
    weights: Seq<BlendWeight>,
    nodes: Seq<(usize, Entity)>,
    id: u64,
) -> bool {
    match (old_r.samplers, new_r.samplers) {
        (Some(o), Some(n)) => {
            &&& n.samplers@ == spec_weights_seq(o.samplers@, weights, nodes, id, old_r.entity)
            &&& spec_same_but_samplers(old_r, new_r)
        },
        (None, None) => new_r == old_r,
        _ => false,
    }
}

/// Sets the blend weight of the instance's control per `(node, channel,
/// weight)` triple, each applied only to the entity its node maps to.
pub fn set_blend_weights(
    control_id: u64,
    hierarchy: &AnimationHierarchy,
    world: &mut World,
    weights: &Vec<BlendWeight>,
)
    requires
        spec_unique_entities(old(world).records@),
    ensures
        final(world).records@.len() == old(world).records@.len(),
        forall|r: int|
            0 <= r < old(world).records@.len() ==> spec_record_weighted(
                old(world).records@[r],
                #[trigger] final(world).records@[r],
                weights@,
                hierarchy.nodes@,
                control_id,
            ),
{
    let n = weights.len();
    let mut k: usize = 0;
    proof {
        assert forall|r: int| 0 <= r < old(world).records@.len() implies spec_record_weighted(
            old(world).records@[r],
            #[trigger] world.records@[r],
            weights@.take(0),
            hierarchy.nodes@,
            control_id,
        ) by {
            let o = old(world).records@[r];
            if o.samplers is Some {
                assert(spec_weights_seq(
                    o.samplers->0.samplers@,
                    weights@.take(0),
                    hierarchy.nodes@,
                    control_id,
                    o.entity,
                ) == o.samplers->0.samplers@);
            }
        };
    }
    while k < n
        invariant
            k <= n,
            n == weights@.len(),
            world.records@.len() == old(world).records@.len(),
            forall|r: int|
                0 <= r < old(world).records@.len() ==> (#[trigger] world.records@[r]).entity == old(
                    world,
                ).records@[r].entity,
            spec_unique_entities(world.records@),
            forall|r: int|
                0 <= r < old(world).records@.len() ==> spec_record_weighted(
                    old(world).records@[r],
                    #[trigger] world.records@[r],
                    weights@.take(k as int),
                    hierarchy.nodes@,
                    control_id,
                ),
        decreases n - k,
    {
        let w = weights[k];
        let ghost pre = world.records@;
        let eo = hierarchy.get(w.node_index);
        let pos = match eo {
            Some(e) => world.find(e),
            None => None,
        };
        match pos {
            Some(p) => {
                match &mut world.records[p].samplers {
                    Some(s) => {
                        s.set_blend_weight(control_id, w.channel, w.weight);
                    },
                    None => {},
                }
                proof {
                    if pre[p as int].samplers is Some {
                        let os = pre[p as int].samplers->0.samplers@;
                        let ns = world.records@[p as int].samplers->0.samplers@;
                        assert(ns =~= os.map_values(
                            |c: SamplerControl|
                                spec_set_weight_ctrl(c, control_id, w.channel, w.weight),
                        ));
                    }
                }
            },
            None => {},
        }
        proof {
            let nodes = hierarchy.nodes@;
            let taken = weights@.take(k as int);
            assert(weights@.take(k + 1) =~= taken.push(weights@[k as int]));
            assert forall|r: int|
                0 <= r < old(world).records@.len() implies spec_record_weighted(
                old(world).records@[r],
                #[trigger] world.records@[r],
                weights@.take(k + 1),
                nodes,
                control_id,
            ) by {
                let o = old(world).records@[r];
                let os = if o.samplers is Some {
                    o.samplers->0.samplers@
                } else {
                    Seq::empty()
                };
                let foldk = spec_weights_seq(os, taken, nodes, control_id, o.entity);
                lemma_weights_seq_snoc(os, taken, w, nodes, control_id, o.entity);
                assert(spec_record_weighted(o, pre[r], taken, nodes, control_id));
                assert(weights@[k as int] == w);
                match eo {
                    Some(e) => {
                        match pos {
                            Some(p0) => {
                                let p = p0 as int;
                                assert(pre[p].entity == e);
                                if r == p {
                                    assert(o.entity == e);
                                } else {
                                    assert(pre[r].entity != e);
                                    assert(o.entity != e);
                                    assert(spec_weight_once(foldk, w, nodes, control_id, o.entity)
                                        == foldk);
                                    assert(world.records@[r] == pre[r]);
                                }
                            },
                            None => {
                                assert(pre[r].entity != e);
                                assert(o.entity != e);
                                assert(spec_weight_once(foldk, w, nodes, control_id, o.entity)
                                    == foldk);
                                assert(world.records@[r] == pre[r]);
                            },
                        }
                    },
                    None => {
                        assert(spec_node_entity(nodes, w.node_index) is None);
                        assert(spec_weight_once(foldk, w, nodes, control_id, o.entity) == foldk);
                        assert(world.records@[r] == pre[r]);
                    },
                }
            };
        }
        k += 1;
    }
    proof {
        assert(weights@.take(n as int) =~= weights@);
    }
}

/// Nothing under the runtime id survives a clear.
pub proof fn lemma_clear_no_id(s: Seq<SamplerControl>, id: u64)
    ensures
        forall|i: int|
            0 <= i < spec_clear_seq(s, id).len() ==> (#[trigger] spec_clear_seq(s, id)[i]).control_id
                != id,
    decreases s.len(),
{
    if s.len() > 0 {
        lemma_clear_no_id(s.drop_last(), id);
    }
}

/// Clearing a sequence that holds nothing under the id leaves it as it is.
pub proof fn lemma_clear_noop(s: Seq<SamplerControl>, id: u64)
    requires
        forall|i: int| 0 <= i < s.len() ==> (#[trigger] s[i]).control_id != id,
    ensures
        spec_clear_seq(s, id) == s,
    decreases s.len(),
{
    if s.len() > 0 {
        lemma_clear_noop(s.drop_last(), id);
        assert(spec_clear_seq(s, id) =~= s);
    } else {
        assert(spec_clear_seq(s, id) =~= s);
    }
}

/// Clearing twice is the same as clearing once.
pub proof fn lemma_clear_idempotent(s: Seq<SamplerControl>, id: u64)
    ensures
        spec_clear_seq(spec_clear_seq(s, id), id) == spec_clear_seq(s, id),
{
    lemma_clear_no_id(s, id);
    lemma_clear_noop(spec_clear_seq(s, id), id);
}

/// True when `new_r` is `old_r` with every sampler control of the runtime
/// id removed; a record without the set is left alone.
pub open spec fn spec_record_cleared(old_r: EntityRecord, new_r: EntityRecord, id: u64) -> bool {
    match (old_r.samplers, new_r.samplers) {
        (Some(o), Some(n)) => {
            &&& n.samplers@ == spec_clear_seq(o.samplers@, id)
            &&& spec_same_but_samplers(old_r, new_r)
        },
        (None, None) => new_r == old_r,
        _ => false,
    }
}

/// True of a buffered change that detaches a sampler control set.
pub open spec fn spec_is_remove_sampler(op: WorldMutation) -> bool {
    match op {
        WorldMutation::RemoveSamplerSet { .. } => true,
        _ => false,
    }
}

/// Removes the instance's sampler controls from every target entity; a set
/// left empty has its detachment from the entity buffered, so the whole
/// component disappears from the store once the tick's changes apply.
pub fn reclaim_instance(
    control_id: u64,
    hierarchy: &AnimationHierarchy,
    world: &mut World,
    buffer: &mut MutationBuffer,
)
    requires
        spec_unique_entities(old(world).records@),
    ensures
        final(world).records@.len() == old(world).records@.len(),
        forall|r: int|
            0 <= r < old(world).records@.len() && spec_targets_entity(
                hierarchy.nodes@,
                old(world).records@[r].entity,
            ) ==> spec_record_cleared(
                old(world).records@[r],
                #[trigger] final(world).records@[r],
                control_id,
            ),
        forall|r: int|
            0 <= r < old(world).records@.len() && !spec_targets_entity(
                hierarchy.nodes@,
                old(world).records@[r].entity,
            ) ==> #[trigger] final(world).records@[r] == old(world).records@[r],
        old(buffer).ops@.is_prefix_of(final(buffer).ops@),
        forall|j: int|
            old(buffer).ops@.len() <= j < final(buffer).ops@.len() ==> spec_is_remove_sampler(
                #[trigger] final(buffer).ops@[j],
            ),
        forall|r: int|
            0 <= r < old(world).records@.len() && spec_targets_entity(
                hierarchy.nodes@,
                (#[trigger] old(world).records@[r]).entity,
            ) && old(world).records@[r].samplers is Some && spec_clear_seq(
                old(world).records@[r].samplers->0.samplers@,
                control_id,
            ).len() == 0 ==> exists|j: int|
                old(buffer).ops@.len() <= j < final(buffer).ops@.len() && final(buffer).ops@[j]
                    == (WorldMutation::RemoveSamplerSet { entity: old(world).records@[r].entity }),
{
    let ghost buf0 = buffer.ops@;
    let n = hierarchy.nodes.len();
    let mut k: usize = 0;
    while k < n
        invariant
            k <= n,
            n == hierarchy.nodes@.len(),
            world.records@.len() == old(world).records@.len(),
            forall|r: int|
                0 <= r < old(world).records@.len() ==> (#[trigger] world.records@[r]).entity == old(
                    world,
                ).records@[r].entity,
            spec_unique_entities(world.records@),
            forall|r: int|
                0 <= r < old(world).records@.len() && spec_targets_entity(
                    hierarchy.nodes@.take(k as int),
                    old(world).records@[r].entity,
                ) ==> spec_record_cleared(
                    old(world).records@[r],
                    #[trigger] world.records@[r],
                    control_id,
                ),
            forall|r: int|
                0 <= r < old(world).records@.len() && !spec_targets_entity(
                    hierarchy.nodes@.take(k as int),
                    old(world).records@[r].entity,
                ) ==> #[trigger] world.records@[r] == old(world).records@[r],
            buf0.is_prefix_of(buffer.ops@),
            forall|j: int|
                buf0.len() <= j < buffer.ops@.len() ==> spec_is_remove_sampler(
                    #[trigger] buffer.ops@[j],
                ),
            forall|r: int|
                0 <= r < old(world).records@.len() && spec_targets_entity(
                    hierarchy.nodes@.take(k as int),
                    (#[trigger] old(world).records@[r]).entity,
                ) && old(world).records@[r].samplers is Some && spec_clear_seq(
                    old(world).records@[r].samplers->0.samplers@,
                    control_id,
                ).len() == 0 ==> exists|j: int|
                    buf0.len() <= j < buffer.ops@.len() && buffer.ops@[j]
                        == (WorldMutation::RemoveSamplerSet {
                        entity: old(world).records@[r].entity,
                    }),
        decreases n - k,
    {
        let e = hierarchy.nodes[k].1;
        let ghost pre = world.records@;
        let ghost prebuf = buffer.ops@;
        let pos = world.find(e);
        match pos {
            Some(p) => {
                match &mut world.records[p].samplers {
                    Some(s) => {
                        s.clear(control_id);
                        if s.is_empty() {
                            buffer.ops.push(WorldMutation::RemoveSamplerSet { entity: e });
                        }
                    },
                    None => {},
                }
                proof {
                    assert(spec_record_cleared(pre[p as int], world.records@[p as int], control_id));
                    assert(forall|r: int|
                        0 <= r < pre.len() && r != p ==> #[trigger] world.records@[r] == pre[r]);
                }
            },
            None => {},
        }
        proof {
            let taken = hierarchy.nodes@.take(k as int);
            let taken1 = hierarchy.nodes@.take(k + 1);
            assert(taken1.drop_last() =~= taken);
            assert(taken1.last() == hierarchy.nodes@[k as int]);
            assert forall|r: int|
                0 <= r < old(world).records@.len() && spec_targets_entity(
                    taken1,
                    old(world).records@[r].entity,
                ) implies spec_record_cleared(
                old(world).records@[r],
                #[trigger] world.records@[r],
                control_id,
            ) by {
                let o = old(world).records@[r];
                if spec_targets_entity(taken, o.entity) {
                    if pre[r].entity == e {
                        if o.samplers is Some {
                            lemma_clear_idempotent(o.samplers->0.samplers@, control_id);
                        }
                        assert(spec_record_cleared(pre[r], world.records@[r], control_id));
                        assert(spec_record_cleared(o, pre[r], control_id));
                    } else {
                        assert(world.records@[r] == pre[r]);
                    }
                } else {
                    assert(exists|t: int| 0 <= t < taken1.len() && taken1[t].1 == o.entity);
                    assert(o.entity == e);
                    assert(pre[r] == o);
                }
            };
            assert forall|r: int|
                0 <= r < old(world).records@.len() && !spec_targets_entity(
                    taken1,
                    old(world).records@[r].entity,
                ) implies #[trigger] world.records@[r] == old(world).records@[r] by {
                assert(!spec_targets_entity(taken, old(world).records@[r].entity));
                assert(old(world).records@[r].entity != e) by {
                    assert(taken1[k as int].1 == e);
                }
            };
            assert forall|r: int|
                0 <= r < old(world).records@.len() && spec_targets_entity(
                    taken1,
                    (#[trigger] old(world).records@[r]).entity,
                ) && old(world).records@[r].samplers is Some && spec_clear_seq(
                    old(world).records@[r].samplers->0.samplers@,
                    control_id,
                ).len() == 0 implies exists|j: int|
                buf0.len() <= j < buffer.ops@.len() && buffer.ops@[j]
                    == (WorldMutation::RemoveSamplerSet {
                    entity: old(world).records@[r].entity,
                }) by {
                let o = old(world).records@[r];
                if spec_targets_entity(taken, o.entity) {
                    let j0 = choose|j: int|
                        buf0.len() <= j < prebuf.len() && prebuf[j]
                            == (WorldMutation::RemoveSamplerSet { entity: o.entity });
                    assert(buffer.ops@[j0] == (WorldMutation::RemoveSamplerSet {
                        entity: o.entity,
                    }));
                } else {
                    assert(taken1[k as int].1 == e);
                    assert(o.entity == e);
                    assert(pre[r] == o);
                    assert(buffer.ops@.last() == (WorldMutation::RemoveSamplerSet {
                        entity: o.entity,
                    }));
                }
            };
        }
        k += 1;
    }
    proof {
        assert(hierarchy.nodes@.take(n as int) =~= hierarchy.nodes@);
    }
}

/// Two-phase shutdown of one instance: when every target entity already
/// reports the runtime id as done, its controls are reclaimed and `true`
/// comes back so the caller can drop the instance; otherwise an abort is
/// propagated so the sampling layer can acknowledge, and the reclaim is
/// retried next tick.
pub fn check_and_terminate_animation(
    control_id: u64,
    hierarchy: &AnimationHierarchy,
    world: &mut World,
    buffer: &mut MutationBuffer,
) -> (r: bool)
    requires
        spec_unique_entities(old(world).records@),
    ensures
        r == spec_all_terminated(old(world).records@, hierarchy.nodes@, control_id),
        final(world).records@.len() == old(world).records@.len(),
        r ==> forall|i: int|
            0 <= i < old(world).records@.len() && spec_targets_entity(
                hierarchy.nodes@,
                old(world).records@[i].entity,
            ) ==> spec_record_cleared(
                old(world).records@[i],
                #[trigger] final(world).records@[i],
                control_id,
            ),
        !r ==> forall|i: int|
            0 <= i < old(world).records@.len() && spec_targets_entity(
                hierarchy.nodes@,
                old(world).records@[i].entity,
            ) ==> spec_record_propagated(
                old(world).records@[i],
                #[trigger] final(world).records@[i],
                control_id,
                SamplerOp::Abort,
            ),
        forall|i: int|
            0 <= i < old(world).records@.len() && !spec_targets_entity(
                hierarchy.nodes@,
                old(world).records@[i].entity,
            ) ==> #[trigger] final(world).records@[i] == old(world).records@[i],
        old(buffer).ops@.is_prefix_of(final(buffer).ops@),
        forall|j: int|
            old(buffer).ops@.len() <= j < final(buffer).ops@.len() ==> spec_is_remove_sampler(
                #[trigger] final(buffer).ops@[j],
            ),
        !r ==> final(buffer).ops@ == old(buffer).ops@,
        r ==> forall|i: int|
            0 <= i < old(world).records@.len() && spec_targets_entity(
                hierarchy.nodes@,
                (#[trigger] old(world).records@[i]).entity,
            ) && old(world).records@[i].samplers is Some && spec_clear_seq(
                old(world).records@[i].samplers->0.samplers@,
                control_id,
            ).len() == 0 ==> exists|j: int|
                old(buffer).ops@.len() <= j < final(buffer).ops@.len() && final(buffer).ops@[j]
                    == (WorldMutation::RemoveSamplerSet { entity: old(world).records@[i].entity }),
{
    if check_termination(control_id, hierarchy, world) {
        reclaim_instance(control_id, hierarchy, world, buffer);
        true
    } else {
        propagate_sampler_op(control_id, hierarchy, world, SamplerOp::Abort);
        false
    }
}

} // verus!
