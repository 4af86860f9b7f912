//! Starting one animation instance: validation against the hierarchy and
//! the loaded sampler assets, capture of rest-state anchors, and creation
//! of the per-node sampler controls.

use vstd::prelude::*;

use crate::animation::{Animation, AnimationNode, SamplerAssets};
use crate::control::AnimationControl;
use crate::hierarchy::{spec_contains_node, spec_node_entity, AnimationHierarchy};
use crate::sampler::{SamplerControl, SamplerControlSet};
use crate::state::{ControlState, Entity, SamplerId, Scalar, INITIAL_BLEND_WEIGHT};
use crate::world::{spec_unique_entities, EntityRecord, MutationBuffer, World, WorldMutation};

verus! {

/// True when the hierarchy maps every node the definition references and
/// every referenced sampler asset is loaded. A failed start is retried next
/// tick, so assets still streaming in are tolerated.
pub open spec fn spec_start_valid(
    anim: Seq<AnimationNode>,
    nodes: Seq<(usize, Entity)>,
    loaded: Seq<SamplerId>,
) -> bool {
    forall|i: int|
        0 <= i < anim.len() ==> spec_contains_node(nodes, (#[trigger] anim[i]).node_index)
            && loaded.contains(anim[i].sampler)
}

/// The anchor ("after") value a start would capture on this record: the
/// rest-state snapshot when present, else the live component value, else
/// nothing — the entity cannot be animated.
pub open spec fn spec_anchor(r: EntityRecord) -> Option<Scalar> {
    match r.rest {
        Some(v) => Some(v),
        None => if r.has_target {
            Some(r.live)
        } else {
            None
        },
    }
}

/// True when every record of the entity (at most one in a well-formed
/// store) yields an anchor value.
pub open spec fn spec_entity_startable(records: Seq<EntityRecord>, e: Entity) -> bool {
    forall|r: int|
        0 <= r < records.len() && (#[trigger] records[r]).entity == e ==> spec_anchor(records[r])
            is Some
}

/// Exact success condition of a start attempt: the definition is valid
/// against hierarchy and loaded samplers, and every mapped target entity
/// present in the store yields an anchor value.
pub open spec fn spec_start_ok(
    anim: Seq<AnimationNode>,
    nodes: Seq<(usize, Entity)>,
    records: Seq<EntityRecord>,
    loaded: Seq<SamplerId>,
) -> bool {
    &&& spec_start_valid(anim, nodes, loaded)
    &&& forall|i: int|
        0 <= i < anim.len() ==> spec_entity_startable(
            records,
            spec_node_entity(nodes, (#[trigger] anim[i]).node_index)->0,
        )
}

/// The state freshly created sampler controls begin in: `Deferred` when the
/// instance was launched from the deferred queue, preserving the scheduled
/// slack down to the sampling layer, else `Requested`.
pub open spec fn spec_start_state(s: ControlState) -> ControlState {
    match s {
        ControlState::Deferred(d) => ControlState::Deferred(d),
        _ => ControlState::Requested,
    }
}

/// The sampler control a start materializes for one definition entry.
pub open spec fn spec_new_control(
    c: AnimationControl,
    entry: AnimationNode,
    anchor: Scalar,
    start_state: ControlState,
) -> SamplerControl {
    SamplerControl {
        control_id: c.id,
        channel: entry.channel,
        state: start_state,
        sampler: entry.sampler,
        end: c.end,
        after: anchor,
        rate_multiplier: c.rate_multiplier,
        blend_weight: INITIAL_BLEND_WEIGHT,
        pending_step: None,
    }
}

/// True when the control is visible for the entity: held in the entity's
/// sampler control set, or inside a buffered attach of a fresh set.
pub open spec fn spec_control_visible(
    records: Seq<EntityRecord>,
    buf: Seq<WorldMutation>,
    e: Entity,
    ctrl: SamplerControl,
) -> bool {
    ||| exists|r: int|
        0 <= r < records.len() && (#[trigger] records[r]).entity == e && records[r].samplers
            is Some && records[r].samplers->0.samplers@.contains(ctrl)
    ||| exists|j: int|
        #![trigger buf[j]]
        0 <= j < buf.len() && (buf[j] matches WorldMutation::AddSamplerSet { entity: be, set }
            && be == e && set.samplers@.contains(ctrl))
}

/// The buffered attaches that a list of pending fresh sets becomes once a
/// start attempt succeeds.
pub open spec fn spec_pending_ops(p: Seq<(Entity, SamplerControlSet)>) -> Seq<WorldMutation> {
    p.map_values(
        |x: (Entity, SamplerControlSet)| WorldMutation::AddSamplerSet { entity: x.0, set: x.1 },
    )
}

/// True of a buffered change a start may append: a rest-state capture or
/// the attach of a fresh sampler control set.
pub open spec fn spec_is_start_op(op: WorldMutation) -> bool {
    match op {
        WorldMutation::SetRest { .. } => true,
        WorldMutation::AddSamplerSet { .. } => true,
        _ => false,
    }
}

/// Frame of a start attempt on one record: everything but the sampler
/// control set is untouched, and an existing set only grows at the end.
pub open spec fn spec_start_frame(o: EntityRecord, n: EntityRecord) -> bool {
    &&& n.entity == o.entity
    &&& n.has_target == o.has_target
    &&& n.live == o.live
    &&& n.rest == o.rest
    &&& n.control_set == o.control_set
    &&& n.hierarchy == o.hierarchy
    &&& match (o.samplers, n.samplers) {
        (Some(os), Some(ns)) => os.samplers@.is_prefix_of(ns.samplers@),
        (None, None) => true,
        _ => false,
    }
}

/// Attempts to start one instance whose runtime id, rate multiplier and
/// end policy are already set on `control`.
///
/// Returns `true` exactly when the attempt succeeds; then every definition
/// entry has materialized, on each store record of its target entity, a
/// sampler control carrying that record's anchor value, the runtime id and
/// an initial blend weight — appended to the entity's existing set, or
/// inside a buffered attach of a fresh one (one attach per entity, shared
/// by all entries that map to it). Entities absent from the store are
/// skipped. On a validity failure nothing changes; a missing animated
/// component aborts the attempt midway — controls appended to existing
/// sets stay for the retry, pending fresh sets are discarded.
pub fn start_animation(
    animation: &Animation,
    samplers: &SamplerAssets,
    control: &AnimationControl,
    world: &mut World,
    buffer: &mut MutationBuffer,
    hierarchy: &AnimationHierarchy,
) -> (r: bool)
    requires
        spec_unique_entities(old(world).records@),
    ensures
        r == spec_start_ok(
            animation.nodes@,
            hierarchy.nodes@,
            old(world).records@,
            samplers.loaded@,
        ),
        final(world).records@.len() == old(world).records@.len(),
        forall|rr: int|
            0 <= rr < old(world).records@.len() ==> spec_start_frame(
                old(world).records@[rr],
                #[trigger] final(world).records@[rr],
            ),
        old(buffer).ops@.is_prefix_of(final(buffer).ops@),
        forall|j: int|
            old(buffer).ops@.len() <= j < final(buffer).ops@.len() ==> spec_is_start_op(
                #[trigger] final(buffer).ops@[j],
            ),
        !spec_start_valid(animation.nodes@, hierarchy.nodes@, samplers.loaded@)
            ==> final(world).records@ == old(world).records@ && final(buffer).ops@ == old(
            buffer,
        ).ops@,
        r ==> forall|i: int, rr: int|
            0 <= i < animation.nodes@.len() && 0 <= rr < old(world).records@.len()
                && (#[trigger] old(world).records@[rr]).entity == spec_node_entity(
                hierarchy.nodes@,
                (#[trigger] animation.nodes@[i]).node_index,
            )->0 ==> spec_control_visible(
                final(world).records@,
                final(buffer).ops@,
                old(world).records@[rr].entity,
                spec_new_control(
                    *control,
                    animation.nodes@[i],
                    spec_anchor(old(world).records@[rr])->0,
                    spec_start_state(control.state),
                ),
            ),
{
    let ghost anim = animation.nodes@;
    let ghost nodes = hierarchy.nodes@;
    let ghost orig = old(world).records@;
    let ghost buf0 = old(buffer).ops@;

    // validation: every node mapped, every sampler loaded
    let n = animation.nodes.len();
    let mut i: usize = 0;
    while i < n
        invariant
            i <= n,
            n == anim.len(),
            anim == animation.nodes@,
            nodes == hierarchy.nodes@,
            orig == old(world).records@,
            buf0 == old(buffer).ops@,
            hierarchy.nodes@ == nodes,
            world.records@ == orig,
            buffer.ops@ == buf0,
            forall|t: int|
                0 <= t < i ==> spec_contains_node(nodes, (#[trigger] anim[t]).node_index)
                    && samplers.loaded@.contains(anim[t].sampler),
        decreases n - i,
    {
        let entry = animation.nodes[i];
        if !hierarchy.contains_node(entry.node_index) || !samplers.is_loaded(entry.sampler) {
            return false;
        }
        i += 1;
    }
    assert(spec_start_valid(anim, nodes, samplers.loaded@));

    // rest-state capture: snapshot the live value of every mapped target
    // that has the component but no snapshot yet; applied after the pass
    let hn = hierarchy.nodes.len();
    let mut h: usize = 0;
    while h < hn
        invariant
            h <= hn,
            hn == hierarchy.nodes@.len(),
            nodes == hierarchy.nodes@,
            orig == old(world).records@,
            buf0 == old(buffer).ops@,
            world.records@ == orig,
            buf0.is_prefix_of(buffer.ops@),
            forall|j: int|
                buf0.len() <= j < buffer.ops@.len() ==> (#[trigger] buffer.ops@[j]) matches
                    WorldMutation::SetRest { .. },
        decreases hn - h,
    {
        let e = hierarchy.nodes[h].1;
        let pos = world.find(e);
        match pos {
            Some(p) => {
                if world.records[p].has_target && world.records[p].rest.is_none() {
                    let value = world.records[p].live;
                    buffer.ops.push(WorldMutation::SetRest { entity: e, value });
                }
            },
            None => {},
        }
        h += 1;
    }

    let start_state = match control.state {
        ControlState::Deferred(d) => ControlState::Deferred(d),
        _ => ControlState::Requested,
    };
    assert(start_state == spec_start_state(control.state));

    // materialize one sampler control per definition entry; fresh sets
    // for entities that have none yet accumulate locally and are buffered
    // only when the whole attempt succeeds, so every entry's control
    // survives the attach
    let mut fresh: Vec<(Entity, SamplerControlSet)> = Vec::new();
    let mut i2: usize = 0;
    while i2 < n
        invariant
            i2 <= n,
            n == anim.len(),
            anim == animation.nodes@,
            nodes == hierarchy.nodes@,
            orig == old(world).records@,
            buf0 == old(buffer).ops@,
            spec_start_valid(anim, nodes, samplers.loaded@),
            start_state == spec_start_state(control.state),
            world.records@.len() == orig.len(),
            spec_unique_entities(world.records@),
            forall|rr: int|
                0 <= rr < orig.len() ==> spec_start_frame(orig[rr], #[trigger] world.records@[rr]),
            buf0.is_prefix_of(buffer.ops@),
            forall|j: int|
                buf0.len() <= j < buffer.ops@.len() ==> spec_is_start_op(
                    #[trigger] buffer.ops@[j],
                ),
            forall|t: int|
                0 <= t < i2 ==> spec_entity_startable(
                    orig,
                    spec_node_entity(nodes, (#[trigger] anim[t]).node_index)->0,
                ),
            forall|t: int, rr: int|
                0 <= t < i2 && 0 <= rr < orig.len() && (#[trigger] orig[rr]).entity
                    == spec_node_entity(nodes, (#[trigger] anim[t]).node_index)->0
                    ==> spec_control_visible(
                    world.records@,
                    buffer.ops@ + spec_pending_ops(fresh@),
                    orig[rr].entity,
                    spec_new_control(
                        *control,
                        anim[t],
                        spec_anchor(orig[rr])->0,
                        spec_start_state(control.state),
                    ),
                ),
        decreases n - i2,
    {
        let entry = animation.nodes[i2];
        let eo = hierarchy.get(entry.node_index);
        let e: Entity = match eo {
            Some(e) => e,
            None => {
                proof {
                    assert(spec_contains_node(nodes, anim[i2 as int].node_index));
                    assert(false);
                }
                return false;
            },
        };
        let ghost pre = world.records@;
        let ghost prebuf = buffer.ops@ + spec_pending_ops(fresh@);
        let ghost prefresh = fresh@;
        let pos = world.find(e);
        match pos {
            Some(p) => {
                let anchor_opt: Option<Scalar> = match world.records[p].rest {
                    Some(v) => Some(v),
                    None => if world.records[p].has_target {
                        Some(world.records[p].live)
                    } else {
                        None
                    },
                };
                proof {
                    assert(spec_start_frame(orig[p as int], world.records@[p as int]));
                    assert(anchor_opt == spec_anchor(orig[p as int]));
                }
                let anchor = match anchor_opt {
                    Some(a) => a,
                    None => {
                        // the target entity cannot be animated: abort this
                        // attempt; controls appended to existing sets stay
                        // for the retry, unflushed fresh sets are discarded
                        proof {
                            assert(orig[p as int].entity == e);
                            assert(!spec_entity_startable(orig, e));
                            assert(spec_node_entity(nodes, anim[i2 as int].node_index) == Some(e));
                            assert(!spec_start_ok(anim, nodes, orig, samplers.loaded@));
                        }
                        return false;
                    },
                };
                let ctrl = SamplerControl {
                    control_id: control.id,
                    channel: entry.channel,
                    state: start_state,
                    sampler: entry.sampler,
                    end: control.end,
                    after: anchor,
                    rate_multiplier: control.rate_multiplier,
                    blend_weight: INITIAL_BLEND_WEIGHT,
                    pending_step: None,
                };
                proof {
                    assert(ctrl == spec_new_control(
                        *control,
                        anim[i2 as int],
                        spec_anchor(orig[p as int])->0,
                        spec_start_state(control.state),
                    ));
                }
                let mut touched_record = false;
                match &mut world.records[p].samplers {
                    Some(s) => {
                        s.add_control(ctrl);
                        touched_record = true;
                    },
                    None => {},
                }
                if !touched_record {
                    match fresh_find(&fresh, e) {
                        Some(q) => {
                            fresh[q].1.add_control(ctrl);
                            proof {
                                let cb = buffer.ops@ + spec_pending_ops(fresh@);
                                let jq = buffer.ops@.len() + q;
                                assert(fresh@[q as int].0 == e);
                                assert(spec_pending_ops(fresh@)[q as int]
                                    == (WorldMutation::AddSamplerSet {
                                    entity: e,
                                    set: fresh@[q as int].1,
                                }));
                                let ns = fresh@[q as int].1.samplers@;
                                assert(ns == prefresh[q as int].1.samplers@.push(ctrl));
                                assert(ns[ns.len() - 1] == ctrl);
                                assert(ns.contains(ctrl));
                                assert(cb[jq] == spec_pending_ops(fresh@)[q as int]);
                            }
                        },
                        None => {
                            let mut set = SamplerControlSet::new();
                            set.add_control(ctrl);
                            proof {
                                assert(set.samplers@ =~= seq![ctrl]);
                            }
                            fresh.push((e, set));
                            proof {
                                let cb = buffer.ops@ + spec_pending_ops(fresh@);
                                let jq = cb.len() - 1;
                                assert(fresh@.last() == (e, set));
                                assert(spec_pending_ops(fresh@).last()
                                    == (WorldMutation::AddSamplerSet { entity: e, set }));
                                assert(cb[jq] == spec_pending_ops(fresh@).last());
                                assert(set.samplers@[0] == ctrl);
                                assert(set.samplers@.contains(ctrl));
                            }
                        },
                    }
                }
                proof {
                    assert forall|rr: int|
                        0 <= rr < orig.len() && (#[trigger] orig[rr]).entity == e implies
                        spec_anchor(orig[rr]) is Some by {
                        assert(spec_start_frame(orig[rr], pre[rr]));
                        assert(pre[rr].entity == e);
                        assert(pre[p as int].entity == e);
                        assert(rr == p);
                    };
                    assert(spec_entity_startable(orig, e));
                    assert(forall|rr: int|
                        0 <= rr < pre.len() && rr != p ==> #[trigger] world.records@[rr]
                            == pre[rr]);
                    assert(spec_start_frame(pre[p as int], world.records@[p as int]));
                    if pre[p as int].samplers is Some {
                        let os = pre[p as int].samplers->0.samplers@;
                        let ns = world.records@[p as int].samplers->0.samplers@;
                        assert(ns == os.push(ctrl));
                        assert(ns[ns.len() - 1] == ctrl);
                        assert(ns.contains(ctrl));
                    }
                    assert(spec_control_visible(
                        world.records@,
                        buffer.ops@ + spec_pending_ops(fresh@),
                        e,
                        spec_new_control(
                            *control,
                            anim[i2 as int],
                            spec_anchor(orig[p as int])->0,
                            spec_start_state(control.state),
                        ),
                    ));
                }
            },
            None => {
                proof {
                    assert forall|rr: int|
                        0 <= rr < orig.len() && (#[trigger] orig[rr]).entity == e implies
                        spec_anchor(orig[rr]) is Some by {
                        assert(spec_start_frame(orig[rr], pre[rr]));
                        assert(pre[rr].entity != e);
                        assert(false);
                    };
                    assert(spec_entity_startable(orig, e));
                }
            },
        }
        proof {
            assert(spec_node_entity(nodes, anim[i2 as int].node_index)->0 == e);
            // visibility established earlier survives: record sets and
            // pending fresh sets only grow at the end, the buffer is
            // untouched here, and new pending ops only append
            assert forall|t: int, rr: int|
                0 <= t < i2 + 1 && 0 <= rr < orig.len() && (#[trigger] orig[rr]).entity
                    == spec_node_entity(nodes, (#[trigger] anim[t]).node_index)->0
                    implies spec_control_visible(
                world.records@,
                buffer.ops@ + spec_pending_ops(fresh@),
                orig[rr].entity,
                spec_new_control(
                    *control,
                    anim[t],
                    spec_anchor(orig[rr])->0,
                    spec_start_state(control.state),
                ),
            ) by {
                let cb = buffer.ops@ + spec_pending_ops(fresh@);
                let c = spec_new_control(
                    *control,
                    anim[t],
                    spec_anchor(orig[rr])->0,
                    spec_start_state(control.state),
                );
                if t == i2 {
                    assert(spec_node_entity(nodes, anim[t].node_index) == Some(e));
                    assert(orig[rr].entity == e);
                    assert(spec_start_frame(orig[rr], pre[rr]));
                    match pos {
                        Some(p0) => {
                            let p = p0 as int;
                            assert(pre[p].entity == e);
                            assert(pre[rr].entity == e);
                            assert(rr == p);
                        },
                        None => {
                            assert(pre[rr].entity != e);
                            assert(false);
                        },
                    }
                } else {
                    assert(spec_control_visible(pre, prebuf, orig[rr].entity, c));
                    if exists|r: int|
                        0 <= r < pre.len() && (#[trigger] pre[r]).entity == orig[rr].entity
                            && pre[r].samplers is Some && pre[r].samplers->0.samplers@.contains(c) {
                        let r0 = choose|r: int|
                            0 <= r < pre.len() && (#[trigger] pre[r]).entity == orig[rr].entity
                                && pre[r].samplers is Some && pre[r].samplers->0.samplers@.contains(
                                c,
                            );
                        assert(spec_start_frame(pre[r0], world.records@[r0]));
                        let os = pre[r0].samplers->0.samplers@;
                        let ns = world.records@[r0].samplers->0.samplers@;
                        assert(os.is_prefix_of(ns));
                        let ci = choose|q2: int| 0 <= q2 < os.len() && os[q2] == c;
                        assert(ns[ci] == c);
                        assert(ns.contains(c));
                    } else {
                        let j0 = choose|j: int|
                            #![trigger prebuf[j]]
                            0 <= j < prebuf.len() && (prebuf[j] matches
                                WorldMutation::AddSamplerSet { entity: be, set } && be
                                == orig[rr].entity && set.samplers@.contains(c));
                        if j0 < buffer.ops@.len() {
                            assert(cb[j0] == prebuf[j0]);
                        } else {
                            let q2 = j0 - buffer.ops@.len();
                            assert(prebuf[j0] == spec_pending_ops(prefresh)[q2]);
                            assert(spec_pending_ops(prefresh)[q2]
                                == (WorldMutation::AddSamplerSet {
                                entity: prefresh[q2].0,
                                set: prefresh[q2].1,
                            }));
                            assert(q2 < fresh@.len());
                            assert(fresh@[q2].0 == prefresh[q2].0);
                            assert(prefresh[q2].1.samplers@.is_prefix_of(fresh@[q2].1.samplers@));
                            let os = prefresh[q2].1.samplers@;
                            let ns = fresh@[q2].1.samplers@;
                            let ci = choose|q3: int| 0 <= q3 < os.len() && os[q3] == c;
                            assert(ns[ci] == c);
                            assert(ns.contains(c));
                            assert(cb[j0] == spec_pending_ops(fresh@)[q2]);
                        }
                    }
                }
            };
        }
        i2 += 1;
    }

    // flush the fresh sets: one buffered attach per entity
    let ghost wrecs = world.records@;
    let ghost combined_final = buffer.ops@ + spec_pending_ops(fresh@);
    while fresh.len() > 0
        invariant
            orig == old(world).records@,
            buf0 == old(buffer).ops@,
            world.records@ == wrecs,
            buffer.ops@ + spec_pending_ops(fresh@) == combined_final,
            buf0.is_prefix_of(buffer.ops@),
            forall|j: int|
                buf0.len() <= j < buffer.ops@.len() ==> spec_is_start_op(
                    #[trigger] buffer.ops@[j],
                ),
        decreases fresh@.len(),
    {
        proof {
            assert(spec_pending_ops(fresh@)[0] == (WorldMutation::AddSamplerSet {
                entity: fresh@[0].0,
                set: fresh@[0].1,
            }));
            assert(fresh@.remove(0) =~= fresh@.drop_first());
        }
        let ghost oldbuf = buffer.ops@;
        let ghost oldfresh = fresh@;
        let pair = fresh.remove(0);
        buffer.ops.push(WorldMutation::AddSamplerSet { entity: pair.0, set: pair.1 });
        proof {
            assert(spec_pending_ops(fresh@) =~= spec_pending_ops(oldfresh).drop_first());
            assert(buffer.ops@ + spec_pending_ops(fresh@) =~= oldbuf + spec_pending_ops(oldfresh));
        }
    }
    proof {
        assert(spec_pending_ops(fresh@).len() == 0);
        assert(buffer.ops@ =~= combined_final);
        assert(buffer.ops@ == combined_final);
        assert(spec_start_ok(anim, nodes, orig, samplers.loaded@));
    }
    true
}

/// Position of the attempt's pending fresh set for an entity, if one was
/// already created.
fn fresh_find(fresh: &Vec<(Entity, SamplerControlSet)>, e: Entity) -> (r: Option<usize>)
    ensures
        match r {
            Some(k) => k < fresh@.len() && fresh@[k as int].0 == e,
            None => true,
        },
{
    let n = fresh.len();
    let mut j: usize = 0;
    while j < n
        invariant
            j <= n,
            n == fresh@.len(),
        decreases n - j,
    {
        if fresh[j].0 == e {
            return Some(j);
        }
        j += 1;
    }
    None
}

} // verus!
