//! The per-tick driver: advances every animation instance of every entity,
//! promotes deferred instances whose dependency has run far enough, drops
//! completed instances, and applies the tick's buffered structural changes
//! once the pass is over.

use core::mem;

use vstd::prelude::*;

use crate::animation::{spec_only_one_index, spec_storage_lookup, AnimationNode, AnimationStorage, SamplerAssets};
use crate::control::{AnimationControl, AnimationControlSet, DeferredAnimation};
use crate::hierarchy::AnimationHierarchy;
use crate::process::{process_animation_control, spec_process_post, spec_resolved_nodes};
use crate::sampler::{spec_has_control, spec_max_running, SamplerControlSet};
use crate::state::{AnimationCommand, ControlState, DeferStartRelation, Entity, Millis, SamplerId};
use crate::world::{
    apply_mutations, spec_apply_one, spec_apply_ops, spec_record_of, spec_unique_entities,
    EntityRecord, MutationBuffer, World, WorldMutation,
};

verus! {

/// Elapsed running time that one entity's sampler controls report for a
/// runtime id: the largest elapsed time among the id's running controls,
/// and zero when the entity holds no set or no control under the id.
pub fn find_max_duration(control_id: u64, samplers: Option<&SamplerControlSet>) -> (r: Millis)
    ensures
        r == (match samplers {
            Some(s) => if spec_has_control(s.samplers@, control_id) {
                spec_max_running(s.samplers@, control_id)
            } else {
                0
            },
            None => 0,
        }),
{
    match samplers {
        Some(s) => {
            match s.get_running_duration(control_id) {
                Some(d) => d,
                None => 0,
            }
        },
        None => 0,
    }
}

/// First entry of the tick's duration snapshot under the given logical id:
/// `None` when the id was not recorded, `Some(None)` when its instance is
/// not running, `Some(Some(d))` when it has run for `d` milliseconds.
pub open spec fn spec_state_lookup(s: Seq<(u64, Option<Millis>)>, id: u64) -> Option<
    Option<Millis>,
>
    decreases s.len(),
{
    if s.len() == 0 {
        None
    } else if s[0].0 == id {
        Some(s[0].1)
    } else {
        spec_state_lookup(s.drop_first(), id)
    }
}

/// Whether a deferred instance may start, given its dependency's entry in
/// the tick's duration snapshot, and with how much elapsed slack.
///
/// A dependency absent from the snapshot has already finished (or never
/// existed) and counts as satisfied: the instance starts with zero slack. A
/// dependency recorded as not running holds the instance back. A running
/// dependency releases the instance once its duration reaches the offset,
/// and the slack past the offset is carried into the new instance.
pub open spec fn spec_defer_eligibility(
    entry: Option<Option<Millis>>,
    relation: DeferStartRelation,
) -> Option<Millis> {
    match entry {
        None => Some(0),
        Some(None) => None,
        Some(Some(dur)) => match relation {
            DeferStartRelation::Start(offset) => if dur >= offset {
                Some((dur - offset) as Millis)
            } else {
                None
            },
            DeferStartRelation::End => None,
        },
    }
}

/// A command after the driver's end-of-step downgrade: the one-shot
/// `Step` and `SetInputValue` revert to `Start`, every other command is
/// left alone.
pub open spec fn spec_downgrade(c: AnimationControl) -> AnimationControl {
    if c.command.is_one_shot() {
        AnimationControl { command: AnimationCommand::Start, ..c }
    } else {
        c
    }
}

/// A control after the driver stores the state a step reported; `None`
/// leaves the stored state unchanged.
pub open spec fn spec_stored(c: AnimationControl, r: Option<ControlState>) -> AnimationControl {
    match r {
        Some(s) => AnimationControl { state: s, ..c },
        None => c,
    }
}

/// The node mapping a step resolves, from an owned optional hierarchy.
pub open spec fn spec_nodes_of(
    h: Option<AnimationHierarchy>,
    anim: Seq<AnimationNode>,
    entity: Entity,
) -> Seq<(usize, Entity)> {
    match h {
        Some(hh) => hh.nodes@,
        None => seq![(anim[0].node_index, entity)],
    }
}

/// The entity whose sampler controls report an instance's running
/// duration: the first hierarchy node's target, or the owning entity when
/// no hierarchy is held.
pub open spec fn spec_probe_entity(h: Option<AnimationHierarchy>, entity: Entity) -> Entity {
    match h {
        Some(hh) => if hh.nodes@.len() > 0 {
            hh.nodes@[0].1
        } else {
            entity
        },
        None => entity,
    }
}

/// The running duration the probe entity reports for a runtime id; zero
/// when the entity, its set or the id's controls are missing.
pub open spec fn spec_probe_duration(w: Seq<EntityRecord>, e: Entity, id: u64) -> Millis {
    match spec_record_of(w, e) {
        Some(rec) => match rec.samplers {
            Some(s) => if spec_has_control(s.samplers@, id) {
                spec_max_running(s.samplers@, id)
            } else {
                0
            },
            None => 0,
        },
        None => 0,
    }
}

/// The duration-snapshot entry recorded for one surviving instance:
/// `Some(probed duration)` when it is running, `None` otherwise.
pub open spec fn spec_duration_entry(
    w: Seq<EntityRecord>,
    h: Option<AnimationHierarchy>,
    entity: Entity,
    c: AnimationControl,
) -> Option<Millis> {
    match c.state {
        ControlState::Running(_) => Some(spec_probe_duration(w, spec_probe_entity(h, entity), c.id)),
        _ => None,
    }
}

/// One instance advanced by the driver: the stored definition is looked
/// up; if it is loaded and the id counter has headroom, the state machine
/// steps the instance — a multi-node definition without a hierarchy drops
/// it — and the reported state is stored; in every case the one-shot
/// command downgrade is applied last. An instance whose definition is not
/// loaded, or that meets an exhausted counter, is left for a later tick.
pub open spec fn spec_instance_step(
    entity: Entity,
    storage: AnimationStorage,
    loaded: Seq<SamplerId>,
    h: Option<AnimationHierarchy>,
    c0: AnimationControl,
    w0: Seq<EntityRecord>,
    w1: Seq<EntityRecord>,
    b0: Seq<WorldMutation>,
    b1: Seq<WorldMutation>,
    n0: u64,
    n1: u64,
    c1: AnimationControl,
    removed: bool,
) -> bool {
    let looked = spec_storage_lookup(storage.animations@, c0.animation);
    if looked is Some && n0 < u64::MAX {
        let anim = looked->0;
        if h is None && !spec_only_one_index(anim.nodes@) {
            &&& c1 == spec_downgrade(c0)
            &&& removed == true
            &&& w1 == w0
            &&& b1 == b0
            &&& n1 == n0
        } else {
            exists|r: Option<ControlState>, cp: AnimationControl|
                #![trigger spec_process_post(
                    spec_nodes_of(h, anim.nodes@, entity),
                    anim.nodes@,
                    loaded,
                    w0,
                    w1,
                    b0,
                    b1,
                    c0,
                    cp,
                    removed,
                    n0,
                    n1,
                    r,
                )]
                spec_process_post(
                    spec_nodes_of(h, anim.nodes@, entity),
                    anim.nodes@,
                    loaded,
                    w0,
                    w1,
                    b0,
                    b1,
                    c0,
                    cp,
                    removed,
                    n0,
                    n1,
                    r,
                ) && c1 == spec_downgrade(spec_stored(cp, r))
        }
    } else {
        c1 == spec_downgrade(c0) && !removed && w1 == w0 && b1 == b0 && n1 == n0
    }
}

/// The active instances of one set advanced in order: `kept` are the
/// surviving instances under their logical ids with their stepped,
/// downgraded controls; instances flagged for removal are absent from
/// `kept`; `snap` holds one duration-snapshot entry per survivor, in order.
pub open spec fn spec_instances_advanced(
    entity: Entity,
    storage: AnimationStorage,
    loaded: Seq<SamplerId>,
    h: Option<AnimationHierarchy>,
    pending: Seq<(u64, AnimationControl)>,
    kept: Seq<(u64, AnimationControl)>,
    snap: Seq<(u64, Option<Millis>)>,
    w0: Seq<EntityRecord>,
    w1: Seq<EntityRecord>,
    b0: Seq<WorldMutation>,
    b1: Seq<WorldMutation>,
    n0: u64,
    n1: u64,
) -> bool
    decreases pending.len(),
{
    if pending.len() == 0 {
        kept.len() == 0 && snap.len() == 0 && w1 == w0 && b1 == b0 && n1 == n0
    } else {
        exists|
            c1: AnimationControl,
            removed: bool,
            wm: Seq<EntityRecord>,
            bm: Seq<WorldMutation>,
            nm: u64,
        |
            #![auto]
            spec_instance_step(
                entity,
                storage,
                loaded,
                h,
                pending[0].1,
                w0,
                wm,
                b0,
                bm,
                n0,
                nm,
                c1,
                removed,
            ) && if removed {
                spec_instances_advanced(
                    entity,
                    storage,
                    loaded,
                    h,
                    pending.drop_first(),
                    kept,
                    snap,
                    wm,
                    w1,
                    bm,
                    b1,
                    nm,
                    n1,
                )
            } else {
                kept.len() > 0 && kept[0] == (pending[0].0, c1) && snap.len() > 0 && snap[0] == (
                    pending[0].0,
                    spec_duration_entry(wm, h, entity, c1),
                ) && spec_instances_advanced(
                    entity,
                    storage,
                    loaded,
                    h,
                    pending.drop_first(),
                    kept.drop_first(),
                    snap.drop_first(),
                    wm,
                    w1,
                    bm,
                    b1,
                    nm,
                    n1,
                )
            }
    }
}

/// Advancing one more instance extends the chain at its end.
pub proof fn lemma_instances_advanced_snoc(
    entity: Entity,
    storage: AnimationStorage,
    loaded: Seq<SamplerId>,
    h: Option<AnimationHierarchy>,
    pending: Seq<(u64, AnimationControl)>,
    entry: (u64, AnimationControl),
    kept: Seq<(u64, AnimationControl)>,
    snap: Seq<(u64, Option<Millis>)>,
    w0: Seq<EntityRecord>,
    w1: Seq<EntityRecord>,
    w2: Seq<EntityRecord>,
    b0: Seq<WorldMutation>,
    b1: Seq<WorldMutation>,
    b2: Seq<WorldMutation>,
    n0: u64,
    n1: u64,
    n2: u64,
    c1: AnimationControl,
    removed: bool,
)
    requires
        spec_instances_advanced(
            entity,
            storage,
            loaded,
            h,
            pending,
            kept,
            snap,
            w0,
            w1,
            b0,
            b1,
            n0,
            n1,
        ),
        spec_instance_step(entity, storage, loaded, h, entry.1, w1, w2, b1, b2, n1, n2, c1, removed),
    ensures
        removed ==> spec_instances_advanced(
            entity,
            storage,
            loaded,
            h,
            pending.push(entry),
            kept,
            snap,
            w0,
            w2,
            b0,
            b2,
            n0,
            n2,
        ),
        !removed ==> spec_instances_advanced(
            entity,
            storage,
            loaded,
            h,
            pending.push(entry),
            kept.push((entry.0, c1)),
            snap.push((entry.0, spec_duration_entry(w2, h, entity, c1))),
            w0,
            w2,
            b0,
            b2,
            n0,
            n2,
        ),
    decreases pending.len(),
{
    let p = pending.push(entry);
    let kept1 = kept.push((entry.0, c1));
    let snap1 = snap.push((entry.0, spec_duration_entry(w2, h, entity, c1)));
    if pending.len() == 0 {
        assert(p[0] == entry);
        assert(p.drop_first() =~= Seq::<(u64, AnimationControl)>::empty());
        assert(kept.len() == 0 && snap.len() == 0 && w1 == w0 && b1 == b0 && n1 == n0);
        if removed {
            assert(spec_instances_advanced(
                entity, storage, loaded, h, p.drop_first(), kept, snap, w2, w2, b2, b2, n2, n2,
            ));
            assert(spec_instance_step(
                entity, storage, loaded, h, p[0].1, w0, w2, b0, b2, n0, n2, c1, removed,
            ));
            assert(spec_instances_advanced(
                entity, storage, loaded, h, p, kept, snap, w0, w2, b0, b2, n0, n2,
            ));
        } else {
            assert(kept1.drop_first() =~= kept);
            assert(snap1.drop_first() =~= snap);
            assert(kept1[0] == (entry.0, c1));
            assert(snap1[0] == (entry.0, spec_duration_entry(w2, h, entity, c1)));
            assert(spec_instances_advanced(
                entity, storage, loaded, h, p.drop_first(), kept1.drop_first(),
                snap1.drop_first(), w2, w2, b2, b2, n2, n2,
            ));
            assert(spec_instance_step(
                entity, storage, loaded, h, p[0].1, w0, w2, b0, b2, n0, n2, c1, removed,
            ));
            assert(spec_instances_advanced(
                entity, storage, loaded, h, p, kept1, snap1, w0, w2, b0, b2, n0, n2,
            ));
        }
    } else {
        assert(p[0] == pending[0]);
        assert(p.drop_first() =~= pending.drop_first().push(entry));
        let (hc, hrm, hw, hb, hn): (
            AnimationControl,
            bool,
            Seq<EntityRecord>,
            Seq<WorldMutation>,
            u64,
        ) = choose|
            hc: AnimationControl,
            hrm: bool,
            hw: Seq<EntityRecord>,
            hb: Seq<WorldMutation>,
            hn: u64,
        |
            #![auto]
            spec_instance_step(
                entity, storage, loaded, h, pending[0].1, w0, hw, b0, hb, n0, hn, hc, hrm,
            ) && if hrm {
                spec_instances_advanced(
                    entity, storage, loaded, h, pending.drop_first(), kept, snap, hw, w1, hb, b1,
                    hn, n1,
                )
            } else {
                kept.len() > 0 && kept[0] == (pending[0].0, hc) && snap.len() > 0 && snap[0] == (
                    pending[0].0,
                    spec_duration_entry(hw, h, entity, hc),
                ) && spec_instances_advanced(
                    entity, storage, loaded, h, pending.drop_first(), kept.drop_first(),
                    snap.drop_first(), hw, w1, hb, b1, hn, n1,
                )
            };
        if hrm {
            lemma_instances_advanced_snoc(
                entity, storage, loaded, h, pending.drop_first(), entry, kept, snap, hw, w1, w2,
                hb, b1, b2, hn, n1, n2, c1, removed,
            );
            if removed {
                assert(spec_instances_advanced(
                    entity, storage, loaded, h, pending.drop_first().push(entry), kept, snap, hw,
                    w2, hb, b2, hn, n2,
                ));
                assert(spec_instances_advanced(
                    entity, storage, loaded, h, p, kept, snap, w0, w2, b0, b2, n0, n2,
                ));
            } else {
                assert(spec_instances_advanced(
                    entity, storage, loaded, h, pending.drop_first().push(entry), kept1, snap1,
                    hw, w2, hb, b2, hn, n2,
                ));
                assert(spec_instances_advanced(
                    entity, storage, loaded, h, p, kept1, snap1, w0, w2, b0, b2, n0, n2,
                ));
            }
        } else {
            lemma_instances_advanced_snoc(
                entity, storage, loaded, h, pending.drop_first(), entry, kept.drop_first(),
                snap.drop_first(), hw, w1, w2, hb, b1, b2, hn, n1, n2, c1, removed,
            );
            if removed {
                assert(spec_instances_advanced(
                    entity, storage, loaded, h, pending.drop_first().push(entry),
                    kept.drop_first(), snap.drop_first(), hw, w2, hb, b2, hn, n2,
                ));
                assert(spec_instances_advanced(
                    entity, storage, loaded, h, p, kept, snap, w0, w2, b0, b2, n0, n2,
                ));
            } else {
                assert(kept1.drop_first() =~= kept.drop_first().push((entry.0, c1)));
                assert(snap1.drop_first() =~= snap.drop_first().push(
                    (entry.0, spec_duration_entry(w2, h, entity, c1)),
                ));
                assert(kept1[0] == kept[0]);
                assert(snap1[0] == snap[0]);
                assert(spec_instances_advanced(
                    entity, storage, loaded, h, pending.drop_first().push(entry),
                    kept1.drop_first(), snap1.drop_first(), hw, w2, hb, b2, hn, n2,
                ));
                assert(spec_instances_advanced(
                    entity, storage, loaded, h, p, kept1, snap1, w0, w2, b0, b2, n0, n2,
                ));
            }
        }
    }
}

/// The duration snapshot after a prefix of the deferred queue has been
/// scanned: each promotion shadows the promoted id with its slack before
/// the entries behind it are judged.
pub open spec fn spec_snap_after(
    deferred: Seq<DeferredAnimation>,
    snap: Seq<(u64, Option<Millis>)>,
) -> Seq<(u64, Option<Millis>)>
    decreases deferred.len(),
{
    if deferred.len() == 0 {
        snap
    } else {
        let d = deferred[0];
        match spec_defer_eligibility(spec_state_lookup(snap, d.dependency_id), d.relation) {
            Some(slack) => spec_snap_after(
                deferred.drop_first(),
                snap.insert(0, (d.animation_id, Some(slack))),
            ),
            None => spec_snap_after(deferred.drop_first(), snap),
        }
    }
}

/// The deferred queue scanned in order against the evolving duration
/// snapshot `snap`: an entry whose dependency satisfies
/// [`spec_defer_eligibility`] is promoted — its control set to
/// `Deferred(slack)` with command `Start`, stepped like a fresh start, and
/// appended to `promoted` under its logical id — and its slack shadows its
/// id in the snapshot for the entries behind it; an ineligible entry stays
/// queued unchanged, in order, in `kept`.
pub open spec fn spec_deferred_advanced(
    entity: Entity,
    storage: AnimationStorage,
    loaded: Seq<SamplerId>,
    h: Option<AnimationHierarchy>,
    deferred: Seq<DeferredAnimation>,
    promoted: Seq<(u64, AnimationControl)>,
    kept: Seq<DeferredAnimation>,
    snap: Seq<(u64, Option<Millis>)>,
    w0: Seq<EntityRecord>,
    w1: Seq<EntityRecord>,
    b0: Seq<WorldMutation>,
    b1: Seq<WorldMutation>,
    n0: u64,
    n1: u64,
) -> bool
    decreases deferred.len(),
{
    if deferred.len() == 0 {
        promoted.len() == 0 && kept.len() == 0 && w1 == w0 && b1 == b0 && n1 == n0
    } else {
        let d = deferred[0];
        match spec_defer_eligibility(spec_state_lookup(snap, d.dependency_id), d.relation) {
            Some(slack) => {
                let prepped = AnimationControl {
                    state: ControlState::Deferred(slack),
                    command: AnimationCommand::Start,
                    ..d.control
                };
                exists|
                    c1: AnimationControl,
                    removed: bool,
                    wm: Seq<EntityRecord>,
                    bm: Seq<WorldMutation>,
                    nm: u64,
                |
                    #![auto]
                    spec_instance_step(
                        entity, storage, loaded, h, prepped, w0, wm, b0, bm, n0, nm, c1, removed,
                    ) && promoted.len() > 0 && promoted[0] == (d.animation_id, c1)
                        && spec_deferred_advanced(
                        entity,
                        storage,
                        loaded,
                        h,
                        deferred.drop_first(),
                        promoted.drop_first(),
                        kept,
                        snap.insert(0, (d.animation_id, Some(slack))),
                        wm,
                        w1,
                        bm,
                        b1,
                        nm,
                        n1,
                    )
            },
            None => {
                kept.len() > 0 && kept[0] == d && spec_deferred_advanced(
                    entity,
                    storage,
                    loaded,
                    h,
                    deferred.drop_first(),
                    promoted,
                    kept.drop_first(),
                    snap,
                    w0,
                    w1,
                    b0,
                    b1,
                    n0,
                    n1,
                )
            },
        }
    }
}

/// Scanning one more deferred entry that the snapshot rules promote
/// extends the scan at its end.
pub proof fn lemma_deferred_snoc_promoted(
    entity: Entity,
    storage: AnimationStorage,
    loaded: Seq<SamplerId>,
    h: Option<AnimationHierarchy>,
    deferred: Seq<DeferredAnimation>,
    d: DeferredAnimation,
    promoted: Seq<(u64, AnimationControl)>,
    kept: Seq<DeferredAnimation>,
    snap: Seq<(u64, Option<Millis>)>,
    slack: Millis,
    w0: Seq<EntityRecord>,
    w1: Seq<EntityRecord>,
    w2: Seq<EntityRecord>,
    b0: Seq<WorldMutation>,
    b1: Seq<WorldMutation>,
    b2: Seq<WorldMutation>,
    n0: u64,
    n1: u64,
    n2: u64,
    c1: AnimationControl,
    removed: bool,
)
    requires
        spec_deferred_advanced(
            entity, storage, loaded, h, deferred, promoted, kept, snap, w0, w1, b0, b1, n0, n1,
        ),
        spec_defer_eligibility(
            spec_state_lookup(spec_snap_after(deferred, snap), d.dependency_id),
            d.relation,
        ) == Some(slack),
        spec_instance_step(
            entity,
            storage,
            loaded,
            h,
            AnimationControl {
                state: ControlState::Deferred(slack),
                command: AnimationCommand::Start,
                ..d.control
            },
            w1,
            w2,
            b1,
            b2,
            n1,
            n2,
            c1,
            removed,
        ),
    ensures
        spec_deferred_advanced(
            entity,
            storage,
            loaded,
            h,
            deferred.push(d),
            promoted.push((d.animation_id, c1)),
            kept,
            snap,
            w0,
            w2,
            b0,
            b2,
            n0,
            n2,
        ),
    decreases deferred.len(),
{
    let q = deferred.push(d);
    let promoted1 = promoted.push((d.animation_id, c1));
    if deferred.len() == 0 {
        assert(q[0] == d);
        assert(q.drop_first() =~= Seq::<DeferredAnimation>::empty());
        assert(promoted.len() == 0 && kept.len() == 0 && w1 == w0 && b1 == b0 && n1 == n0);
        assert(promoted1.drop_first() =~= promoted);
        assert(promoted1[0] == (d.animation_id, c1));
        assert(spec_deferred_advanced(
            entity, storage, loaded, h, q.drop_first(), promoted1.drop_first(), kept,
            snap.insert(0, (d.animation_id, Some(slack))), w2, w2, b2, b2, n2, n2,
        ));
        assert(spec_deferred_advanced(
            entity, storage, loaded, h, q, promoted1, kept, snap, w0, w2, b0, b2, n0, n2,
        ));
    } else {
        assert(q[0] == deferred[0]);
        assert(q.drop_first() =~= deferred.drop_first().push(d));
        let e = deferred[0];
        match spec_defer_eligibility(spec_state_lookup(snap, e.dependency_id), e.relation) {
            Some(sl0) => {
                let prepped0 = AnimationControl {
                    state: ControlState::Deferred(sl0),
                    command: AnimationCommand::Start,
                    ..e.control
                };
                let snapm = snap.insert(0, (e.animation_id, Some(sl0)));
                let (hc, hrm, hw, hb, hn): (
                    AnimationControl,
                    bool,
                    Seq<EntityRecord>,
                    Seq<WorldMutation>,
                    u64,
                ) = choose|
                    hc: AnimationControl,
                    hrm: bool,
                    hw: Seq<EntityRecord>,
                    hb: Seq<WorldMutation>,
                    hn: u64,
                |
                    #![auto]
                    spec_instance_step(
                        entity, storage, loaded, h, prepped0, w0, hw, b0, hb, n0, hn, hc, hrm,
                    ) && promoted.len() > 0 && promoted[0] == (e.animation_id, hc)
                        && spec_deferred_advanced(
                        entity, storage, loaded, h, deferred.drop_first(), promoted.drop_first(),
                        kept, snapm, hw, w1, hb, b1, hn, n1,
                    );
                lemma_deferred_snoc_promoted(
                    entity, storage, loaded, h, deferred.drop_first(), d, promoted.drop_first(),
                    kept, snapm, slack, hw, w1, w2, hb, b1, b2, hn, n1, n2, c1, removed,
                );
                assert(promoted1.drop_first() =~= promoted.drop_first().push(
                    (d.animation_id, c1),
                ));
                assert(promoted1[0] == promoted[0]);
                assert(spec_deferred_advanced(
                    entity, storage, loaded, h, deferred.drop_first().push(d),
                    promoted1.drop_first(), kept, snapm, hw, w2, hb, b2, hn, n2,
                ));
                assert(spec_deferred_advanced(
                    entity, storage, loaded, h, q, promoted1, kept, snap, w0, w2, b0, b2, n0, n2,
                ));
            },
            None => {
                lemma_deferred_snoc_promoted(
                    entity, storage, loaded, h, deferred.drop_first(), d, promoted,
                    kept.drop_first(), snap, slack, w0, w1, w2, b0, b1, b2, n0, n1, n2, c1,
                    removed,
                );
                assert(spec_deferred_advanced(
                    entity, storage, loaded, h, deferred.drop_first().push(d), promoted1,
                    kept.drop_first(), snap, w0, w2, b0, b2, n0, n2,
                ));
                assert(spec_deferred_advanced(
                    entity, storage, loaded, h, q, promoted1, kept, snap, w0, w2, b0, b2, n0, n2,
                ));
            },
        }
    }
}

/// Scanning one more deferred entry that the snapshot rules hold back
/// extends the scan at its end.
pub proof fn lemma_deferred_snoc_kept(
    entity: Entity,
    storage: AnimationStorage,
    loaded: Seq<SamplerId>,
    h: Option<AnimationHierarchy>,
    deferred: Seq<DeferredAnimation>,
    d: DeferredAnimation,
    promoted: Seq<(u64, AnimationControl)>,
    kept: Seq<DeferredAnimation>,
    snap: Seq<(u64, Option<Millis>)>,
    w0: Seq<EntityRecord>,
    w1: Seq<EntityRecord>,
    b0: Seq<WorldMutation>,
    b1: Seq<WorldMutation>,
    n0: u64,
    n1: u64,
)
    requires
        spec_deferred_advanced(
            entity, storage, loaded, h, deferred, promoted, kept, snap, w0, w1, b0, b1, n0, n1,
        ),
        spec_defer_eligibility(
            spec_state_lookup(spec_snap_after(deferred, snap), d.dependency_id),
            d.relation,
        ) is None,
    ensures
        spec_deferred_advanced(
            entity,
            storage,
            loaded,
            h,
            deferred.push(d),
            promoted,
            kept.push(d),
            snap,
            w0,
            w1,
            b0,
            b1,
            n0,
            n1,
        ),
    decreases deferred.len(),
{
    let q = deferred.push(d);
    let kept1 = kept.push(d);
    if deferred.len() == 0 {
        assert(q[0] == d);
        assert(q.drop_first() =~= Seq::<DeferredAnimation>::empty());
        assert(kept1.drop_first() =~= kept);
        assert(kept1[0] == d);
        assert(spec_deferred_advanced(
            entity, storage, loaded, h, q.drop_first(), promoted, kept1.drop_first(), snap, w1,
            w1, b1, b1, n1, n1,
        ));
        assert(spec_deferred_advanced(
            entity, storage, loaded, h, q, promoted, kept1, snap, w0, w1, b0, b1, n0, n1,
        ));
    } else {
        assert(q[0] == deferred[0]);
        assert(q.drop_first() =~= deferred.drop_first().push(d));
        let e = deferred[0];
        match spec_defer_eligibility(spec_state_lookup(snap, e.dependency_id), e.relation) {
            Some(sl0) => {
                let prepped0 = AnimationControl {
                    state: ControlState::Deferred(sl0),
                    command: AnimationCommand::Start,
                    ..e.control
                };
                let snapm = snap.insert(0, (e.animation_id, Some(sl0)));
                let (hc, hrm, hw, hb, hn): (
                    AnimationControl,
                    bool,
                    Seq<EntityRecord>,
                    Seq<WorldMutation>,
                    u64,
                ) = choose|
                    hc: AnimationControl,
                    hrm: bool,
                    hw: Seq<EntityRecord>,
                    hb: Seq<WorldMutation>,
                    hn: u64,
                |
                    #![auto]
                    spec_instance_step(
                        entity, storage, loaded, h, prepped0, w0, hw, b0, hb, n0, hn, hc, hrm,
                    ) && promoted.len() > 0 && promoted[0] == (e.animation_id, hc)
                        && spec_deferred_advanced(
                        entity, storage, loaded, h, deferred.drop_first(), promoted.drop_first(),
                        kept, snapm, hw, w1, hb, b1, hn, n1,
                    );
                lemma_deferred_snoc_kept(
                    entity, storage, loaded, h, deferred.drop_first(), d, promoted.drop_first(),
                    kept, snapm, hw, w1, hb, b1, hn, n1,
                );
                assert(spec_deferred_advanced(
                    entity, storage, loaded, h, deferred.drop_first().push(d),
                    promoted.drop_first(), kept1, snapm, hw, w1, hb, b1, hn, n1,
                ));
                assert(spec_deferred_advanced(
                    entity, storage, loaded, h, q, promoted, kept1, snap, w0, w1, b0, b1, n0, n1,
                ));
            },
            None => {
                assert(kept1[0] == kept[0]);
                assert(kept1.drop_first() =~= kept.drop_first().push(d));
                lemma_deferred_snoc_kept(
                    entity, storage, loaded, h, deferred.drop_first(), d, promoted,
                    kept.drop_first(), snap, w0, w1, b0, b1, n0, n1,
                );
                assert(spec_deferred_advanced(
                    entity, storage, loaded, h, deferred.drop_first().push(d), promoted,
                    kept.drop_first().push(d), snap, w0, w1, b0, b1, n0, n1,
                ));
                assert(spec_deferred_advanced(
                    entity, storage, loaded, h, q, promoted, kept1, snap, w0, w1, b0, b1, n0, n1,
                ));
            },
        }
    }
}

/// Scanning one more entry updates the snapshot by that entry's own
/// eligibility verdict at the snapshot the prefix reached.
pub proof fn lemma_snap_after_snoc(
    deferred: Seq<DeferredAnimation>,
    d: DeferredAnimation,
    snap: Seq<(u64, Option<Millis>)>,
)
    ensures
        spec_snap_after(deferred.push(d), snap) == (match spec_defer_eligibility(
            spec_state_lookup(spec_snap_after(deferred, snap), d.dependency_id),
            d.relation,
        ) {
            Some(slack) => spec_snap_after(deferred, snap).insert(
                0,
                (d.animation_id, Some(slack)),
            ),
            None => spec_snap_after(deferred, snap),
        }),
    decreases deferred.len(),
{
    let q = deferred.push(d);
    if deferred.len() == 0 {
        assert(q[0] == d);
        assert(q.drop_first() =~= Seq::<DeferredAnimation>::empty());
        assert(spec_snap_after(deferred, snap) == snap);
        match spec_defer_eligibility(spec_state_lookup(snap, d.dependency_id), d.relation) {
            Some(slack) => {
                assert(spec_snap_after(q, snap) == spec_snap_after(
                    q.drop_first(),
                    snap.insert(0, (d.animation_id, Some(slack))),
                ));
                assert(spec_snap_after(
                    q.drop_first(),
                    snap.insert(0, (d.animation_id, Some(slack))),
                ) == snap.insert(0, (d.animation_id, Some(slack))));
            },
            None => {
                assert(spec_snap_after(q, snap) == spec_snap_after(q.drop_first(), snap));
                assert(spec_snap_after(q.drop_first(), snap) == snap);
            },
        }
    } else {
        assert(q[0] == deferred[0]);
        assert(q.drop_first() =~= deferred.drop_first().push(d));
        let e = deferred[0];
        match spec_defer_eligibility(spec_state_lookup(snap, e.dependency_id), e.relation) {
            Some(sl0) => {
                let snapm = snap.insert(0, (e.animation_id, Some(sl0)));
                lemma_snap_after_snoc(deferred.drop_first(), d, snapm);
                assert(spec_snap_after(q, snap) == spec_snap_after(
                    deferred.drop_first().push(d),
                    snapm,
                ));
                assert(spec_snap_after(deferred, snap) == spec_snap_after(
                    deferred.drop_first(),
                    snapm,
                ));
            },
            None => {
                lemma_snap_after_snoc(deferred.drop_first(), d, snap);
                assert(spec_snap_after(q, snap) == spec_snap_after(
                    deferred.drop_first().push(d),
                    snap,
                ));
                assert(spec_snap_after(deferred, snap) == spec_snap_after(
                    deferred.drop_first(),
                    snap,
                ));
            },
        }
    }
}

/// The not-running snapshot entries the scan seeds for a deferred queue.
pub open spec fn spec_deferred_base_snap(deferred: Seq<DeferredAnimation>) -> Seq<
    (u64, Option<Millis>),
> {
    deferred.map_values(|d: DeferredAnimation| (d.animation_id, Option::<Millis>::None))
}

/// One entity's whole control-set pass: the active instances advanced in
/// order, then the deferred queue scanned against the snapshot of their
/// durations (extended with one not-running entry per deferred instance),
/// the promoted instances appended after the survivors.
pub open spec fn spec_set_pass(
    entity: Entity,
    storage: AnimationStorage,
    loaded: Seq<SamplerId>,
    h: Option<AnimationHierarchy>,
    set0: AnimationControlSet,
    set1: AnimationControlSet,
    w0: Seq<EntityRecord>,
    w1: Seq<EntityRecord>,
    b0: Seq<WorldMutation>,
    b1: Seq<WorldMutation>,
    n0: u64,
    n1: u64,
) -> bool {
    exists|
        kept: Seq<(u64, AnimationControl)>,
        snap: Seq<(u64, Option<Millis>)>,
        promoted: Seq<(u64, AnimationControl)>,
        wm: Seq<EntityRecord>,
        bm: Seq<WorldMutation>,
        nm: u64,
    |
        #![trigger spec_instances_advanced(entity, storage, loaded, h, set0.animations@, kept, snap, w0, wm, b0, bm, n0, nm), spec_deferred_advanced(entity, storage, loaded, h, set0.deferred_animations@, promoted, set1.deferred_animations@, snap + spec_deferred_base_snap(set0.deferred_animations@), wm, w1, bm, b1, nm, n1)]
        spec_instances_advanced(
            entity, storage, loaded, h, set0.animations@, kept, snap, w0, wm, b0, bm, n0, nm,
        ) && spec_deferred_advanced(
            entity,
            storage,
            loaded,
            h,
            set0.deferred_animations@,
            promoted,
            set1.deferred_animations@,
            snap + spec_deferred_base_snap(set0.deferred_animations@),
            wm,
            w1,
            bm,
            b1,
            nm,
            n1,
        ) && set1.animations@ == kept + promoted
}

/// Looks an id up in the tick's duration snapshot.
fn state_get(s: &Vec<(u64, Option<Millis>)>, id: u64) -> (r: Option<Option<Millis>>)
    ensures
        r == spec_state_lookup(s@, id),
{
    let n = s.len();
    let mut j: usize = 0;
    proof {
        assert(s@.skip(0) =~= s@);
    }
    while j < n
        invariant
            j <= n,
            n == s@.len(),
            spec_state_lookup(s@, id) == spec_state_lookup(s@.skip(j as int), id),
        decreases n - j,
    {
        proof {
            assert(s@.skip(j as int)[0] == s@[j as int]);
            assert(s@.skip(j as int).drop_first() =~= s@.skip(j + 1));
        }
        if s[j].0 == id {
            return Some(s[j].1);
        }
        j += 1;
    }
    proof {
        assert(s@.skip(n as int).len() == 0);
    }
    None
}

/// Records a fresh duration for an id in the snapshot, shadowing any
/// earlier entry.
fn state_put(s: &mut Vec<(u64, Option<Millis>)>, id: u64, value: Option<Millis>)
    ensures
        final(s)@ == old(s)@.insert(0, (id, value)),
        spec_state_lookup(final(s)@, id) == Some(value),
        forall|other: u64|
            other != id ==> #[trigger] spec_state_lookup(final(s)@, other) == spec_state_lookup(
                old(s)@,
                other,
            ),
{
    s.insert(0, (id, value));
    proof {
        assert(s@[0] == (id, value));
        assert(s@.drop_first() =~= old(s)@);
    }
}

/// Buffered changes never rename an entity, and never touch the animated
/// target component itself.
pub proof fn lemma_apply_ops_entity(r: EntityRecord, ops: Seq<WorldMutation>)
    ensures
        spec_apply_ops(r, ops).entity == r.entity,
        spec_apply_ops(r, ops).has_target == r.has_target,
        spec_apply_ops(r, ops).live == r.live,
    decreases ops.len(),
{
    if ops.len() > 0 {
        lemma_apply_ops_entity(spec_apply_one(r, ops[0]), ops.drop_first());
    }
}

/// Applying buffered changes either keeps a record's animation control set
/// or detaches it; it never installs a different one.
pub proof fn lemma_apply_ops_control_set(r: EntityRecord, ops: Seq<WorldMutation>)
    ensures
        spec_apply_ops(r, ops).control_set == r.control_set || spec_apply_ops(r, ops).control_set
            is None,
    decreases ops.len(),
{
    if ops.len() > 0 {
        lemma_apply_ops_control_set(spec_apply_one(r, ops[0]), ops.drop_first());
    }
}

/// Advances every instance of one entity's control set by one tick:
/// processes each active instance, downgrades the one-shot `Step` and
/// `SetInputValue` commands back to `Start`, drops instances flagged for
/// removal, snapshots running durations, and promotes deferred instances
/// whose dependency has run far enough — each promotion visible to the
/// deferred entries scanned after it, so a chain can start in one tick.
///
/// Returns the entity's control set for the next tick. Store mutations the
/// instances fan out are applied to `world` at once; structural changes go
/// to `buffer`.
#[verifier::rlimit(100)]
#[verifier::spinoff_prover]
pub fn process_control_set(
    entity: Entity,
    set: AnimationControlSet,
    world: &mut World,
    storage: &AnimationStorage,
    samplers: &SamplerAssets,
    hierarchy: Option<&AnimationHierarchy>,
    buffer: &mut MutationBuffer,
    next_id: &mut u64,
) -> (r: AnimationControlSet)
    requires
        spec_unique_entities(old(world).records@),
        storage.wf(),
    ensures
        spec_set_pass(
            entity,
            *storage,
            samplers.loaded@,
            (match hierarchy {
                Some(x) => Some(*x),
                None => None,
            }),
            set,
            r,
            old(world).records@,
            final(world).records@,
            old(buffer).ops@,
            final(buffer).ops@,
            *old(next_id),
            *final(next_id),
        ),
        final(world).records@.len() == old(world).records@.len(),
        forall|t: int|
            0 <= t < old(world).records@.len() ==> (#[trigger] final(world).records@[t]).entity
                == old(world).records@[t].entity,
        forall|t: int|
            0 <= t < old(world).records@.len() ==> (#[trigger] final(world).records@[t]).control_set
                == old(world).records@[t].control_set && final(world).records@[t].hierarchy == old(
                world,
            ).records@[t].hierarchy,
        forall|t: int|
            0 <= t < old(world).records@.len() ==> (#[trigger] final(world).records@[t]).has_target
                == old(world).records@[t].has_target && final(world).records@[t].live == old(
                world,
            ).records@[t].live,
        *final(next_id) >= *old(next_id),
        forall|k: int|
            0 <= k < r.animations@.len() ==> !(#[trigger] r.animations@[k]).1.command.is_one_shot(),
{
    let ghost set0 = set;
    let ghost hh: Option<AnimationHierarchy> = match hierarchy {
        Some(x) => Some(*x),
        None => None,
    };
    let ghost w_base = old(world).records@;
    let ghost b_base = old(buffer).ops@;
    let ghost n_base = *old(next_id);
    let AnimationControlSet { animations: mut pending, deferred_animations: mut deferred } = set;
    let ghost orig_pending = pending@;
    let ghost orig_def = deferred@;
    let mut actives: Vec<(u64, AnimationControl)> = Vec::new();
    let mut state_set: Vec<(u64, Option<Millis>)> = Vec::new();
    let ghost mut j: int = 0;

    // advance each active instance, downgrade one-shot commands, and
    // snapshot running durations for the deferred scan below
    while pending.len() > 0
        invariant
            0 <= j <= orig_pending.len(),
            pending@ == orig_pending.skip(j),
            orig_pending == set0.animations@,
            orig_def == set0.deferred_animations@,
            deferred@ == orig_def,
            hh == (match hierarchy {
                Some(x) => Some(*x),
                None => None,
            }),
            w_base == old(world).records@,
            b_base == old(buffer).ops@,
            n_base == *old(next_id),
            spec_instances_advanced(
                entity,
                *storage,
                samplers.loaded@,
                hh,
                orig_pending.take(j),
                actives@,
                state_set@,
                w_base,
                world.records@,
                b_base,
                buffer.ops@,
                n_base,
                *next_id,
            ),
            world.records@.len() == old(world).records@.len(),
            forall|t: int|
                0 <= t < old(world).records@.len() ==> (#[trigger] world.records@[t]).entity == old(
                    world,
                ).records@[t].entity,
            forall|t: int|
                0 <= t < old(world).records@.len() ==> (#[trigger] world.records@[t]).control_set
                    == old(world).records@[t].control_set && world.records@[t].hierarchy == old(
                    world,
                ).records@[t].hierarchy,
            forall|t: int|
                0 <= t < old(world).records@.len() ==> (#[trigger] world.records@[t]).has_target
                    == old(world).records@[t].has_target && world.records@[t].live == old(
                    world,
                ).records@[t].live,
            spec_unique_entities(world.records@),
            *next_id >= *old(next_id),
            storage.wf(),
            forall|k: int|
                0 <= k < actives@.len() ==> !(#[trigger] actives@[k]).1.command.is_one_shot(),
        decreases pending@.len(),
    {
        proof {
            assert(orig_pending.skip(j)[0] == orig_pending[j]);
            assert(orig_pending.skip(j).remove(0) =~= orig_pending.skip(j + 1));
        }
        let ghost pre_w = world.records@;
        let ghost pre_b = buffer.ops@;
        let ghost pre_n = *next_id;
        let (id, mut control) = pending.remove(0);
        let ghost c0v = control;
        let mut rm = false;
        let ghost mut cp: AnimationControl = control;
        let ghost mut rr: Option<ControlState> = None;
        let nid_ok = *next_id < u64::MAX;
        let fo = storage.find(control.animation);
        match fo {
            Some(k) => {
                if nid_ok {
                    let st = process_animation_control(
                        entity,
                        world,
                        &storage.animations[k].1,
                        &mut control,
                        hierarchy,
                        samplers,
                        buffer,
                        &mut rm,
                        next_id,
                    );
                    proof {
                        cp = control;
                        rr = st;
                    }
                    match st {
                        Some(s) => {
                            control.state = s;
                        },
                        None => {},
                    }
                }
            },
            None => {},
        }
        match control.command {
            AnimationCommand::Step(_) => {
                control.command = AnimationCommand::Start;
            },
            AnimationCommand::SetInputValue(_) => {
                control.command = AnimationCommand::Start;
            },
            _ => {},
        }
        proof {
            match fo {
                Some(k0) => {
                    let anim = storage.animations@[k0 as int].1;
                    assert(spec_storage_lookup(storage.animations@, c0v.animation) == Some(anim));
                    assert(spec_storage_lookup(storage.animations@, c0v.animation)->0 == anim);
                    if nid_ok {
                        if hierarchy is None && !spec_only_one_index(anim.nodes@) {
                            assert(control == spec_downgrade(c0v));
                        } else {
                            assert(spec_nodes_of(hh, anim.nodes@, entity) == spec_resolved_nodes(
                                hierarchy,
                                anim.nodes@,
                                entity,
                            ));
                            assert(spec_process_post(
                                spec_nodes_of(hh, anim.nodes@, entity),
                                anim.nodes@,
                                samplers.loaded@,
                                pre_w,
                                world.records@,
                                pre_b,
                                buffer.ops@,
                                c0v,
                                cp,
                                rm,
                                pre_n,
                                *next_id,
                                rr,
                            ));
                            assert(control == spec_downgrade(spec_stored(cp, rr)));
                        }
                    } else {
                        assert(control == spec_downgrade(c0v));
                    }
                },
                None => {
                    assert(spec_storage_lookup(storage.animations@, c0v.animation) is None);
                    assert(control == spec_downgrade(c0v));
                },
            }
            assert(spec_instance_step(
                entity,
                *storage,
                samplers.loaded@,
                hh,
                orig_pending[j].1,
                pre_w,
                world.records@,
                pre_b,
                buffer.ops@,
                pre_n,
                *next_id,
                control,
                rm,
            ));
        }
        let ghost ka = actives@;
        let ghost sa = state_set@;
        if !rm {
            let entry: Option<Millis> = match control.state {
                ControlState::Running(_) => {
                    let probe = match hierarchy {
                        Some(h) => h.first_entity(entity),
                        None => entity,
                    };
                    let dur = match world.find(probe) {
                        Some(p) => {
                            match &world.records[p].samplers {
                                Some(s) => find_max_duration(control.id, Some(s)),
                                None => find_max_duration(control.id, None),
                            }
                        },
                        None => find_max_duration(control.id, None),
                    };
                    proof {
                        assert(probe == spec_probe_entity(hh, entity));
                        assert(dur == spec_probe_duration(world.records@, probe, control.id));
                    }
                    Some(dur)
                },
                _ => None,
            };
            proof {
                assert(entry == spec_duration_entry(world.records@, hh, entity, control));
            }
            state_set.push((id, entry));
            actives.push((id, control));
        }
        proof {
            lemma_instances_advanced_snoc(
                entity,
                *storage,
                samplers.loaded@,
                hh,
                orig_pending.take(j),
                orig_pending[j],
                ka,
                sa,
                w_base,
                pre_w,
                world.records@,
                b_base,
                pre_b,
                buffer.ops@,
                n_base,
                pre_n,
                *next_id,
                control,
                rm,
            );
            assert(orig_pending.take(j + 1) =~= orig_pending.take(j).push(orig_pending[j]));
            if !rm {
                assert(actives@ == ka.push((orig_pending[j].0, control)));
                assert(state_set@ == sa.push(
                    (orig_pending[j].0, spec_duration_entry(world.records@, hh, entity, control)),
                ));
            }
            j = j + 1;
        }
    }
    proof {
        assert(orig_pending.take(j) =~= orig_pending);
    }
    let ghost kept0 = actives@;
    let ghost snap_a = state_set@;
    let ghost w_mid = world.records@;
    let ghost b_mid = buffer.ops@;
    let ghost n_mid = *next_id;
    let ghost kept_n = actives@.len() as int;

    // deferred instances count as not running until promoted
    let dn = deferred.len();
    let mut di: usize = 0;
    while di < dn
        invariant
            di <= dn,
            dn == deferred@.len(),
            deferred@ == orig_def,
            state_set@ == snap_a + spec_deferred_base_snap(orig_def.take(di as int)),
        decreases dn - di,
    {
        proof {
            assert(spec_deferred_base_snap(orig_def.take(di + 1)) =~= spec_deferred_base_snap(
                orig_def.take(di as int),
            ).push((orig_def[di as int].animation_id, Option::<Millis>::None)));
            assert(state_set@.push((orig_def[di as int].animation_id, Option::<Millis>::None))
                =~= snap_a + spec_deferred_base_snap(orig_def.take(di + 1)));
        }
        let did = deferred[di].animation_id;
        state_set.push((did, None));
        di += 1;
    }
    let ghost snap_full = snap_a + spec_deferred_base_snap(orig_def);

    // scan the deferred queue in order; a promotion updates the snapshot
    // before the entries behind it are judged
    let mut kept_deferred: Vec<DeferredAnimation> = Vec::new();
    let ghost mut jd: int = 0;
    while deferred.len() > 0
        invariant
            0 <= jd <= orig_def.len(),
            deferred@ == orig_def.skip(jd),
            orig_pending == set0.animations@,
            orig_def == set0.deferred_animations@,
            hh == (match hierarchy {
                Some(x) => Some(*x),
                None => None,
            }),
            w_base == old(world).records@,
            b_base == old(buffer).ops@,
            n_base == *old(next_id),
            snap_full == snap_a + spec_deferred_base_snap(orig_def),
            state_set@ == spec_snap_after(orig_def.take(jd), snap_full),
            0 <= kept_n <= actives@.len(),
            actives@.take(kept_n) == kept0,
            spec_instances_advanced(
                entity,
                *storage,
                samplers.loaded@,
                hh,
                orig_pending,
                kept0,
                snap_a,
                w_base,
                w_mid,
                b_base,
                b_mid,
                n_base,
                n_mid,
            ),
            spec_deferred_advanced(
                entity,
                *storage,
                samplers.loaded@,
                hh,
                orig_def.take(jd),
                actives@.skip(kept_n),
                kept_deferred@,
                snap_full,
                w_mid,
                world.records@,
                b_mid,
                buffer.ops@,
                n_mid,
                *next_id,
            ),
            world.records@.len() == old(world).records@.len(),
            forall|t: int|
                0 <= t < old(world).records@.len() ==> (#[trigger] world.records@[t]).entity == old(
                    world,
                ).records@[t].entity,
            forall|t: int|
                0 <= t < old(world).records@.len() ==> (#[trigger] world.records@[t]).control_set
                    == old(world).records@[t].control_set && world.records@[t].hierarchy == old(
                    world,
                ).records@[t].hierarchy,
            forall|t: int|
                0 <= t < old(world).records@.len() ==> (#[trigger] world.records@[t]).has_target
                    == old(world).records@[t].has_target && world.records@[t].live == old(
                    world,
                ).records@[t].live,
            spec_unique_entities(world.records@),
            *next_id >= *old(next_id),
            storage.wf(),
            forall|k: int|
                0 <= k < actives@.len() ==> !(#[trigger] actives@[k]).1.command.is_one_shot(),
        decreases deferred@.len(),
    {
        proof {
            assert(orig_def.skip(jd)[0] == orig_def[jd]);
            assert(orig_def.skip(jd).remove(0) =~= orig_def.skip(jd + 1));
            assert(orig_def.take(jd + 1) =~= orig_def.take(jd).push(orig_def[jd]));
            lemma_snap_after_snoc(orig_def.take(jd), orig_def[jd], snap_full);
        }
        let mut d = deferred.remove(0);
        let entry = state_get(&state_set, d.dependency_id);
        let eligible: Option<Millis> = match entry {
            None => Some(0),
            Some(None) => None,
            Some(Some(dur)) => match d.relation {
                DeferStartRelation::Start(offset) => if dur >= offset {
                    Some(dur - offset)
                } else {
                    None
                },
                DeferStartRelation::End => None,
            },
        };
        proof {
            assert(eligible == spec_defer_eligibility(
                spec_state_lookup(spec_snap_after(orig_def.take(jd), snap_full), d.dependency_id),
                d.relation,
            ));
        }
        match eligible {
            Some(slack) => {
                state_put(&mut state_set, d.animation_id, Some(slack));
                d.control.state = ControlState::Deferred(slack);
                d.control.command = AnimationCommand::Start;
                let ghost prepped = d.control;
                let ghost pre_w = world.records@;
                let ghost pre_b = buffer.ops@;
                let ghost pre_n = *next_id;
                let mut rm = false;
                let ghost mut cp: AnimationControl = d.control;
                let ghost mut rr: Option<ControlState> = None;
                let nid_ok = *next_id < u64::MAX;
                let fo = storage.find(d.control.animation);
                match fo {
                    Some(k) => {
                        if nid_ok {
                            let st = process_animation_control(
                                entity,
                                world,
                                &storage.animations[k].1,
                                &mut d.control,
                                hierarchy,
                                samplers,
                                buffer,
                                &mut rm,
                                next_id,
                            );
                            proof {
                                cp = d.control;
                                rr = st;
                            }
                            match st {
                                Some(s) => {
                                    d.control.state = s;
                                },
                                None => {},
                            }
                        }
                    },
                    None => {},
                }
                proof {
                    match fo {
                        Some(k0) => {
                            let anim = storage.animations@[k0 as int].1;
                            assert(spec_storage_lookup(storage.animations@, prepped.animation)
                                == Some(anim));
                            assert(spec_storage_lookup(storage.animations@, prepped.animation)->0
                                == anim);
                            if nid_ok {
                                if hierarchy is None && !spec_only_one_index(anim.nodes@) {
                                    assert(d.control == spec_downgrade(prepped));
                                } else {
                                    assert(spec_nodes_of(hh, anim.nodes@, entity)
                                        == spec_resolved_nodes(hierarchy, anim.nodes@, entity));
                                    assert(spec_process_post(
                                        spec_nodes_of(hh, anim.nodes@, entity),
                                        anim.nodes@,
                                        samplers.loaded@,
                                        pre_w,
                                        world.records@,
                                        pre_b,
                                        buffer.ops@,
                                        prepped,
                                        cp,
                                        rm,
                                        pre_n,
                                        *next_id,
                                        rr,
                                    ));
                                    assert(d.control == spec_downgrade(spec_stored(cp, rr)));
                                }
                            } else {
                                assert(d.control == spec_downgrade(prepped));
                            }
                        },
                        None => {
                            assert(spec_storage_lookup(storage.animations@, prepped.animation)
                                is None);
                            assert(d.control == spec_downgrade(prepped));
                        },
                    }
                    assert(spec_instance_step(
                        entity,
                        *storage,
                        samplers.loaded@,
                        hh,
                        prepped,
                        pre_w,
                        world.records@,
                        pre_b,
                        buffer.ops@,
                        pre_n,
                        *next_id,
                        d.control,
                        rm,
                    ));
                }
                let ghost ka = actives@;
                let promoted_id = d.animation_id;
                actives.push((promoted_id, d.control));
                proof {
                    assert(actives@.skip(kept_n) =~= ka.skip(kept_n).push(
                        (orig_def[jd].animation_id, d.control),
                    ));
                    assert(actives@.take(kept_n) =~= ka.take(kept_n));
                    lemma_deferred_snoc_promoted(
                        entity,
                        *storage,
                        samplers.loaded@,
                        hh,
                        orig_def.take(jd),
                        orig_def[jd],
                        ka.skip(kept_n),
                        kept_deferred@,
                        snap_full,
                        slack,
                        w_mid,
                        pre_w,
                        world.records@,
                        b_mid,
                        pre_b,
                        buffer.ops@,
                        n_mid,
                        pre_n,
                        *next_id,
                        d.control,
                        rm,
                    );
                    jd = jd + 1;
                }
            },
            None => {
                proof {
                    lemma_deferred_snoc_kept(
                        entity,
                        *storage,
                        samplers.loaded@,
                        hh,
                        orig_def.take(jd),
                        orig_def[jd],
                        actives@.skip(kept_n),
                        kept_deferred@,
                        snap_full,
                        w_mid,
                        world.records@,
                        b_mid,
                        buffer.ops@,
                        n_mid,
                        *next_id,
                    );
                }
                kept_deferred.push(d);
                proof {
                    jd = jd + 1;
                }
            },
        }
    }
    proof {
        assert(orig_def.take(jd) =~= orig_def);
    }
    let result = AnimationControlSet { animations: actives, deferred_animations: kept_deferred };
    proof {
        assert(result.animations@ =~= kept0 + result.animations@.skip(kept_n));
        assert(spec_instances_advanced(
            entity,
            *storage,
            samplers.loaded@,
            hh,
            set0.animations@,
            kept0,
            snap_a,
            w_base,
            w_mid,
            b_base,
            b_mid,
            n_base,
            n_mid,
        ));
        assert(spec_deferred_advanced(
            entity,
            *storage,
            samplers.loaded@,
            hh,
            set0.deferred_animations@,
            result.animations@.skip(kept_n),
            result.deferred_animations@,
            snap_a + spec_deferred_base_snap(set0.deferred_animations@),
            w_mid,
            world.records@,
            b_mid,
            buffer.ops@,
            n_mid,
            *next_id,
        ));
        assert(spec_set_pass(
            entity,
            *storage,
            samplers.loaded@,
            hh,
            set0,
            result,
            w_base,
            world.records@,
            b_base,
            buffer.ops@,
            n_base,
            *next_id,
        ));
    }
    result
}

/// One entity visited by the tick: a record without a control set is left
/// alone; otherwise its set and hierarchy are taken out, the set is passed
/// per [`spec_set_pass`] against the store, the processed set and the
/// hierarchy are put back, and the detach of a set left empty is buffered.
/// The store as one entity's pass sees it: the record's control set and
/// hierarchy taken out.
pub open spec fn spec_stripped(w0: Seq<EntityRecord>, idx: int) -> Seq<EntityRecord> {
    w0.update(idx, EntityRecord { control_set: None, hierarchy: None, ..w0[idx] })
}

pub open spec fn spec_entity_pass(
    storage: AnimationStorage,
    loaded: Seq<SamplerId>,
    idx: int,
    w0: Seq<EntityRecord>,
    w1: Seq<EntityRecord>,
    b0: Seq<WorldMutation>,
    b1: Seq<WorldMutation>,
    n0: u64,
    n1: u64,
) -> bool {
    &&& 0 <= idx < w0.len()
    &&& match w0[idx].control_set {
        None => w1 == w0 && b1 == b0 && n1 == n0,
        Some(set0) => exists|
            set1: AnimationControlSet,
            wm: Seq<EntityRecord>,
            bm: Seq<WorldMutation>,
        |
            #![trigger spec_set_pass(
                w0[idx].entity,
                storage,
                loaded,
                w0[idx].hierarchy,
                set0,
                set1,
                spec_stripped(w0, idx),
                wm,
                b0,
                bm,
                n0,
                n1,
            )]
            spec_set_pass(
                w0[idx].entity,
                storage,
                loaded,
                w0[idx].hierarchy,
                set0,
                set1,
                spec_stripped(w0, idx),
                wm,
                b0,
                bm,
                n0,
                n1,
            ) && w1 == wm.update(
                idx,
                EntityRecord { control_set: Some(set1), hierarchy: w0[idx].hierarchy, ..wm[idx] },
            ) && b1 == (if set1.animations@.len() == 0 && set1.deferred_animations@.len() == 0 {
                bm.push(WorldMutation::RemoveControlSet { entity: w0[idx].entity })
            } else {
                bm
            }),
    }
}

/// A whole pass, as the trace of stores, buffers and counter values it
/// threads through: entry `t` is the state before record `t` is visited,
/// the last entry the state after the pass, and each consecutive pair is
/// one record visited per [`spec_entity_pass`].
pub open spec fn spec_tick_trace(
    storage: AnimationStorage,
    loaded: Seq<SamplerId>,
    tw: Seq<Seq<EntityRecord>>,
    tb: Seq<Seq<WorldMutation>>,
    tn: Seq<u64>,
) -> bool {
    &&& tw.len() == tb.len()
    &&& tw.len() == tn.len()
    &&& forall|t: int|
        0 <= t < tw.len() - 1 ==> spec_entity_pass(
            storage,
            loaded,
            t,
            #[trigger] tw[t],
            tw[t + 1],
            tb[t],
            tb[t + 1],
            tn[t],
            tn[t + 1],
        )
}

/// True when every runtime id referenced anywhere in the store — by a
/// sampler control, an active instance or a deferred instance — lies below
/// `n`. A caller that owns the id counter keeps this invariant by only
/// ever letting it grow, so a fresh id never collides with a live one.
pub open spec fn spec_ids_below(records: Seq<EntityRecord>, n: u64) -> bool {
    forall|t: int|
        0 <= t < records.len() ==> {
            let rec = #[trigger] records[t];
            &&& (rec.samplers matches Some(s) ==> forall|k: int|
                0 <= k < s.samplers@.len() ==> (#[trigger] s.samplers@[k]).control_id < n)
            &&& (rec.control_set matches Some(cs) ==> (forall|k: int|
                0 <= k < cs.animations@.len() ==> (#[trigger] cs.animations@[k]).1.id < n)
                && (forall|k: int|
                0 <= k < cs.deferred_animations@.len() ==> (
                #[trigger] cs.deferred_animations@[k]).control.id < n))
        }
}

/// One tick of the control plane over the whole store.
///
/// Visits every entity holding a control set exactly once, in record
/// order, advances its instances as [`process_control_set`] describes, and
/// detaches control sets left empty. All structural changes — sampler
/// control sets attached or detached, rest-state snapshots, control sets
/// detached — are buffered during the pass and applied only at its end, so
/// no entity observes another's half-applied change mid-tick.
///
/// The whole pass is pinned by [`spec_tick_trace`]: each record visited in
/// order per [`spec_entity_pass`], and the buffered structural changes
/// applied to the pass's outcome by [`spec_apply_ops`] at the end.
///
/// The runtime-id counter is owned by the caller; it must already exceed
/// every id the store still references ([`spec_ids_below`], the invariant
/// the caller keeps by only ever letting the counter grow), and the tick
/// never lowers it, so a freshly assigned id never collides with a live
/// one. After the tick no stored instance carries a one-shot command:
/// `Step` and `SetInputValue` apply for their one tick and revert to
/// `Start`.
pub fn run_animation_control_system(
    world: &mut World,
    storage: &AnimationStorage,
    samplers: &SamplerAssets,
    next_id: &mut u64,
)
    requires
        spec_unique_entities(old(world).records@),
        storage.wf(),
        spec_ids_below(old(world).records@, *old(next_id)),
    ensures
        final(world).records@.len() == old(world).records@.len(),
        forall|t: int|
            0 <= t < old(world).records@.len() ==> (#[trigger] final(world).records@[t]).entity
                == old(world).records@[t].entity,
        forall|t: int|
            0 <= t < old(world).records@.len() ==> (#[trigger] final(world).records@[t]).has_target
                == old(world).records@[t].has_target && final(world).records@[t].live == old(
                world,
            ).records@[t].live,
        *final(next_id) >= *old(next_id),
        exists|tw: Seq<Seq<EntityRecord>>, tb: Seq<Seq<WorldMutation>>, tn: Seq<u64>|
            #![trigger spec_tick_trace(*storage, samplers.loaded@, tw, tb, tn)]
            spec_tick_trace(*storage, samplers.loaded@, tw, tb, tn) && tw.len() == old(
                world,
            ).records@.len() + 1 && tw[0] == old(world).records@ && tb[0]
                == Seq::<WorldMutation>::empty() && tn[0] == *old(next_id) && tn[tw.len() - 1]
                == *final(next_id) && final(world).records@.len() == tw[tw.len() - 1].len() && (
            forall|t: int|
                0 <= t < tw[tw.len() - 1].len() ==> #[trigger] final(world).records@[t]
                    == spec_apply_ops(tw[tw.len() - 1][t], tb[tw.len() - 1])),
        forall|t: int, k: int|
            #![trigger final(world).records@[t].control_set->0.animations@[k]]
            0 <= t < final(world).records@.len() && final(world).records@[t].control_set is Some
                && 0 <= k < final(world).records@[t].control_set->0.animations@.len()
                ==> !final(world).records@[t].control_set->0.animations@[k].1.command.is_one_shot(),
{
    let mut buffer = MutationBuffer::new();
    proof {
        assert(buffer.ops@ =~= Seq::<WorldMutation>::empty());
    }
    let n = world.records.len();
    let mut i: usize = 0;
    let ghost mut tw: Seq<Seq<EntityRecord>> = seq![old(world).records@];
    let ghost mut tb: Seq<Seq<WorldMutation>> = seq![Seq::<WorldMutation>::empty()];
    let ghost mut tn: Seq<u64> = seq![*old(next_id)];
    while i < n
        invariant
            i <= n,
            n == world.records@.len(),
            world.records@.len() == old(world).records@.len(),
            tw.len() == i + 1,
            tb.len() == i + 1,
            tn.len() == i + 1,
            tw[0] == old(world).records@,
            tb[0] == Seq::<WorldMutation>::empty(),
            tn[0] == *old(next_id),
            tw[i as int] == world.records@,
            tb[i as int] == buffer.ops@,
            tn[i as int] == *next_id,
            forall|t: int|
                0 <= t < i ==> spec_entity_pass(
                    *storage,
                    samplers.loaded@,
                    t,
                    #[trigger] tw[t],
                    tw[t + 1],
                    tb[t],
                    tb[t + 1],
                    tn[t],
                    tn[t + 1],
                ),
            forall|t: int|
                0 <= t < old(world).records@.len() ==> (#[trigger] world.records@[t]).entity == old(
                    world,
                ).records@[t].entity,
            forall|t: int|
                0 <= t < old(world).records@.len() ==> (#[trigger] world.records@[t]).has_target
                    == old(world).records@[t].has_target && world.records@[t].live == old(
                    world,
                ).records@[t].live,
            spec_unique_entities(world.records@),
            *next_id >= *old(next_id),
            storage.wf(),
            forall|t: int, k: int|
                #![trigger world.records@[t].control_set->0.animations@[k]]
                0 <= t < i && world.records@[t].control_set is Some && 0 <= k
                    < world.records@[t].control_set->0.animations@.len() ==> !world.records@[t]
                    .control_set->0.animations@[k].1.command.is_one_shot(),
        decreases n - i,
    {
        let ghost wm = world.records@;
        let ghost bm = buffer.ops@;
        let ghost nm = *next_id;
        let mut cs_opt: Option<AnimationControlSet> = None;
        mem::swap(&mut world.records[i].control_set, &mut cs_opt);
        match cs_opt {
            Some(set) => {
                let ghost set_g = set;
                let mut h_opt: Option<AnimationHierarchy> = None;
                mem::swap(&mut world.records[i].hierarchy, &mut h_opt);
                let entity = world.records[i].entity;
                proof {
                    assert(world.records@ =~= spec_stripped(wm, i as int));
                    assert(wm[i as int].control_set->0 == set_g);
                }
                let new_set = match &h_opt {
                    Some(h) => process_control_set(
                        entity,
                        set,
                        world,
                        storage,
                        samplers,
                        Some(h),
                        &mut buffer,
                        next_id,
                    ),
                    None => process_control_set(
                        entity,
                        set,
                        world,
                        storage,
                        samplers,
                        None,
                        &mut buffer,
                        next_id,
                    ),
                };
                let ghost wpost = world.records@;
                let ghost bpost = buffer.ops@;
                proof {
                    assert(spec_set_pass(
                        wm[i as int].entity,
                        *storage,
                        samplers.loaded@,
                        wm[i as int].hierarchy,
                        set_g,
                        new_set,
                        spec_stripped(wm, i as int),
                        wpost,
                        bm,
                        bpost,
                        nm,
                        *next_id,
                    ));
                }
                if new_set.is_empty() {
                    // policy: a control set left empty is eagerly detached
                    // from its entity when the tick's changes apply
                    buffer.ops.push(WorldMutation::RemoveControlSet { entity });
                }
                world.records[i].control_set = Some(new_set);
                world.records[i].hierarchy = h_opt;
                proof {
                    assert(world.records@ =~= wpost.update(
                        i as int,
                        EntityRecord {
                            control_set: Some(new_set),
                            hierarchy: wm[i as int].hierarchy,
                            ..wpost[i as int]
                        },
                    ));
                    assert(spec_entity_pass(
                        *storage,
                        samplers.loaded@,
                        i as int,
                        wm,
                        world.records@,
                        bm,
                        buffer.ops@,
                        nm,
                        *next_id,
                    ));
                }
            },
            None => {
                proof {
                    assert(world.records@ =~= wm);
                    assert(spec_entity_pass(
                        *storage,
                        samplers.loaded@,
                        i as int,
                        wm,
                        world.records@,
                        bm,
                        buffer.ops@,
                        nm,
                        *next_id,
                    ));
                }
            },
        }
        proof {
            tw = tw.push(world.records@);
            tb = tb.push(buffer.ops@);
            tn = tn.push(*next_id);
        }
        i += 1;
    }
    let ghost pre_apply = world.records@;
    let ghost ops = buffer.ops@;
    let ghost n_final = *next_id;
    apply_mutations(world, buffer);
    proof {
        assert(spec_tick_trace(*storage, samplers.loaded@, tw, tb, tn));
        assert(tw[tw.len() - 1] == pre_apply && tb[tw.len() - 1] == ops && tn[tw.len() - 1]
            == n_final);
        assert forall|t: int| 0 <= t < old(world).records@.len() implies (#[trigger] world
            .records@[t]).entity == old(world).records@[t].entity && world.records@[t].has_target
            == old(world).records@[t].has_target && world.records@[t].live == old(
            world,
        ).records@[t].live by {
            lemma_apply_ops_entity(pre_apply[t], ops);
        };
        assert forall|t: int, k: int|
            #![trigger world.records@[t].control_set->0.animations@[k]]
            0 <= t < world.records@.len() && world.records@[t].control_set is Some
                && 0 <= k < world.records@[t].control_set->0.animations@.len() implies !world
            .records@[t].control_set->0.animations@[k].1.command.is_one_shot() by {
            lemma_apply_ops_control_set(pre_apply[t], ops);
            assert(world.records@[t].control_set == pre_apply[t].control_set);
        };
    }
}

} // verus!
