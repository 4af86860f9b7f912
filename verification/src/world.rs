//! Explicit model of the host's entity/component store.
//!
//! A `World` is a list of entity records, each carrying the components this
//! control plane reads or writes: the animated target value, the optional
//! rest-state snapshot, the per-entity sampler control set, the per-entity
//! animation control set, and the optional explicit hierarchy. Structural
//! changes — attaching or detaching whole components — are buffered as
//! `WorldMutation`s during a tick and applied only after the pass, so that
//! no record observes another's half-applied change mid-tick.

use vstd::prelude::*;

use crate::control::AnimationControlSet;
use crate::hierarchy::AnimationHierarchy;
use crate::sampler::SamplerControlSet;
use crate::state::{Entity, Scalar};

verus! {

/// Components of one entity, as far as this control plane sees them.
#[derive(Debug, Clone, PartialEq, Eq)]
pub struct EntityRecord {
    /// Identifier of the entity in the host's store.
    pub entity: Entity,
    /// True when the entity carries the animated target component.
    pub has_target: bool,
    /// Current value of the animated component; meaningful only when
    /// `has_target` holds.
    pub live: Scalar,
    /// Rest-state snapshot: the value before any animation touched it.
    pub rest: Option<Scalar>,
    /// Per-node sampler controls attached to the entity, if any.
    pub samplers: Option<SamplerControlSet>,
    /// Animation instances owned by the entity, if any.
    pub control_set: Option<AnimationControlSet>,
    /// Explicit node-to-entity mapping for the entity's instances, if any.
    pub hierarchy: Option<AnimationHierarchy>,
}

/// One buffered structural change, applied only after the per-tick pass.
#[derive(Debug, Clone, PartialEq, Eq)]
pub enum WorldMutation {
    /// Attach a sampler control set to the entity, replacing any present.
    AddSamplerSet { entity: Entity, set: SamplerControlSet },
    /// Detach the entity's sampler control set.
    RemoveSamplerSet { entity: Entity },
    /// Record the entity's rest-state snapshot.
    SetRest { entity: Entity, value: Scalar },
    /// Detach the entity's animation control set.
    RemoveControlSet { entity: Entity },
}

/// The buffered structural changes of one tick, in order.
#[derive(Debug, Clone, PartialEq, Eq, Default)]
pub struct MutationBuffer {
    /// The changes, applied first to last.
    pub ops: Vec<WorldMutation>,
}

impl MutationBuffer {
    /// An empty buffer.
    pub fn new() -> (r: MutationBuffer)
        ensures
            r.ops@.len() == 0,
    {
        MutationBuffer { ops: Vec::new() }
    }
}

/// One record after one buffered change. A change naming another entity, or
/// an entity absent from the store, leaves the record alone.
pub open spec fn spec_apply_one(r: EntityRecord, op: WorldMutation) -> EntityRecord {
    match op {
        WorldMutation::AddSamplerSet { entity, set } => {
            if r.entity == entity {
                EntityRecord { samplers: Some(set), ..r }
            } else {
                r
            }
        },
        WorldMutation::RemoveSamplerSet { entity } => {
            if r.entity == entity {
                EntityRecord { samplers: None, ..r }
            } else {
                r
            }
        },
        WorldMutation::SetRest { entity, value } => {
            if r.entity == entity {
                EntityRecord { rest: Some(value), ..r }
            } else {
                r
            }
        },
        WorldMutation::RemoveControlSet { entity } => {
            if r.entity == entity {
                EntityRecord { control_set: None, ..r }
            } else {
                r
            }
        },
    }
}

/// One record after a sequence of buffered changes, first to last.
pub open spec fn spec_apply_ops(r: EntityRecord, ops: Seq<WorldMutation>) -> EntityRecord
    decreases ops.len(),
{
    if ops.len() == 0 {
        r
    } else {
        spec_apply_ops(spec_apply_one(r, ops[0]), ops.drop_first())
    }
}

/// Appending one change applies it after the others.
pub proof fn lemma_apply_ops_snoc(r: EntityRecord, ops: Seq<WorldMutation>, op: WorldMutation)
    ensures
        spec_apply_ops(r, ops.push(op)) == spec_apply_one(spec_apply_ops(r, ops), op),
    decreases ops.len(),
{
    let s = ops.push(op);
    assert(s.len() == ops.len() + 1);
    if ops.len() == 0 {
        assert(s[0] == op);
        assert(s.drop_first() =~= Seq::<WorldMutation>::empty());
        assert(spec_apply_ops(r, s) == spec_apply_ops(spec_apply_one(r, op), s.drop_first()));
        assert(spec_apply_ops(spec_apply_one(r, op), s.drop_first()) == spec_apply_one(r, op));
        assert(spec_apply_ops(r, ops) == r);
    } else {
        assert(s[0] == ops[0]);
        assert(s.drop_first() =~= ops.drop_first().push(op));
        lemma_apply_ops_snoc(spec_apply_one(r, ops[0]), ops.drop_first(), op);
        assert(spec_apply_ops(r, s) == spec_apply_ops(spec_apply_one(r, ops[0]), s.drop_first()));
        assert(spec_apply_ops(r, ops) == spec_apply_ops(spec_apply_one(r, ops[0]), ops.drop_first()));
    }
}

/// The first record of the entity, if any. Under unique entities the
/// first record is the only one.
pub open spec fn spec_record_of(s: Seq<EntityRecord>, e: Entity) -> Option<EntityRecord>
    decreases s.len(),
{
    if s.len() == 0 {
        None
    } else if s[0].entity == e {
        Some(s[0])
    } else {
        spec_record_of(s.drop_first(), e)
    }
}

/// The host's store, as this control plane sees it.
#[derive(Debug, Clone, PartialEq, Eq, Default)]
pub struct World {
    /// One record per entity; entity identifiers are unique.
    pub records: Vec<EntityRecord>,
}

/// True when no two records of `s` name the same entity.
pub open spec fn spec_unique_entities(s: Seq<EntityRecord>) -> bool {
    forall|i: int, j: int| 0 <= i < j < s.len() ==> s[i].entity != s[j].entity
}

impl World {
    /// Well-formed: entities are unique, and every held hierarchy and
    /// control set is itself well-formed.
    pub open spec fn wf(self) -> bool {
        &&& spec_unique_entities(self.records@)
        &&& forall|i: int|
            0 <= i < self.records@.len() ==> match (#[trigger] self.records@[i]).hierarchy {
                Some(h) => h.wf(),
                None => true,
            }
        &&& forall|i: int|
            0 <= i < self.records@.len() ==> match (#[trigger] self.records@[i]).control_set {
                Some(cs) => cs.wf(),
                None => true,
            }
    }

    /// An empty store.
    pub fn new() -> (r: World)
        ensures
            r.records@.len() == 0,
            r.wf(),
    {
        World { records: Vec::new() }
    }

    /// Position of the record for the entity, if one exists.
    pub fn find(&self, entity: Entity) -> (r: Option<usize>)
        ensures
            match r {
                Some(k) => k < self.records@.len() && self.records@[k as int].entity == entity
                    && spec_record_of(self.records@, entity) == Some(self.records@[k as int]),
                None => spec_record_of(self.records@, entity) is None && forall|i: int|
                    0 <= i < self.records@.len() ==> self.records@[i].entity != entity,
            },
    {
        let n = self.records.len();
        let mut j: usize = 0;
        proof {
            assert(self.records@.skip(0) =~= self.records@);
        }
        while j < n
            invariant
                j <= n,
                n == self.records@.len(),
                forall|i: int| 0 <= i < j ==> self.records@[i].entity != entity,
                spec_record_of(self.records@, entity) == spec_record_of(
                    self.records@.skip(j as int),
                    entity,
                ),
            decreases n - j,
        {
            proof {
                assert(self.records@.skip(j as int)[0] == self.records@[j as int]);
                assert(self.records@.skip(j as int).drop_first() =~= self.records@.skip(j + 1));
            }
            if self.records[j].entity == entity {
                return Some(j);
            }
            j += 1;
        }
        proof {
            assert(self.records@.skip(n as int).len() == 0);
        }
        None
    }
}

/// Applies the buffered structural changes to the store, first to last,
/// consuming the buffer. Each record ends as the fold of all changes over
/// its starting value; records never named end unchanged.
pub fn apply_mutations(world: &mut World, buffer: MutationBuffer)
    requires
        spec_unique_entities(old(world).records@),
    ensures
        final(world).records@.len() == old(world).records@.len(),
        forall|r: int|
            0 <= r < old(world).records@.len() ==> final(world).records@[r] == spec_apply_ops(
                old(world).records@[r],
                buffer.ops@,
            ),
{
    let ghost all_ops = buffer.ops@;
    let mut ops = buffer.ops;
    let ghost mut k: int = 0;
    while ops.len() > 0
        invariant
            0 <= k <= all_ops.len(),
            ops@ == all_ops.skip(k),
            world.records@.len() == old(world).records@.len(),
            forall|r: int|
                0 <= r < old(world).records@.len() ==> (#[trigger] world.records@[r]).entity == old(
                    world,
                ).records@[r].entity,
            spec_unique_entities(world.records@),
            forall|r: int|
                0 <= r < old(world).records@.len() ==> #[trigger] world.records@[r]
                    == spec_apply_ops(old(world).records@[r], all_ops.take(k)),
        decreases ops@.len(),
    {
        proof {
            assert(all_ops.skip(k)[0] == all_ops[k]);
            assert(all_ops.skip(k).remove(0) =~= all_ops.skip(k + 1));
            assert(all_ops.take(k + 1) =~= all_ops.take(k).push(all_ops[k]));
        }
        let op = ops.remove(0);
        let ghost pre = world.records@;
        let target = match &op {
            WorldMutation::AddSamplerSet { entity, set: _ } => *entity,
            WorldMutation::RemoveSamplerSet { entity } => *entity,
            WorldMutation::SetRest { entity, value: _ } => *entity,
            WorldMutation::RemoveControlSet { entity } => *entity,
        };
        let pos = world.find(target);
        match pos {
            Some(p) => {
                match op {
                    WorldMutation::AddSamplerSet { entity: _, set } => {
                        world.records[p].samplers = Some(set);
                    },
                    WorldMutation::RemoveSamplerSet { entity: _ } => {
                        world.records[p].samplers = None;
                    },
                    WorldMutation::SetRest { entity: _, value } => {
                        world.records[p].rest = Some(value);
                    },
                    WorldMutation::RemoveControlSet { entity: _ } => {
                        world.records[p].control_set = None;
                    },
                }
                proof {
                    assert forall|r: int| 0 <= r < pre.len() implies #[trigger] world.records@[r]
                        == spec_apply_one(pre[r], all_ops[k]) by {
                        if r != p {
                            assert(pre[r].entity != target);
                        }
                    };
                }
            },
            None => {
                proof {
                    assert forall|r: int| 0 <= r < pre.len() implies #[trigger] world.records@[r]
                        == spec_apply_one(pre[r], all_ops[k]) by {
                        assert(pre[r].entity != target);
                    };
                }
            },
        }
        proof {
            assert forall|r: int| 0 <= r < old(world).records@.len() implies #[trigger] world
                .records@[r] == spec_apply_ops(old(world).records@[r], all_ops.take(k + 1)) by {
                lemma_apply_ops_snoc(old(world).records@[r], all_ops.take(k), all_ops[k]);
            };
            k = k + 1;
        }
    }
    proof {
        assert(all_ops.take(k) =~= all_ops);
    }
}

} // verus!
