//! Node-to-entity mapping of one animation instance.
//!
//! An animation definition names abstract node indices; the hierarchy maps
//! each of them to a concrete target entity. It is supplied by the caller
//! for multi-node animations and synthesized as a single-entry map when the
//! animation touches exactly one node.

use vstd::prelude::*;

use crate::state::Entity;

verus! {

/// Mapping from node index to target entity for one animation instance.
#[derive(Debug, Clone, PartialEq, Eq)]
pub struct AnimationHierarchy {
    /// `(node index, target entity)` pairs; node indices are unique.
    pub nodes: Vec<(usize, Entity)>,
}

/// True when `s` maps node index `idx`.
pub open spec fn spec_contains_node(s: Seq<(usize, Entity)>, idx: usize) -> bool {
    exists|i: int| 0 <= i < s.len() && s[i].0 == idx
}

/// The entity that the first entry for `idx` maps to, if any. Under
/// [`AnimationHierarchy::wf`] the first entry is the only one.
pub open spec fn spec_node_entity(s: Seq<(usize, Entity)>, idx: usize) -> Option<Entity>
    decreases s.len(),
{
    if s.len() == 0 {
        None
    } else if s[0].0 == idx {
        Some(s[0].1)
    } else {
        spec_node_entity(s.drop_first(), idx)
    }
}

/// True when `s` maps some node to entity `e`.
pub open spec fn spec_targets_entity(s: Seq<(usize, Entity)>, e: Entity) -> bool {
    exists|i: int| 0 <= i < s.len() && s[i].1 == e
}

impl AnimationHierarchy {
    /// Well-formed: each node index appears at most once.
    pub open spec fn wf(self) -> bool {
        forall|i: int, j: int|
            0 <= i < j < self.nodes@.len() ==> self.nodes@[i].0 != self.nodes@[j].0
    }

    /// An empty mapping.
    pub fn new() -> (r: AnimationHierarchy)
        ensures
            r.nodes@.len() == 0,
            r.wf(),
    {
        AnimationHierarchy { nodes: Vec::new() }
    }

    /// The one-entry mapping used for single-node animations.
    pub fn new_single(node_index: usize, entity: Entity) -> (r: AnimationHierarchy)
        ensures
            r.nodes@ == seq![(node_index, entity)],
            r.wf(),
    {
        let mut nodes: Vec<(usize, Entity)> = Vec::new();
        nodes.push((node_index, entity));
        proof {
            assert(nodes@ =~= seq![(node_index, entity)]);
        }
        AnimationHierarchy { nodes }
    }

    /// Adds a mapping for a node index not mapped yet.
    pub fn add_node(&mut self, node_index: usize, entity: Entity)
        requires
            old(self).wf(),
            !spec_contains_node(old(self).nodes@, node_index),
        ensures
            final(self).nodes@ == old(self).nodes@.push((node_index, entity)),
            final(self).wf(),
    {
        self.nodes.push((node_index, entity));
    }

    /// Number of mapped nodes.
    pub fn len(&self) -> (r: usize)
        ensures
            r == self.nodes@.len(),
    {
        self.nodes.len()
    }

    /// True when the hierarchy maps node index `idx`.
    pub fn contains_node(&self, idx: usize) -> (r: bool)
        ensures
            r == spec_contains_node(self.nodes@, idx),
    {
        let n = self.nodes.len();
        let mut j: usize = 0;
        while j < n
            invariant
                j <= n,
                n == self.nodes@.len(),
                forall|i: int| 0 <= i < j ==> self.nodes@[i].0 != idx,
            decreases n - j,
        {
            if self.nodes[j].0 == idx {
                return true;
            }
            j += 1;
        }
        false
    }

    /// The entity mapped by node index `idx`, if any.
    pub fn get(&self, idx: usize) -> (r: Option<Entity>)
        ensures
            r == spec_node_entity(self.nodes@, idx),
            r is Some <==> spec_contains_node(self.nodes@, idx),
    {
        let n = self.nodes.len();
        let mut j: usize = 0;
        proof {
            assert(self.nodes@.skip(0) =~= self.nodes@);
        }
        while j < n
            invariant
                j <= n,
                n == self.nodes@.len(),
                forall|i: int| 0 <= i < j ==> self.nodes@[i].0 != idx,
                spec_node_entity(self.nodes@, idx) == spec_node_entity(
                    self.nodes@.skip(j as int),
                    idx,
                ),
            decreases n - j,
        {
            proof {
                assert(self.nodes@.skip(j as int)[0] == self.nodes@[j as int]);
                assert(self.nodes@.skip(j as int).drop_first() =~= self.nodes@.skip(j + 1));
            }
            if self.nodes[j].0 == idx {
                return Some(self.nodes[j].1);
            }
            j += 1;
        }
        proof {
            assert(self.nodes@.skip(n as int).len() == 0);
        }
        None
    }

    /// The entity of the first mapped node, or `fallback` when the mapping
    /// is empty. Used to pick the node whose sampler controls report the
    /// running duration of the instance.
    pub fn first_entity(&self, fallback: Entity) -> (r: Entity)
        ensures
            r == (if self.nodes@.len() > 0 {
                self.nodes@[0].1
            } else {
                fallback
            }),
    {
        if self.nodes.len() > 0 {
            self.nodes[0].1
        } else {
            fallback
        }
    }
}

} // verus!
