//! Animation definitions and the modelled asset stores.
//!
//! The asset pipeline that loads definitions and samplers from disk is a
//! collaborator outside this crate; here an asset is its identifier, a
//! sampler store is the set of identifiers already loaded, and a definition
//! store maps identifiers to definitions.

use vstd::prelude::*;

use crate::state::{AnimationId, ChannelId, SamplerId};

verus! {

/// One entry of an animation definition: the sampler driving one channel of
/// one node.
#[derive(Debug, Clone, Copy, PartialEq, Eq)]
pub struct AnimationNode {
    /// Abstract node slot, resolved to an entity through the hierarchy.
    pub node_index: usize,
    /// Channel of the target component.
    pub channel: ChannelId,
    /// Sampler asset driving the channel.
    pub sampler: SamplerId,
}

/// Immutable animation definition: an ordered list of node entries.
#[derive(Debug, Clone, PartialEq, Eq)]
pub struct Animation {
    /// The entries, in definition order.
    pub nodes: Vec<AnimationNode>,
}

/// True when every entry of `s` names the same node index, so that no
/// explicit hierarchy is needed. An empty definition counts as single-node.
pub open spec fn spec_only_one_index(s: Seq<AnimationNode>) -> bool {
    forall|i: int| 0 <= i < s.len() ==> (#[trigger] s[i].node_index) == s[0].node_index
}

impl Animation {
    /// Well-formed: a definition drives at least one node.
    pub open spec fn wf(self) -> bool {
        self.nodes@.len() > 0
    }

    /// True when every entry names the same node index.
    pub fn only_one_index(&self) -> (r: bool)
        ensures
            r == spec_only_one_index(self.nodes@),
    {
        if self.nodes.len() == 0 {
            return true;
        }
        let first = self.nodes[0].node_index;
        let n = self.nodes.len();
        let mut j: usize = 0;
        while j < n
            invariant
                j <= n,
                n == self.nodes@.len(),
                n > 0,
                first == self.nodes@[0].node_index,
                forall|i: int| 0 <= i < j ==> self.nodes@[i].node_index == first,
            decreases n - j,
        {
            if self.nodes[j].node_index != first {
                return false;
            }
            j += 1;
        }
        true
    }
}

/// The sampler assets that have finished loading, by identifier.
#[derive(Debug, Clone, PartialEq, Eq, Default)]
pub struct SamplerAssets {
    /// Identifiers of the loaded sampler assets.
    pub loaded: Vec<SamplerId>,
}

impl SamplerAssets {
    /// True when the sampler asset is loaded.
    pub fn is_loaded(&self, sampler: SamplerId) -> (r: bool)
        ensures
            r == self.loaded@.contains(sampler),
    {
        let n = self.loaded.len();
        let mut j: usize = 0;
        while j < n
            invariant
                j <= n,
                n == self.loaded@.len(),
                forall|i: int| 0 <= i < j ==> self.loaded@[i] != sampler,
            decreases n - j,
        {
            if self.loaded[j] == sampler {
                proof {
                    assert(self.loaded@[j as int] == sampler);
                }
                return true;
            }
            j += 1;
        }
        false
    }
}

/// The animation definitions that have finished loading, by identifier.
#[derive(Debug, Clone, PartialEq, Eq, Default)]
pub struct AnimationStorage {
    /// `(identifier, definition)` pairs; identifiers are unique.
    pub animations: Vec<(AnimationId, Animation)>,
}

/// The first stored definition under the identifier, if any. Under
/// [`AnimationStorage::wf`] the first entry is the only one.
pub open spec fn spec_storage_lookup(s: Seq<(AnimationId, Animation)>, id: AnimationId) -> Option<
    Animation,
>
    decreases s.len(),
{
    if s.len() == 0 {
        None
    } else if s[0].0 == id {
        Some(s[0].1)
    } else {
        spec_storage_lookup(s.drop_first(), id)
    }
}

impl AnimationStorage {
    /// Well-formed: identifiers are unique and every stored definition
    /// drives at least one node.
    pub open spec fn wf(self) -> bool {
        &&& forall|i: int, j: int|
            0 <= i < j < self.animations@.len() ==> self.animations@[i].0 != self.animations@[j].0
        &&& forall|i: int| 0 <= i < self.animations@.len() ==> self.animations@[i].1.wf()
    }

    /// Position of the definition with the given identifier, if loaded.
    pub fn find(&self, id: AnimationId) -> (r: Option<usize>)
        ensures
            match r {
                Some(k) => k < self.animations@.len() && self.animations@[k as int].0 == id
                    && spec_storage_lookup(self.animations@, id) == Some(
                    self.animations@[k as int].1,
                ),
                None => spec_storage_lookup(self.animations@, id) is None && forall|i: int|
                    0 <= i < self.animations@.len() ==> self.animations@[i].0 != id,
            },
    {
        let n = self.animations.len();
        let mut j: usize = 0;
        proof {
            assert(self.animations@.skip(0) =~= self.animations@);
        }
        while j < n
            invariant
                j <= n,
                n == self.animations@.len(),
                forall|i: int| 0 <= i < j ==> self.animations@[i].0 != id,
                spec_storage_lookup(self.animations@, id) == spec_storage_lookup(
                    self.animations@.skip(j as int),
                    id,
                ),
            decreases n - j,
        {
            proof {
                assert(self.animations@.skip(j as int)[0] == self.animations@[j as int]);
                assert(self.animations@.skip(j as int).drop_first() =~= self.animations@.skip(
                    j + 1,
                ));
            }
            if self.animations[j].0 == id {
                return Some(j);
            }
            j += 1;
        }
        proof {
            assert(self.animations@.skip(n as int).len() == 0);
        }
        None
    }
}

} // verus!
