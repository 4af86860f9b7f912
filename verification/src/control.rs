//! Animation instances and the per-entity set of them.
//!
//! An `AnimationControl` is one running or queued instance of an animation
//! definition; an `AnimationControlSet` keys the active instances of one
//! entity by a caller-supplied logical id and queues instances deferred on
//! the progress of a sibling instance.

use vstd::prelude::*;

use crate::state::{
    AnimationCommand, AnimationId, ControlState, DeferStartRelation, EndControl, Scalar,
};

verus! {

/// One running or queued occurrence of an animation definition.
#[derive(Debug, Clone, PartialEq, Eq)]
pub struct AnimationControl {
    /// Identifier of the animation definition this instance plays.
    pub animation: AnimationId,
    /// Runtime id keying the per-node sampler controls; assigned at start.
    pub id: u64,
    /// Current state of the instance's state machine.
    pub state: ControlState,
    /// Pending caller command.
    pub command: AnimationCommand,
    /// Opaque rate multiplier, fanned out to the per-node controls.
    pub rate_multiplier: Scalar,
    /// End-of-playback policy, fanned out to the per-node controls.
    pub end: EndControl,
}

impl AnimationControl {
    /// A fresh instance in `Requested` state with the given command.
    pub fn new(
        animation: AnimationId,
        command: AnimationCommand,
        rate_multiplier: Scalar,
        end: EndControl,
    ) -> (r: AnimationControl)
        ensures
            r.animation == animation,
            r.id == 0,
            r.state == ControlState::Requested,
            r.command == command,
            r.rate_multiplier == rate_multiplier,
            r.end == end,
    {
        AnimationControl {
            animation,
            id: 0,
            state: ControlState::Requested,
            command,
            rate_multiplier,
            end,
        }
    }
}

/// An instance queued to start once a sibling instance reaches an offset.
#[derive(Debug, Clone, PartialEq, Eq)]
pub struct DeferredAnimation {
    /// Logical id the instance will run under once promoted.
    pub animation_id: u64,
    /// Logical id of the instance it waits on.
    pub dependency_id: u64,
    /// When, relative to the dependency, the instance may begin.
    pub relation: DeferStartRelation,
    /// The queued instance itself.
    pub control: AnimationControl,
}

/// True when `s` holds an instance under logical id `id`.
pub open spec fn spec_has_key(s: Seq<(u64, AnimationControl)>, id: u64) -> bool {
    exists|i: int| 0 <= i < s.len() && s[i].0 == id
}

/// True when `s` holds a deferred instance under logical id `id`.
pub open spec fn spec_deferred_has_key(s: Seq<DeferredAnimation>, id: u64) -> bool {
    exists|i: int| 0 <= i < s.len() && s[i].animation_id == id
}

/// The entries of `s` whose key is not `id`, in order.
pub open spec fn spec_remove_key(
    s: Seq<(u64, AnimationControl)>,
    id: u64,
) -> Seq<(u64, AnimationControl)>
    decreases s.len(),
{
    if s.len() == 0 {
        Seq::empty()
    } else {
        let rest = spec_remove_key(s.drop_last(), id);
        if s.last().0 == id {
            rest
        } else {
            rest.push(s.last())
        }
    }
}

/// All active and queued animation instances of one entity.
#[derive(Debug, Clone, PartialEq, Eq, Default)]
pub struct AnimationControlSet {
    /// Active instances, keyed by logical id.
    pub animations: Vec<(u64, AnimationControl)>,
    /// Instances waiting on the progress of a sibling instance.
    pub deferred_animations: Vec<DeferredAnimation>,
}

impl AnimationControlSet {
    /// Well-formed: logical ids are unique across both lists, so only one
    /// instance runs under an id at a time.
    pub open spec fn wf(self) -> bool {
        &&& forall|i: int, j: int|
            0 <= i < j < self.animations@.len() ==> self.animations@[i].0 != self.animations@[j].0
        &&& forall|i: int, j: int|
            0 <= i < j < self.deferred_animations@.len() ==> self.deferred_animations@[i].animation_id
                != self.deferred_animations@[j].animation_id
        &&& forall|i: int, j: int|
            0 <= i < self.animations@.len() && 0 <= j < self.deferred_animations@.len()
                ==> self.animations@[i].0 != self.deferred_animations@[j].animation_id
    }

    /// An empty set.
    pub fn new() -> (r: AnimationControlSet)
        ensures
            r.animations@.len() == 0,
            r.deferred_animations@.len() == 0,
            r.wf(),
    {
        AnimationControlSet { animations: Vec::new(), deferred_animations: Vec::new() }
    }

    /// True when no instance, active or deferred, is held.
    pub fn is_empty(&self) -> (r: bool)
        ensures
            r == (self.animations@.len() == 0 && self.deferred_animations@.len() == 0),
    {
        self.animations.len() == 0 && self.deferred_animations.len() == 0
    }

    /// True when an active instance runs under the logical id.
    pub fn has_animation(&self, id: u64) -> (r: bool)
        ensures
            r == spec_has_key(self.animations@, id),
    {
        let n = self.animations.len();
        let mut j: usize = 0;
        while j < n
            invariant
                j <= n,
                n == self.animations@.len(),
                forall|i: int| 0 <= i < j ==> self.animations@[i].0 != id,
            decreases n - j,
        {
            if self.animations[j].0 == id {
                return true;
            }
            j += 1;
        }
        false
    }

    /// True when a deferred instance is queued under the logical id.
    pub fn has_deferred_animation(&self, id: u64) -> (r: bool)
        ensures
            r == spec_deferred_has_key(self.deferred_animations@, id),
    {
        let n = self.deferred_animations.len();
        let mut j: usize = 0;
        while j < n
            invariant
                j <= n,
                n == self.deferred_animations@.len(),
                forall|i: int| 0 <= i < j ==> self.deferred_animations@[i].animation_id != id,
            decreases n - j,
        {
            if self.deferred_animations[j].animation_id == id {
                return true;
            }
            j += 1;
        }
        false
    }

    /// Adds an active instance under a logical id; an id already in use, in
    /// either list, leaves the set untouched.
    pub fn insert(&mut self, id: u64, control: AnimationControl)
        ensures
            final(self).deferred_animations@ == old(self).deferred_animations@,
            final(self).animations@ == (if spec_has_key(old(self).animations@, id)
                || spec_deferred_has_key(old(self).deferred_animations@, id) {
                old(self).animations@
            } else {
                old(self).animations@.push((id, control))
            }),
            old(self).wf() ==> final(self).wf(),
    {
        if self.has_animation(id) || self.has_deferred_animation(id) {
            return ;
        }
        self.animations.push((id, control));
    }

    /// Queues a deferred instance under a logical id; an id already in use,
    /// in either list, leaves the set untouched.
    pub fn insert_deferred(&mut self, deferred: DeferredAnimation)
        ensures
            final(self).animations@ == old(self).animations@,
            final(self).deferred_animations@ == (if spec_has_key(
                old(self).animations@,
                deferred.animation_id,
            ) || spec_deferred_has_key(old(self).deferred_animations@, deferred.animation_id) {
                old(self).deferred_animations@
            } else {
                old(self).deferred_animations@.push(deferred)
            }),
            old(self).wf() ==> final(self).wf(),
    {
        if self.has_animation(deferred.animation_id) || self.has_deferred_animation(
            deferred.animation_id,
        ) {
            return ;
        }
        self.deferred_animations.push(deferred);
    }

    /// Removes the active instance under the logical id, if any.
    pub fn remove(&mut self, id: u64)
        ensures
            final(self).animations@ == spec_remove_key(old(self).animations@, id),
            final(self).deferred_animations@ == old(self).deferred_animations@,
    {
        let ghost orig = self.animations@;
        let mut kept: Vec<(u64, AnimationControl)> = Vec::new();
        let ghost mut j: int = 0;
        while self.animations.len() > 0
            invariant
                0 <= j <= orig.len(),
                self.animations@ == orig.skip(j),
                self.deferred_animations@ == old(self).deferred_animations@,
                kept@ == spec_remove_key(orig.take(j), id),
            decreases self.animations@.len(),
        {
            proof {
                assert(orig.take(j + 1).drop_last() =~= orig.take(j));
                assert(orig.take(j + 1).last() == orig[j]);
                assert(orig.skip(j)[0] == orig[j]);
                assert(orig.skip(j).remove(0) =~= orig.skip(j + 1));
            }
            let entry = self.animations.remove(0);
            if entry.0 != id {
                kept.push(entry);
            }
            proof {
                j = j + 1;
            }
        }
        proof {
            assert(orig.take(j) =~= orig);
        }
        self.animations = kept;
    }
}

} // verus!
