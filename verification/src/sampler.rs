//! Per-node sampler controls and the per-entity collection of them.
//!
//! A `SamplerControl` mirrors the state of one animation instance on one
//! target node; a `SamplerControlSet` holds all active controls of one
//! entity, keyed by the runtime id of the owning instance. Every mutating
//! operation is specified per element by a spec-level mirror function.

use vstd::prelude::*;

use crate::state::{ChannelId, ControlState, EndControl, Millis, SamplerId, Scalar, StepDirection};

verus! {

/// State of one animation instance on one target node.
#[derive(Debug, Clone, Copy, PartialEq, Eq)]
pub struct SamplerControl {
    /// Runtime id of the owning animation instance.
    pub control_id: u64,
    /// Channel of the target component this control drives.
    pub channel: ChannelId,
    /// Mirror of the owning instance's state.
    pub state: ControlState,
    /// Sampler asset driving the channel.
    pub sampler: SamplerId,
    /// End-of-playback policy, copied from the owning instance.
    pub end: EndControl,
    /// Anchor value: the target's value when the animation began.
    pub after: Scalar,
    /// Rate multiplier, copied from the owning instance.
    pub rate_multiplier: Scalar,
    /// Blend weight of this control.
    pub blend_weight: Scalar,
    /// One-frame step directive awaiting the sampling layer, if any.
    pub pending_step: Option<StepDirection>,
}

/// All active sampler controls of one entity, keyed by runtime id.
#[derive(Debug, Clone, PartialEq, Eq, Default)]
pub struct SamplerControlSet {
    /// The controls, in order of creation.
    pub samplers: Vec<SamplerControl>,
}

/// A control after a pause directive: a running control freezes at its
/// elapsed time; every other state is left alone.
pub open spec fn spec_pause_ctrl(c: SamplerControl, id: u64) -> SamplerControl {
    if c.control_id == id {
        match c.state {
            ControlState::Running(d) => SamplerControl { state: ControlState::Paused(d), ..c },
            _ => c,
        }
    } else {
        c
    }
}

/// A control after an unpause directive: a paused control resumes at its
/// frozen elapsed time; every other state is left alone.
pub open spec fn spec_unpause_ctrl(c: SamplerControl, id: u64) -> SamplerControl {
    if c.control_id == id {
        match c.state {
            ControlState::Paused(d) => SamplerControl { state: ControlState::Running(d), ..c },
            _ => c,
        }
    } else {
        c
    }
}

/// A control after an abort directive: anything not already done is asked
/// to stop.
pub open spec fn spec_abort_ctrl(c: SamplerControl, id: u64) -> SamplerControl {
    if c.control_id == id && !(c.state is Done) {
        SamplerControl { state: ControlState::Abort, ..c }
    } else {
        c
    }
}

/// A control after a step directive: a running control records the
/// directive for the sampling layer to consume.
pub open spec fn spec_step_ctrl(c: SamplerControl, id: u64, dir: StepDirection) -> SamplerControl {
    if c.control_id == id && c.state is Running {
        SamplerControl { pending_step: Some(dir), ..c }
    } else {
        c
    }
}

/// A control after an input directive: a running control's elapsed time is
/// forced to the given value.
pub open spec fn spec_set_input_ctrl(c: SamplerControl, id: u64, input: Millis) -> SamplerControl {
    if c.control_id == id && c.state is Running {
        SamplerControl { state: ControlState::Running(input), ..c }
    } else {
        c
    }
}

/// A control after a rate directive.
pub open spec fn spec_set_rate_ctrl(c: SamplerControl, id: u64, rate: Scalar) -> SamplerControl {
    if c.control_id == id {
        SamplerControl { rate_multiplier: rate, ..c }
    } else {
        c
    }
}

/// A control after a blend-weight directive for one channel.
pub open spec fn spec_set_weight_ctrl(
    c: SamplerControl,
    id: u64,
    channel: ChannelId,
    weight: Scalar,
) -> SamplerControl {
    if c.control_id == id && c.channel == channel {
        SamplerControl { blend_weight: weight, ..c }
    } else {
        c
    }
}

/// `new_s` is `old_s` with `f` applied to every element.
pub open spec fn seq_mapped(
    old_s: Seq<SamplerControl>,
    new_s: Seq<SamplerControl>,
    f: spec_fn(SamplerControl) -> SamplerControl,
) -> bool {
    &&& new_s.len() == old_s.len()
    &&& forall|i: int| 0 <= i < old_s.len() ==> new_s[i] == f(old_s[i])
}

/// The controls of `s` that do not belong to runtime id `id`, in order.
pub open spec fn spec_clear_seq(s: Seq<SamplerControl>, id: u64) -> Seq<SamplerControl>
    decreases s.len(),
{
    if s.len() == 0 {
        Seq::empty()
    } else {
        let rest = spec_clear_seq(s.drop_last(), id);
        if s.last().control_id == id {
            rest
        } else {
            rest.push(s.last())
        }
    }
}

/// True when some control of `s` belongs to runtime id `id`.
pub open spec fn spec_has_control(s: Seq<SamplerControl>, id: u64) -> bool {
    exists|i: int| 0 <= i < s.len() && s[i].control_id == id
}

/// Elapsed running time shown by one control; zero when it is not running.
pub open spec fn spec_running_elapsed(c: SamplerControl) -> Millis {
    match c.state {
        ControlState::Running(d) => d,
        _ => 0,
    }
}

/// Largest elapsed running time among the controls of `s` under id `id`
/// (zero when none of them is running).
pub open spec fn spec_max_running(s: Seq<SamplerControl>, id: u64) -> Millis
    decreases s.len(),
{
    if s.len() == 0 {
        0
    } else {
        let rest = spec_max_running(s.drop_last(), id);
        let c = s.last();
        if c.control_id == id && spec_running_elapsed(c) > rest {
            spec_running_elapsed(c)
        } else {
            rest
        }
    }
}

/// True when every control of `s` under id `id` reports done. An id with no
/// controls left counts as terminated: there is nothing to reclaim.
pub open spec fn spec_terminated(s: Seq<SamplerControl>, id: u64) -> bool {
    forall|i: int| 0 <= i < s.len() && s[i].control_id == id ==> s[i].state is Done
}

impl SamplerControlSet {
    /// An empty collection.
    pub fn new() -> (r: SamplerControlSet)
        ensures
            r.samplers@.len() == 0,
    {
        SamplerControlSet { samplers: Vec::new() }
    }

    /// Number of controls held.
    pub fn len(&self) -> (r: usize)
        ensures
            r == self.samplers@.len(),
    {
        self.samplers.len()
    }

    /// True when no controls are held.
    pub fn is_empty(&self) -> (r: bool)
        ensures
            r == (self.samplers@.len() == 0),
    {
        self.samplers.len() == 0
    }

    /// Appends a control.
    pub fn add_control(&mut self, control: SamplerControl)
        ensures
            final(self).samplers@ == old(self).samplers@.push(control),
    {
        self.samplers.push(control);
    }

    /// Freezes every running control of the id at its elapsed time.
    pub fn pause(&mut self, control_id: u64)
        ensures
            seq_mapped(
                old(self).samplers@,
                final(self).samplers@,
                |c: SamplerControl| spec_pause_ctrl(c, control_id),
            ),
    {
        let n = self.samplers.len();
        let mut j: usize = 0;
        while j < n
            invariant
                j <= n,
                n == self.samplers@.len(),
                n == old(self).samplers@.len(),
                forall|i: int|
                    0 <= i < j ==> self.samplers@[i] == spec_pause_ctrl(
                        old(self).samplers@[i],
                        control_id,
                    ),
                forall|i: int| j <= i < n ==> self.samplers@[i] == old(self).samplers@[i],
            decreases n - j,
        {
            if self.samplers[j].control_id == control_id {
                match self.samplers[j].state {
                    ControlState::Running(d) => {
                        self.samplers[j].state = ControlState::Paused(d);
                    },
                    _ => {},
                }
            }
            j += 1;
        }
    }

    /// Resumes every paused control of the id at its frozen elapsed time.
    pub fn unpause(&mut self, control_id: u64)
        ensures
            seq_mapped(
                old(self).samplers@,
                final(self).samplers@,
                |c: SamplerControl| spec_unpause_ctrl(c, control_id),
            ),
    {
        let n = self.samplers.len();
        let mut j: usize = 0;
        while j < n
            invariant
                j <= n,
                n == self.samplers@.len(),
                n == old(self).samplers@.len(),
                forall|i: int|
                    0 <= i < j ==> self.samplers@[i] == spec_unpause_ctrl(
                        old(self).samplers@[i],
                        control_id,
                    ),
                forall|i: int| j <= i < n ==> self.samplers@[i] == old(self).samplers@[i],
            decreases n - j,
        {
            if self.samplers[j].control_id == control_id {
                match self.samplers[j].state {
                    ControlState::Paused(d) => {
                        self.samplers[j].state = ControlState::Running(d);
                    },
                    _ => {},
                }
            }
            j += 1;
        }
    }

    /// Asks every not-yet-done control of the id to stop.
    pub fn abort(&mut self, control_id: u64)
        ensures
            seq_mapped(
                old(self).samplers@,
                final(self).samplers@,
                |c: SamplerControl| spec_abort_ctrl(c, control_id),
            ),
    {
        let n = self.samplers.len();
        let mut j: usize = 0;
        while j < n
            invariant
                j <= n,
                n == self.samplers@.len(),
                n == old(self).samplers@.len(),
                forall|i: int|
                    0 <= i < j ==> self.samplers@[i] == spec_abort_ctrl(
                        old(self).samplers@[i],
                        control_id,
                    ),
                forall|i: int| j <= i < n ==> self.samplers@[i] == old(self).samplers@[i],
            decreases n - j,
        {
            if self.samplers[j].control_id == control_id {
                match self.samplers[j].state {
                    ControlState::Done => {},
                    _ => {
                        self.samplers[j].state = ControlState::Abort;
                    },
                }
            }
            j += 1;
        }
    }

    /// Records a one-frame step directive on every running control of the id.
    pub fn step(&mut self, control_id: u64, direction: StepDirection)
        ensures
            seq_mapped(
                old(self).samplers@,
                final(self).samplers@,
                |c: SamplerControl| spec_step_ctrl(c, control_id, direction),
            ),
    {
        let n = self.samplers.len();
        let mut j: usize = 0;
        while j < n
            invariant
                j <= n,
                n == self.samplers@.len(),
                n == old(self).samplers@.len(),
                forall|i: int|
                    0 <= i < j ==> self.samplers@[i] == spec_step_ctrl(
                        old(self).samplers@[i],
                        control_id,
                        direction,
                    ),
                forall|i: int| j <= i < n ==> self.samplers@[i] == old(self).samplers@[i],
            decreases n - j,
        {
            if self.samplers[j].control_id == control_id {
                match self.samplers[j].state {
                    ControlState::Running(_) => {
                        self.samplers[j].pending_step = Some(direction);
                    },
                    _ => {},
                }
            }
            j += 1;
        }
    }

    /// Forces the elapsed time of every running control of the id.
    pub fn set_input(&mut self, control_id: u64, input: Millis)
        ensures
            seq_mapped(
                old(self).samplers@,
                final(self).samplers@,
                |c: SamplerControl| spec_set_input_ctrl(c, control_id, input),
            ),
    {
        let n = self.samplers.len();
        let mut j: usize = 0;
        while j < n
            invariant
                j <= n,
                n == self.samplers@.len(),
                n == old(self).samplers@.len(),
                forall|i: int|
                    0 <= i < j ==> self.samplers@[i] == spec_set_input_ctrl(
                        old(self).samplers@[i],
                        control_id,
                        input,
                    ),
                forall|i: int| j <= i < n ==> self.samplers@[i] == old(self).samplers@[i],
            decreases n - j,
        {
            if self.samplers[j].control_id == control_id {
                match self.samplers[j].state {
                    ControlState::Running(_) => {
                        self.samplers[j].state = ControlState::Running(input);
                    },
                    _ => {},
                }
            }
            j += 1;
        }
    }

    /// Sets the rate multiplier of every control of the id.
    pub fn set_rate_multiplier(&mut self, control_id: u64, rate: Scalar)
        ensures
            seq_mapped(
                old(self).samplers@,
                final(self).samplers@,
                |c: SamplerControl| spec_set_rate_ctrl(c, control_id, rate),
            ),
    {
        let n = self.samplers.len();
        let mut j: usize = 0;
        while j < n
            invariant
                j <= n,
                n == self.samplers@.len(),
                n == old(self).samplers@.len(),
                forall|i: int|
                    0 <= i < j ==> self.samplers@[i] == spec_set_rate_ctrl(
                        old(self).samplers@[i],
                        control_id,
                        rate,
                    ),
                forall|i: int| j <= i < n ==> self.samplers@[i] == old(self).samplers@[i],
            decreases n - j,
        {
            if self.samplers[j].control_id == control_id {
                self.samplers[j].rate_multiplier = rate;
            }
            j += 1;
        }
    }

    /// Sets the blend weight of the id's control on one channel.
    pub fn set_blend_weight(&mut self, control_id: u64, channel: ChannelId, weight: Scalar)
        ensures
            seq_mapped(
                old(self).samplers@,
                final(self).samplers@,
                |c: SamplerControl| spec_set_weight_ctrl(c, control_id, channel, weight),
            ),
    {
        let n = self.samplers.len();
        let mut j: usize = 0;
        while j < n
            invariant
                j <= n,
                n == self.samplers@.len(),
                n == old(self).samplers@.len(),
                forall|i: int|
                    0 <= i < j ==> self.samplers@[i] == spec_set_weight_ctrl(
                        old(self).samplers@[i],
                        control_id,
                        channel,
                        weight,
                    ),
                forall|i: int| j <= i < n ==> self.samplers@[i] == old(self).samplers@[i],
            decreases n - j,
        {
            if self.samplers[j].control_id == control_id && self.samplers[j].channel == channel {
                self.samplers[j].blend_weight = weight;
            }
            j += 1;
        }
    }

    /// Removes every control of the id, keeping the others in order.
    pub fn clear(&mut self, control_id: u64)
        ensures
            final(self).samplers@ == spec_clear_seq(old(self).samplers@, control_id),
    {
        let n = self.samplers.len();
        let mut kept: Vec<SamplerControl> = Vec::new();
        let mut j: usize = 0;
        while j < n
            invariant
                j <= n,
                n == self.samplers@.len(),
                self.samplers@ == old(self).samplers@,
                kept@ == spec_clear_seq(old(self).samplers@.take(j as int), control_id),
            decreases n - j,
        {
            proof {
                assert(old(self).samplers@.take(j + 1).drop_last() =~= old(self).samplers@.take(
                    j as int,
                ));
                assert(old(self).samplers@.take(j + 1).last() == old(self).samplers@[j as int]);
            }
            if self.samplers[j].control_id != control_id {
                kept.push(self.samplers[j]);
            }
            j += 1;
        }
        proof {
            assert(old(self).samplers@.take(n as int) =~= old(self).samplers@);
        }
        self.samplers = kept;
    }

    /// True when some control of the id is held.
    pub fn has_control(&self, control_id: u64) -> (r: bool)
        ensures
            r == spec_has_control(self.samplers@, control_id),
    {
        let n = self.samplers.len();
        let mut j: usize = 0;
        while j < n
            invariant
                j <= n,
                n == self.samplers@.len(),
                forall|i: int| 0 <= i < j ==> self.samplers@[i].control_id != control_id,
            decreases n - j,
        {
            if self.samplers[j].control_id == control_id {
                return true;
            }
            j += 1;
        }
        false
    }

    /// Largest elapsed running time among the id's controls, or `None` when
    /// the id holds no control at all.
    pub fn get_running_duration(&self, control_id: u64) -> (r: Option<Millis>)
        ensures
            r == (if spec_has_control(self.samplers@, control_id) {
                Some(spec_max_running(self.samplers@, control_id))
            } else {
                Option::<Millis>::None
            }),
    {
        let n = self.samplers.len();
        let mut found = false;
        let mut best: Millis = 0;
        let mut j: usize = 0;
        while j < n
            invariant
                j <= n,
                n == self.samplers@.len(),
                found == spec_has_control(self.samplers@.take(j as int), control_id),
                best == spec_max_running(self.samplers@.take(j as int), control_id),
            decreases n - j,
        {
            proof {
                assert(self.samplers@.take(j + 1).drop_last() =~= self.samplers@.take(j as int));
                assert(self.samplers@.take(j + 1).last() == self.samplers@[j as int]);
                assert(forall|i: int|
                    0 <= i < j + 1 ==> self.samplers@.take(j + 1)[i] == self.samplers@[i]);
            }
            if self.samplers[j].control_id == control_id {
                found = true;
                let e = match self.samplers[j].state {
                    ControlState::Running(d) => d,
                    _ => 0,
                };
                if e > best {
                    best = e;
                }
            }
            j += 1;
        }
        proof {
            assert(self.samplers@.take(n as int) =~= self.samplers@);
        }
        if found {
            Some(best)
        } else {
            None
        }
    }

    /// True when every control of the id reports done.
    pub fn check_termination(&self, control_id: u64) -> (r: bool)
        ensures
            r == spec_terminated(self.samplers@, control_id),
    {
        let n = self.samplers.len();
        let mut j: usize = 0;
        while j < n
            invariant
                j <= n,
                n == self.samplers@.len(),
                forall|i: int|
                    0 <= i < j && self.samplers@[i].control_id == control_id
                        ==> self.samplers@[i].state is Done,
            decreases n - j,
        {
            if self.samplers[j].control_id == control_id {
                match self.samplers[j].state {
                    ControlState::Done => {},
                    _ => {
                        return false;
                    },
                }
            }
            j += 1;
        }
        true
    }
}

} // verus!
