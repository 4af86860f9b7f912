use animation_control::animation::{Animation, AnimationNode, AnimationStorage, SamplerAssets};
use animation_control::control::{AnimationControl, AnimationControlSet, DeferredAnimation};
use animation_control::driver::run_animation_control_system;
use animation_control::hierarchy::AnimationHierarchy;
use animation_control::sampler::{SamplerControl, SamplerControlSet};
use animation_control::state::{
    AnimationCommand, ControlState, DeferStartRelation, EndControl, StepDirection,
};
use animation_control::world::{EntityRecord, World};

fn record(entity: u64) -> EntityRecord {
    EntityRecord {
        entity,
        has_target: true,
        live: 7,
        rest: None,
        samplers: None,
        control_set: None,
        hierarchy: None,
    }
}

fn single_node_animation(sampler: u64) -> Animation {
    Animation { nodes: vec![AnimationNode { node_index: 0, channel: 0, sampler }] }
}

fn control(animation: u64, command: AnimationCommand) -> AnimationControl {
    AnimationControl::new(animation, command, 1, EndControl::Normal)
}

fn storage_with(id: u64, animation: Animation) -> AnimationStorage {
    AnimationStorage { animations: vec![(id, animation)] }
}

fn set_with(id: u64, c: AnimationControl) -> AnimationControlSet {
    let mut set = AnimationControlSet::new();
    set.insert(id, c);
    set
}

fn get_control(w: &World, entity: u64, id: u64) -> Option<&AnimationControl> {
    let rec = w.records.iter().find(|r| r.entity == entity)?;
    let cs = rec.control_set.as_ref()?;
    cs.animations.iter().find(|(k, _)| *k == id).map(|(_, c)| c)
}

fn sampler_controls(w: &World, entity: u64) -> Vec<SamplerControl> {
    let rec = w.records.iter().find(|r| r.entity == entity).unwrap();
    match &rec.samplers {
        Some(s) => s.samplers.clone(),
        None => Vec::new(),
    }
}

fn running_sampler(control_id: u64, elapsed: u64) -> SamplerControl {
    SamplerControl {
        control_id,
        channel: 0,
        state: ControlState::Running(elapsed),
        sampler: 100,
        end: EndControl::Normal,
        after: 7,
        rate_multiplier: 1,
        blend_weight: 1,
        pending_step: None,
    }
}

#[test]
fn requested_start_transitions_to_running_and_creates_control() {
    let mut world = World { records: vec![record(1)] };
    world.records[0].control_set = Some(set_with(5, control(10, AnimationCommand::Start)));
    let storage = storage_with(10, single_node_animation(100));
    let samplers = SamplerAssets { loaded: vec![100] };
    let mut next_id: u64 = 1;
    run_animation_control_system(&mut world, &storage, &samplers, &mut next_id);

    let c = get_control(&world, 1, 5).unwrap();
    assert_eq!(c.state, ControlState::Running(0));
    assert_eq!(c.id, 1);
    assert_eq!(next_id, 2);

    let sc = sampler_controls(&world, 1);
    assert_eq!(sc.len(), 1);
    assert_eq!(sc[0].control_id, 1);
    assert_eq!(sc[0].channel, 0);
    assert_eq!(sc[0].sampler, 100);
    assert_eq!(sc[0].state, ControlState::Requested);
    assert_eq!(sc[0].after, 7);
    assert_eq!(sc[0].blend_weight, 1);
}

#[test]
fn start_with_unloaded_sampler_stays_requested() {
    let mut world = World { records: vec![record(1)] };
    world.records[0].control_set = Some(set_with(5, control(10, AnimationCommand::Start)));
    let storage = storage_with(10, single_node_animation(100));
    let samplers = SamplerAssets { loaded: vec![] };
    let mut next_id: u64 = 1;
    run_animation_control_system(&mut world, &storage, &samplers, &mut next_id);

    let c = get_control(&world, 1, 5).unwrap();
    assert_eq!(c.state, ControlState::Requested);
    assert!(sampler_controls(&world, 1).is_empty());
}

#[test]
fn start_prefers_rest_state_snapshot_as_anchor() {
    let mut world = World { records: vec![record(1)] };
    world.records[0].rest = Some(42);
    world.records[0].control_set = Some(set_with(5, control(10, AnimationCommand::Start)));
    let storage = storage_with(10, single_node_animation(100));
    let samplers = SamplerAssets { loaded: vec![100] };
    let mut next_id: u64 = 1;
    run_animation_control_system(&mut world, &storage, &samplers, &mut next_id);

    let sc = sampler_controls(&world, 1);
    assert_eq!(sc[0].after, 42);
}

#[test]
fn start_without_rest_state_snapshots_live_value() {
    let mut world = World { records: vec![record(1)] };
    world.records[0].control_set = Some(set_with(5, control(10, AnimationCommand::Start)));
    let storage = storage_with(10, single_node_animation(100));
    let samplers = SamplerAssets { loaded: vec![100] };
    let mut next_id: u64 = 1;
    run_animation_control_system(&mut world, &storage, &samplers, &mut next_id);

    // the rest-state capture is buffered during the pass and applied after
    assert_eq!(world.records[0].rest, Some(7));
}

#[test]
fn multi_node_hierarchy_creates_controls_on_each_target() {
    let mut world = World { records: vec![record(1), record(2)] };
    world.records[1].live = 9;
    let anim = Animation {
        nodes: vec![
            AnimationNode { node_index: 0, channel: 0, sampler: 100 },
            AnimationNode { node_index: 1, channel: 1, sampler: 101 },
        ],
    };
    let mut h = AnimationHierarchy::new();
    h.add_node(0, 1);
    h.add_node(1, 2);
    world.records[0].hierarchy = Some(h);
    world.records[0].control_set = Some(set_with(5, control(10, AnimationCommand::Start)));
    let storage = storage_with(10, anim);
    let samplers = SamplerAssets { loaded: vec![100, 101] };
    let mut next_id: u64 = 1;
    run_animation_control_system(&mut world, &storage, &samplers, &mut next_id);

    assert_eq!(get_control(&world, 1, 5).unwrap().state, ControlState::Running(0));
    let sc1 = sampler_controls(&world, 1);
    let sc2 = sampler_controls(&world, 2);
    assert_eq!(sc1.len(), 1);
    assert_eq!(sc2.len(), 1);
    assert_eq!(sc1[0].channel, 0);
    assert_eq!(sc2[0].channel, 1);
    assert_eq!(sc2[0].after, 9);
}

#[test]
fn multi_node_without_hierarchy_is_dropped_and_nothing_starts() {
    let mut world = World { records: vec![record(1), record(2)] };
    let anim = Animation {
        nodes: vec![
            AnimationNode { node_index: 0, channel: 0, sampler: 100 },
            AnimationNode { node_index: 1, channel: 1, sampler: 101 },
        ],
    };
    world.records[0].control_set = Some(set_with(5, control(10, AnimationCommand::Start)));
    let storage = storage_with(10, anim);
    let samplers = SamplerAssets { loaded: vec![100, 101] };
    let mut next_id: u64 = 1;
    run_animation_control_system(&mut world, &storage, &samplers, &mut next_id);

    // the instance was the set's only entry: the emptied set is detached
    assert!(world.records[0].control_set.is_none());
    assert!(sampler_controls(&world, 1).is_empty());
    assert!(sampler_controls(&world, 2).is_empty());
}

#[test]
fn single_node_animation_needs_no_hierarchy() {
    let mut world = World { records: vec![record(1)] };
    let anim = Animation {
        nodes: vec![
            AnimationNode { node_index: 3, channel: 0, sampler: 100 },
            AnimationNode { node_index: 3, channel: 1, sampler: 101 },
        ],
    };
    world.records[0].control_set = Some(set_with(5, control(10, AnimationCommand::Start)));
    let storage = storage_with(10, anim);
    let samplers = SamplerAssets { loaded: vec![100, 101] };
    let mut next_id: u64 = 1;
    run_animation_control_system(&mut world, &storage, &samplers, &mut next_id);

    assert_eq!(get_control(&world, 1, 5).unwrap().state, ControlState::Running(0));
    assert_eq!(sampler_controls(&world, 1).len(), 2);
}

#[test]
fn pause_then_start_round_trip_keeps_id_and_anchor() {
    let mut world = World { records: vec![record(1)] };
    let mut running = control(10, AnimationCommand::Pause);
    running.id = 1;
    running.state = ControlState::Running(0);
    world.records[0].control_set = Some(set_with(5, running));
    let mut sset = SamplerControlSet::new();
    sset.add_control(running_sampler(1, 2500));
    world.records[0].samplers = Some(sset);
    let storage = storage_with(10, single_node_animation(100));
    let samplers = SamplerAssets { loaded: vec![100] };
    let mut next_id: u64 = 2;
    run_animation_control_system(&mut world, &storage, &samplers, &mut next_id);

    assert_eq!(get_control(&world, 1, 5).unwrap().state, ControlState::Paused(0));
    let sc = sampler_controls(&world, 1);
    assert_eq!(sc[0].state, ControlState::Paused(2500));

    // the caller asks the paused instance to resume
    {
        let rec = world.records.iter_mut().find(|r| r.entity == 1).unwrap();
        let cs = rec.control_set.as_mut().unwrap();
        cs.animations[0].1.command = AnimationCommand::Start;
    }
    run_animation_control_system(&mut world, &storage, &samplers, &mut next_id);

    let c = get_control(&world, 1, 5).unwrap();
    assert_eq!(c.state, ControlState::Running(0));
    assert_eq!(c.id, 1);
    let sc = sampler_controls(&world, 1);
    assert_eq!(sc[0].state, ControlState::Running(2500));
    assert_eq!(sc[0].after, 7);
    assert_eq!(next_id, 2);
}

#[test]
fn abort_is_idempotent_and_reclaims_once_done() {
    let mut world = World { records: vec![record(1)] };
    let mut running = control(10, AnimationCommand::Abort);
    running.id = 1;
    running.state = ControlState::Running(0);
    world.records[0].control_set = Some(set_with(5, running));
    let mut sset = SamplerControlSet::new();
    sset.add_control(running_sampler(1, 100));
    world.records[0].samplers = Some(sset);
    let storage = storage_with(10, single_node_animation(100));
    let samplers = SamplerAssets { loaded: vec![100] };
    let mut next_id: u64 = 2;

    // first abort: the sampler control is asked to stop
    run_animation_control_system(&mut world, &storage, &samplers, &mut next_id);
    assert_eq!(get_control(&world, 1, 5).unwrap().state, ControlState::Abort);
    assert_eq!(sampler_controls(&world, 1)[0].state, ControlState::Abort);

    // a second abort never resurrects the instance
    run_animation_control_system(&mut world, &storage, &samplers, &mut next_id);
    assert_eq!(get_control(&world, 1, 5).unwrap().state, ControlState::Abort);

    // the sampling layer acknowledges; the next tick reclaims everything
    world.records[0].samplers.as_mut().unwrap().samplers[0].state = ControlState::Done;
    run_animation_control_system(&mut world, &storage, &samplers, &mut next_id);
    assert!(get_control(&world, 1, 5).is_none());
    assert!(world.records[0].control_set.is_none());
    // the whole component is gone, not merely emptied
    assert!(world.records[0].samplers.is_none());
}

#[test]
fn deferred_start_carries_slack_past_offset() {
    let mut world = World { records: vec![record(1)] };
    let mut running = control(10, AnimationCommand::Start);
    running.id = 1;
    running.state = ControlState::Running(0);
    let mut set = set_with(5, running);
    set.insert_deferred(DeferredAnimation {
        animation_id: 6,
        dependency_id: 5,
        relation: DeferStartRelation::Start(2000),
        control: control(10, AnimationCommand::Start),
    });
    world.records[0].control_set = Some(set);
    let mut sset = SamplerControlSet::new();
    sset.add_control(running_sampler(1, 3500));
    world.records[0].samplers = Some(sset);
    let storage = storage_with(10, single_node_animation(100));
    let samplers = SamplerAssets { loaded: vec![100] };
    let mut next_id: u64 = 2;
    run_animation_control_system(&mut world, &storage, &samplers, &mut next_id);

    let c = get_control(&world, 1, 6).unwrap();
    assert_eq!(c.state, ControlState::Running(0));
    // the freshly created per-node control preserves the 1.5 s slack
    let sc = sampler_controls(&world, 1);
    let created = sc.iter().find(|s| s.control_id == 2).unwrap();
    assert_eq!(created.state, ControlState::Deferred(1500));
}

#[test]
fn deferred_below_offset_stays_queued() {
    let mut world = World { records: vec![record(1)] };
    let mut running = control(10, AnimationCommand::Start);
    running.id = 1;
    running.state = ControlState::Running(0);
    let mut set = set_with(5, running);
    set.insert_deferred(DeferredAnimation {
        animation_id: 6,
        dependency_id: 5,
        relation: DeferStartRelation::Start(2000),
        control: control(10, AnimationCommand::Start),
    });
    world.records[0].control_set = Some(set);
    let mut sset = SamplerControlSet::new();
    sset.add_control(running_sampler(1, 1999));
    world.records[0].samplers = Some(sset);
    let storage = storage_with(10, single_node_animation(100));
    let samplers = SamplerAssets { loaded: vec![100] };
    let mut next_id: u64 = 2;
    run_animation_control_system(&mut world, &storage, &samplers, &mut next_id);

    assert!(get_control(&world, 1, 6).is_none());
    let cs = world.records[0].control_set.as_ref().unwrap();
    assert_eq!(cs.deferred_animations.len(), 1);
}

#[test]
fn deferred_with_absent_dependency_starts_at_zero_slack() {
    let mut world = World { records: vec![record(1)] };
    let mut set = AnimationControlSet::new();
    set.insert_deferred(DeferredAnimation {
        animation_id: 6,
        dependency_id: 99,
        relation: DeferStartRelation::Start(2000),
        control: control(10, AnimationCommand::Start),
    });
    world.records[0].control_set = Some(set);
    let storage = storage_with(10, single_node_animation(100));
    let samplers = SamplerAssets { loaded: vec![100] };
    let mut next_id: u64 = 1;
    run_animation_control_system(&mut world, &storage, &samplers, &mut next_id);

    assert_eq!(get_control(&world, 1, 6).unwrap().state, ControlState::Running(0));
    let sc = sampler_controls(&world, 1);
    assert_eq!(sc[0].state, ControlState::Deferred(0));
}

#[test]
fn deferred_chain_on_same_tick_start_with_offset_zero() {
    // instance 6 waits on 5 (absent: starts at once); instance 7 waits on 6
    // with offset 0 and sees 6's same-tick start in the snapshot
    let mut world = World { records: vec![record(1)] };
    let mut set = AnimationControlSet::new();
    set.insert_deferred(DeferredAnimation {
        animation_id: 6,
        dependency_id: 5,
        relation: DeferStartRelation::Start(0),
        control: control(10, AnimationCommand::Start),
    });
    set.insert_deferred(DeferredAnimation {
        animation_id: 7,
        dependency_id: 6,
        relation: DeferStartRelation::Start(0),
        control: control(10, AnimationCommand::Start),
    });
    world.records[0].control_set = Some(set);
    let storage = storage_with(10, single_node_animation(100));
    let samplers = SamplerAssets { loaded: vec![100] };
    let mut next_id: u64 = 1;
    run_animation_control_system(&mut world, &storage, &samplers, &mut next_id);

    assert_eq!(get_control(&world, 1, 6).unwrap().state, ControlState::Running(0));
    assert_eq!(get_control(&world, 1, 7).unwrap().state, ControlState::Running(0));
    let cs = world.records[0].control_set.as_ref().unwrap();
    assert!(cs.deferred_animations.is_empty());
}

#[test]
fn step_applies_once_then_reverts_to_start() {
    let mut world = World { records: vec![record(1)] };
    let mut running = control(10, AnimationCommand::Step(StepDirection::Forward));
    running.id = 1;
    running.state = ControlState::Running(0);
    world.records[0].control_set = Some(set_with(5, running));
    let mut sset = SamplerControlSet::new();
    sset.add_control(running_sampler(1, 100));
    world.records[0].samplers = Some(sset);
    let storage = storage_with(10, single_node_animation(100));
    let samplers = SamplerAssets { loaded: vec![100] };
    let mut next_id: u64 = 2;
    run_animation_control_system(&mut world, &storage, &samplers, &mut next_id);

    let c = get_control(&world, 1, 5).unwrap();
    assert_eq!(c.command, AnimationCommand::Start);
    let sc = sampler_controls(&world, 1);
    assert_eq!(sc[0].pending_step, Some(StepDirection::Forward));
}

#[test]
fn set_input_value_applies_once_then_reverts_to_start() {
    let mut world = World { records: vec![record(1)] };
    let mut running = control(10, AnimationCommand::SetInputValue(500));
    running.id = 1;
    running.state = ControlState::Running(0);
    world.records[0].control_set = Some(set_with(5, running));
    let mut sset = SamplerControlSet::new();
    sset.add_control(running_sampler(1, 100));
    world.records[0].samplers = Some(sset);
    let storage = storage_with(10, single_node_animation(100));
    let samplers = SamplerAssets { loaded: vec![100] };
    let mut next_id: u64 = 2;
    run_animation_control_system(&mut world, &storage, &samplers, &mut next_id);

    let c = get_control(&world, 1, 5).unwrap();
    assert_eq!(c.command, AnimationCommand::Start);
    let sc = sampler_controls(&world, 1);
    assert_eq!(sc[0].state, ControlState::Running(500));
}

#[test]
fn missing_animation_definition_leaves_instance_pending() {
    let mut world = World { records: vec![record(1)] };
    world.records[0].control_set = Some(set_with(5, control(10, AnimationCommand::Start)));
    let storage = AnimationStorage { animations: vec![] };
    let samplers = SamplerAssets { loaded: vec![100] };
    let mut next_id: u64 = 1;
    run_animation_control_system(&mut world, &storage, &samplers, &mut next_id);

    let c = get_control(&world, 1, 5).unwrap();
    assert_eq!(c.state, ControlState::Requested);
    assert_eq!(next_id, 1);
}

#[test]
fn blend_weights_apply_per_channel() {
    let mut world = World { records: vec![record(1)] };
    let mut running = control(
        10,
        AnimationCommand::SetBlendWeights(vec![animation_control::state::BlendWeight {
            node_index: 0,
            channel: 0,
            weight: 77,
        }]),
    );
    running.id = 1;
    running.state = ControlState::Running(0);
    world.records[0].control_set = Some(set_with(5, running));
    let mut sset = SamplerControlSet::new();
    sset.add_control(running_sampler(1, 100));
    let mut other = running_sampler(1, 100);
    other.channel = 9;
    sset.add_control(other);
    world.records[0].samplers = Some(sset);
    let storage = storage_with(10, single_node_animation(100));
    let samplers = SamplerAssets { loaded: vec![100] };
    let mut next_id: u64 = 2;
    run_animation_control_system(&mut world, &storage, &samplers, &mut next_id);

    let sc = sampler_controls(&world, 1);
    assert_eq!(sc[0].blend_weight, 77);
    // the other channel keeps its weight
    assert_eq!(sc[1].blend_weight, 1);
}

#[test]
fn live_rate_change_fans_out_to_sampler_controls() {
    let mut world = World { records: vec![record(1)] };
    let mut running = control(10, AnimationCommand::Start);
    running.id = 1;
    running.state = ControlState::Running(0);
    running.rate_multiplier = 3;
    world.records[0].control_set = Some(set_with(5, running));
    let mut sset = SamplerControlSet::new();
    sset.add_control(running_sampler(1, 100));
    world.records[0].samplers = Some(sset);
    let storage = storage_with(10, single_node_animation(100));
    let samplers = SamplerAssets { loaded: vec![100] };
    let mut next_id: u64 = 2;
    run_animation_control_system(&mut world, &storage, &samplers, &mut next_id);

    let sc = sampler_controls(&world, 1);
    assert_eq!(sc[0].rate_multiplier, 3);
    // the instance is still live, so it was not reclaimed
    assert!(get_control(&world, 1, 5).is_some());
}

#[test]
fn only_one_index_accepts_empty_and_uniform_definitions() {
    let empty = Animation { nodes: vec![] };
    assert!(empty.only_one_index());
    let uniform = Animation {
        nodes: vec![
            AnimationNode { node_index: 4, channel: 0, sampler: 1 },
            AnimationNode { node_index: 4, channel: 1, sampler: 2 },
        ],
    };
    assert!(uniform.only_one_index());
    let mixed = Animation {
        nodes: vec![
            AnimationNode { node_index: 4, channel: 0, sampler: 1 },
            AnimationNode { node_index: 5, channel: 1, sampler: 2 },
        ],
    };
    assert!(!mixed.only_one_index());
}

#[test]
fn sampler_control_set_reports_largest_running_duration() {
    let mut sset = SamplerControlSet::new();
    sset.add_control(running_sampler(1, 200));
    sset.add_control(running_sampler(1, 900));
    let mut paused = running_sampler(1, 5000);
    paused.state = ControlState::Paused(5000);
    sset.add_control(paused);
    assert_eq!(sset.get_running_duration(1), Some(900));
    assert_eq!(sset.get_running_duration(2), None);
}

#[test]
fn sampler_control_set_clear_removes_only_one_id() {
    let mut sset = SamplerControlSet::new();
    sset.add_control(running_sampler(1, 200));
    sset.add_control(running_sampler(2, 300));
    sset.clear(1);
    assert_eq!(sset.len(), 1);
    assert_eq!(sset.samplers[0].control_id, 2);
    assert!(!sset.is_empty());
    sset.clear(2);
    assert!(sset.is_empty());
}

#[test]
fn termination_needs_every_control_of_the_id_done() {
    let mut sset = SamplerControlSet::new();
    let mut done = running_sampler(1, 0);
    done.state = ControlState::Done;
    sset.add_control(done);
    sset.add_control(running_sampler(1, 50));
    assert!(!sset.check_termination(1));
    sset.samplers[1].state = ControlState::Done;
    assert!(sset.check_termination(1));
    // an id with no controls counts as terminated
    assert!(sset.check_termination(9));
}
