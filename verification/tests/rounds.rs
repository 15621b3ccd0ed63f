use hypercompute::choice::{recruit_mpi_nodes, score_nodes_for_task};
use hypercompute::clock::{Moment, Timestamp};
use hypercompute::message::ServerMessage;
use hypercompute::monitor::{monitor_tick, tick_at, tick_nodes, tick_tasks};
use hypercompute::node::{NodeCapabilities, NodeInfo, NodeStats, NodeStatus, ScoreTerms, Weight};
use hypercompute::rest::get_task;
use hypercompute::scheduler::{
    abort_mpi_job, outcome_of, DispatchPass, Sent, Step, MAX_RANKS,
};
use hypercompute::state::AppState;
use hypercompute::string_map::StringMap;
use hypercompute::task::{Percent, Task, TaskKind, TaskRequirements, TaskStatus};
use std::time::{Duration, Instant};
use tokio::sync::mpsc::{unbounded_channel, UnboundedReceiver};

fn at(secs: i64) -> Timestamp {
    Timestamp { secs, nanos: 0 }
}

fn moment(secs: i64) -> Moment {
    Moment { time: at(secs), instant: Instant::now() }
}

fn node(id: u128) -> NodeInfo {
    NodeInfo {
        id,
        name: "n".to_string(),
        capabilities: NodeCapabilities {
            cpu_cores: 8,
            total_ram_mb: 16_000,
            has_gpu: false,
            tags: vec!["python3".to_string(), "ffmpeg".to_string()],
            region: "eu-west".to_string(),
            os: "linux-x86_64".to_string(),
            mpi_host: format!("host{}", id),
            has_mpirun: true,
        },
        stats: NodeStats {
            cpu_used_pct: Percent { bits: 25.0f32.to_bits() },
            ram_free_mb: 8_000,
            active_tasks: 1,
            latency_ms: Some(20),
            reported_at: at(900),
        },
        status: NodeStatus::Online,
        last_seen: at(1_000),
    }
}

fn server(nodes: &[u128]) -> AppState {
    let mut state = AppState::new(30, 300, 3);
    for id in nodes {
        state.put_node(node(*id));
    }
    state
}

fn shell(id: u128, priority: u8) -> Task {
    Task::stamped(
        TaskKind::Shell { command: "true".to_string(), args: vec![], timeout_secs: 60 },
        TaskRequirements::default(),
        priority,
        id,
        at(500),
    )
}

fn mpi(id: u128, np: u32) -> Task {
    Task::stamped(
        TaskKind::Mpi {
            program: "sim".to_string(),
            args: vec![],
            np,
            env: StringMap::new(),
            timeout_secs: 300,
            use_mpirun: false,
        },
        TaskRequirements::default(),
        128,
        id,
        at(500),
    )
}

fn weight(score: i64) -> Weight {
    Weight { cpu_suffices: true, score }
}

fn open(state: &mut AppState, id: u128) -> UnboundedReceiver<String> {
    let (tx, rx) = unbounded_channel();
    state.connect(id, tx);
    rx
}

#[test]
fn hard_requirements_decide_who_is_scored() {
    let n = node(1);
    let mut req = TaskRequirements::default();
    assert_eq!(n.score_for(&req, weight(9)), Some(9));
    assert_eq!(n.score_for(&req, Weight { cpu_suffices: false, score: 9 }), None);
    req.min_ram_free_mb = 8_000;
    assert_eq!(n.score_for(&req, weight(9)), Some(9));
    req.min_ram_free_mb = 8_001;
    assert_eq!(n.score_for(&req, weight(9)), None);
    let mut req = TaskRequirements::default();
    req.requires_gpu = true;
    assert_eq!(n.score_for(&req, weight(9)), None);
    let mut req = TaskRequirements::default();
    req.required_tags = vec!["ffmpeg".to_string(), "python3".to_string()];
    assert_eq!(n.score_for(&req, weight(9)), Some(9));
    req.required_tags.push("cuda".to_string());
    assert_eq!(n.score_for(&req, weight(9)), None);
    let req = TaskRequirements::default();
    for status in [NodeStatus::Offline, NodeStatus::Draining] {
        let mut n = node(1);
        n.status = status;
        assert_eq!(n.score_for(&req, weight(9)), None);
    }
    let mut n = node(1);
    n.status = NodeStatus::Busy;
    assert_eq!(n.score_for(&req, weight(9)), Some(9));
}

#[test]
fn the_score_is_made_of_load_and_region() {
    let mut req = TaskRequirements::default();
    req.preferred_region = Some("eu-west".to_string());
    let terms = node(1).score_terms(&req);
    assert_eq!(
        terms,
        ScoreTerms {
            cpu_used_pct: Percent { bits: 25.0f32.to_bits() },
            ram_free_mb: 8_000,
            total_ram_mb: 16_000,
            active_tasks: 1,
            latency_ms: Some(20),
            in_preferred_region: true,
        }
    );
    req.preferred_region = Some("us-east".to_string());
    assert!(!node(1).score_terms(&req).in_preferred_region);
    req.preferred_region = None;
    assert!(!node(1).score_terms(&req).in_preferred_region);
}

#[test]
fn the_highest_score_wins_and_the_last_of_equals() {
    let state = server(&[1, 2, 3]);
    let req = TaskRequirements::default();
    let weighed = vec![(1, weight(5)), (2, weight(7)), (3, weight(6))];
    assert_eq!(score_nodes_for_task(&state, &req, &weighed), Some((2, 7)));
    let weighed = vec![(1, weight(7)), (2, weight(7)), (3, weight(6))];
    assert_eq!(score_nodes_for_task(&state, &req, &weighed), Some((2, 7)));
    let weighed = vec![(9, weight(100)), (3, weight(-6))];
    assert_eq!(score_nodes_for_task(&state, &req, &weighed), Some((3, -6)));
    assert_eq!(score_nodes_for_task(&state, &req, &vec![]), None);
}

#[test]
fn a_job_gets_the_best_nodes() {
    let state = server(&[1, 2, 3, 4]);
    let req = TaskRequirements::default();
    let weighed = vec![(1, weight(5)), (2, weight(7)), (3, weight(5)), (4, weight(6))];
    assert_eq!(
        recruit_mpi_nodes(&state, &req, 3, &weighed),
        Some(vec![(2, 7), (4, 6), (1, 5)])
    );
    assert_eq!(
        recruit_mpi_nodes(&state, &req, 4, &weighed),
        Some(vec![(2, 7), (4, 6), (1, 5), (3, 5)])
    );
    assert_eq!(recruit_mpi_nodes(&state, &req, 5, &weighed), None);
    assert_eq!(recruit_mpi_nodes(&state, &req, 0, &weighed), Some(vec![]));
}

#[test]
fn a_job_gets_only_nodes_with_the_slots_it_asks_for() {
    let mut state = server(&[1, 2, 3]);
    let mut small = node(2);
    small.capabilities.cpu_cores = 4;
    state.put_node(small);
    let mut req = TaskRequirements::default();
    let weighed = vec![(1, weight(5)), (2, weight(7)), (3, weight(6)), (9, weight(8))];
    assert_eq!(recruit_mpi_nodes(&state, &req, 2, &weighed), Some(vec![(2, 7), (3, 6)]));
    req.mpi_slots_per_node = Some(4);
    assert_eq!(recruit_mpi_nodes(&state, &req, 2, &weighed), Some(vec![(2, 7), (3, 6)]));
    req.mpi_slots_per_node = Some(5);
    assert_eq!(recruit_mpi_nodes(&state, &req, 2, &weighed), Some(vec![(3, 6), (1, 5)]));
    assert_eq!(recruit_mpi_nodes(&state, &req, 3, &weighed), None);
    assert_eq!(score_nodes_for_task(&state, &req, &weighed), Some((2, 7)));
    let mut job = mpi(10, 2);
    job.requirements.mpi_slots_per_node = Some(9);
    state.enqueue(job);
    let mut pass = DispatchPass::new();
    pass.weighed(&mut state, &weighed, moment(1_000));
    assert!(matches!(pass.next(&state), Step::Finished));
    assert_eq!(state.pending_len(), 1);
}

#[test]
fn an_empty_queue_ends_the_round() {
    let state = server(&[1]);
    assert!(matches!(DispatchPass::new().next(&state), Step::Finished));
}

#[test]
fn a_task_goes_to_the_best_node() {
    let mut state = server(&[1, 2]);
    let mut rx = open(&mut state, 2);
    state.enqueue(shell(10, 128));
    let mut pass = DispatchPass::new();
    assert!(matches!(pass.next(&state), Step::Weigh { position: 0 }));
    let weighed = vec![(1, weight(1)), (2, weight(2))];
    assert!(pass.has_ports(&state, &weighed));
    pass.weighed(&mut state, &weighed, moment(1_000));
    match pass.next(&state) {
        Step::Encode { message: ServerMessage::DispatchTask { task } } => {
            assert_eq!(task.id, 10);
            assert_eq!(task.status, TaskStatus::Queued);
        }
        other => panic!("unexpected {:?}", other),
    }
    assert!(pass.can_send(&state));
    assert_eq!(pass.encoded(&mut state, Some("json"), moment(1_000)), Sent::Delivered);
    assert_eq!(rx.try_recv().unwrap(), "json");
    assert!(matches!(pass.next(&state), Step::Finished));
    assert_eq!(state.pending_len(), 0);
    assert_eq!(
        get_task(&state, 10).unwrap().task.status,
        TaskStatus::Dispatched { node_id: 2 }
    );
    assert_eq!(state.node(2).unwrap().stats.active_tasks, 2);
    assert_eq!(state.node(1).unwrap().stats.active_tasks, 1);
}

#[test]
fn a_dead_channel_takes_the_node_offline() {
    let mut state = server(&[1]);
    state.enqueue(shell(10, 128));
    state.enqueue(shell(11, 127));
    let mut pass = DispatchPass::new();
    pass.weighed(&mut state, &vec![(1, weight(1))], moment(1_000));
    assert_eq!(pass.encoded(&mut state, Some("json"), moment(1_000)), Sent::ChannelDead);
    assert_eq!(state.node(1).unwrap().status, NodeStatus::Offline);
    assert_eq!(state.node(1).unwrap().stats.active_tasks, 1);
    assert_eq!(state.pending_len(), 2);
    assert!(matches!(pass.next(&state), Step::Weigh { position: 1 }));
    pass.weighed(&mut state, &vec![(1, weight(1))], moment(1_000));
    assert!(matches!(pass.next(&state), Step::Finished));
    assert_eq!(state.pending_len(), 2);
}

#[test]
fn a_message_that_cannot_be_encoded_leaves_everything() {
    let mut state = server(&[1]);
    state.enqueue(shell(10, 128));
    let mut pass = DispatchPass::new();
    pass.weighed(&mut state, &vec![(1, weight(1))], moment(1_000));
    assert_eq!(pass.encoded(&mut state, None, moment(1_000)), Sent::NotEncoded);
    assert!(matches!(pass.next(&state), Step::Finished));
    assert_eq!(state.pending_len(), 1);
    assert_eq!(state.node(1).unwrap().status, NodeStatus::Online);
}

#[test]
fn a_task_behind_an_unplaceable_one_is_still_placed() {
    let mut state = server(&[1]);
    let mut demanding = shell(10, 200);
    demanding.requirements.requires_gpu = true;
    state.enqueue(demanding);
    state.enqueue(shell(11, 100));
    state.enqueue(shell(12, 50));
    let mut pass = DispatchPass::new();
    let weighed = vec![(1, weight(1))];
    pass.weighed(&mut state, &weighed, moment(1_000));
    assert!(matches!(pass.next(&state), Step::Weigh { position: 1 }));
    pass.weighed(&mut state, &weighed, moment(1_000));
    pass.sent(&mut state, Sent::Delivered, moment(1_000));
    assert!(matches!(pass.next(&state), Step::Weigh { position: 1 }));
    assert_eq!(state.pending_task(1).id, 12);
    pass.weighed(&mut state, &weighed, moment(1_000));
    pass.sent(&mut state, Sent::Delivered, moment(1_000));
    assert!(matches!(pass.next(&state), Step::Finished));
    assert_eq!(state.pending_len(), 1);
    assert_eq!(state.pending_task(0).id, 10);
    assert_eq!(state.node(1).unwrap().stats.active_tasks, 3);
}

#[test]
fn the_ranks_of_a_job_learn_of_each_other() {
    let mut state = server(&[1, 2, 3]);
    state.enqueue(mpi(10, 2));
    let mut pass = DispatchPass::new();
    pass.weighed(&mut state, &vec![(1, weight(1)), (2, weight(9)), (3, weight(5))], moment(1_000));
    for (rank, _) in [(0u32, 2u128), (1, 3)] {
        match pass.next(&state) {
            Step::Encode { message: ServerMessage::DispatchMpiSlot { task, slot } } => {
                assert_eq!(task.id, 10);
                assert_eq!((slot.rank, slot.size, slot.job_id), (rank, 2, 10));
                assert_eq!(slot.peers.len(), 2);
                assert_eq!(slot.peers[0].host, "host2");
                assert_eq!((slot.peers[0].port, slot.peers[0].node_id), (9900, 2));
                assert_eq!(slot.peers[1].host, "host3");
                assert_eq!((slot.peers[1].port, slot.peers[1].node_id), (9901, 3));
            }
            other => panic!("unexpected {:?}", other),
        }
        pass.sent(&mut state, Sent::Delivered, moment(1_000));
    }
    assert!(matches!(pass.next(&state), Step::Finished));
    assert_eq!(
        get_task(&state, 10).unwrap().task.status,
        TaskStatus::MpiDispatched { job_id: 10, node_ids: vec![2, 3] }
    );
    assert_eq!(state.node(2).unwrap().stats.active_tasks, 2);
    assert_eq!(state.node(3).unwrap().stats.active_tasks, 2);
    assert_eq!(state.record_error(10, 0, "x".to_string()), Some(false));
    assert_eq!(state.record_error(10, 1, "x".to_string()), Some(true));
}

#[test]
fn a_job_starts_when_its_last_rank_was_delivered() {
    let mut state = server(&[1, 2]);
    state.enqueue(mpi(10, 2));
    let mut pass = DispatchPass::new();
    let earlier = Instant::now() - Duration::from_secs(7);
    pass.weighed(&mut state, &vec![(1, weight(2)), (2, weight(1))], moment(1_000));
    pass.sent(&mut state, Sent::Delivered, moment(1_001));
    pass.sent(&mut state, Sent::Delivered, Moment { time: at(1_002), instant: earlier });
    let ms = state.job_duration_ms(10);
    assert!(ms >= 7_000 && ms < 60_000);
}

#[test]
fn a_job_without_enough_nodes_waits() {
    let mut state = server(&[1]);
    state.enqueue(mpi(10, 2));
    let mut pass = DispatchPass::new();
    pass.weighed(&mut state, &vec![(1, weight(1))], moment(1_000));
    assert!(matches!(pass.next(&state), Step::Finished));
    assert_eq!(state.pending_len(), 1);
}

#[test]
fn a_job_of_which_a_rank_was_not_delivered_is_called_off() {
    let mut state = server(&[1, 2]);
    state.enqueue(mpi(10, 2));
    let mut pass = DispatchPass::new();
    pass.weighed(&mut state, &vec![(1, weight(2)), (2, weight(1))], moment(1_000));
    pass.sent(&mut state, Sent::ChannelDead, moment(1_000));
    assert_eq!(state.node(1).unwrap().status, NodeStatus::Offline);
    pass.sent(&mut state, Sent::Delivered, moment(1_000));
    match pass.next(&state) {
        Step::Abort { broadcast } => {
            let mut targets = broadcast.targets.clone();
            targets.sort();
            assert_eq!(targets, vec![1, 2]);
            match broadcast.message {
                ServerMessage::AbortMpiJob { job_id, reason } => {
                    assert_eq!(job_id, 10);
                    assert_eq!(reason, "one or more ranks failed to dispatch");
                }
                other => panic!("unexpected {:?}", other),
            }
        }
        other => panic!("unexpected {:?}", other),
    }
    pass.aborted(&state);
    assert!(matches!(pass.next(&state), Step::Finished));
    assert_eq!(state.pending_len(), 1);
    assert_eq!(state.running_len(), 0);
    assert_eq!(state.pending_task(0).status, TaskStatus::Queued);
}

#[test]
fn a_job_without_ranks_is_under_way_at_once() {
    let mut state = server(&[]);
    state.enqueue(mpi(10, 0));
    let mut pass = DispatchPass::new();
    pass.weighed(&mut state, &vec![], moment(1_000));
    assert!(matches!(pass.next(&state), Step::Finished));
    assert_eq!(
        get_task(&state, 10).unwrap().task.status,
        TaskStatus::MpiDispatched { job_id: 10, node_ids: vec![] }
    );
}

#[test]
fn ports_run_out() {
    let mut state = server(&[1]);
    let np = MAX_RANKS as u32 + 1;
    state.enqueue(mpi(10, np));
    let pass = DispatchPass::new();
    assert!(pass.has_ports(&state, &vec![(1, weight(1))]));
    let many: Vec<(u128, Weight)> = (0..np).map(|_| (1, weight(1))).collect();
    assert!(!pass.has_ports(&state, &many));
}

#[test]
fn a_full_count_is_seen_before_sending() {
    let mut state = server(&[1]);
    let mut stats = node(1).stats;
    stats.active_tasks = u32::MAX;
    state.refresh(1, stats, at(1));
    state.enqueue(shell(10, 128));
    let mut pass = DispatchPass::new();
    pass.weighed(&mut state, &vec![(1, weight(1))], moment(1_000));
    assert!(pass.can_send(&state));
    let _rx = open(&mut state, 1);
    assert!(!pass.can_send(&state));
}

#[test]
fn an_abort_goes_to_every_known_node() {
    let state = server(&[4, 5]);
    let broadcast = abort_mpi_job(&state, 10, "why");
    let mut targets = broadcast.targets;
    targets.sort();
    assert_eq!(targets, vec![4, 5]);
}

fn under_way(state: &mut AppState, id: u128, status: TaskStatus) {
    state.enqueue(shell(id, 128));
    let place = state.find_pending(id).unwrap();
    let mut task = state.take_pending(place);
    task.status = status;
    state.put_running(task, at(150));
}

/// A round of the monitor on a server with timeouts of 30 and 300 seconds.
fn sweep(state: &mut AppState, node_cutoff: Timestamp, task_cutoff: Timestamp) {
    let node_time = Timestamp { secs: node_cutoff.secs + 30, nanos: node_cutoff.nanos };
    let task_time = Timestamp { secs: task_cutoff.secs + 300, nanos: task_cutoff.nanos };
    assert!(tick_at(state, node_time, task_time));
}

#[test]
fn each_timeout_counts_for_its_own_half_of_the_round() {
    let mut state = AppState::new(30, 300, 3);
    state.put_node(node(1));
    state.put_node(node(2));
    let stats = node(2).stats;
    state.refresh(2, stats, at(1_001));
    under_way(&mut state, 10, TaskStatus::Dispatched { node_id: 2 });
    assert!(tick_nodes(&mut state, at(1_030)));
    assert_eq!(state.node(1).unwrap().status, NodeStatus::Online);
    assert!(tick_nodes(&mut state, at(1_031)));
    assert_eq!(state.node(1).unwrap().status, NodeStatus::Offline);
    assert_eq!(state.node(2).unwrap().status, NodeStatus::Busy);
    assert!(tick_tasks(&mut state, at(450)));
    assert!(state.running_task(10).is_some());
    assert!(tick_tasks(&mut state, at(451)));
    assert!(state.running_task(10).is_none());
    assert_eq!(state.pending_task(0).status, TaskStatus::Queued);
}

#[test]
fn a_round_at_given_times_stops_where_the_calendar_ends() {
    let mut state = AppState::new(1 << 62, 300, 3);
    state.put_node(node(1));
    under_way(&mut state, 10, TaskStatus::Dispatched { node_id: 1 });
    assert!(!tick_at(&mut state, at(5_000), at(5_000)));
    assert_eq!(state.node(1).unwrap().status, NodeStatus::Online);
    assert_eq!(state.running_len(), 1);
    let mut state = AppState::new(30, 1 << 62, 3);
    state.put_node(node(1));
    assert!(!tick_at(&mut state, at(5_000), at(5_000)));
    assert_eq!(state.node(1).unwrap().status, NodeStatus::Offline);
}

#[test]
fn long_timeouts_within_the_calendar_are_served() {
    let mut state = AppState::new(8_334_601_228_800, 8_334_601_228_800, 3);
    state.put_node(node(1));
    assert!(monitor_tick(&mut state));
    assert_eq!(state.node(1).unwrap().status, NodeStatus::Online);
}

#[test]
fn only_a_taken_message_counts_as_delivered() {
    assert_eq!(outcome_of(&Some(Ok(()))), Sent::Delivered);
    assert_eq!(outcome_of(&Some(Err("json".to_string()))), Sent::ChannelDead);
    assert_eq!(outcome_of(&None), Sent::ChannelDead);
}

#[test]
fn a_whole_round_loses_and_doubles_no_task() {
    let mut state = server(&[1, 2]);
    let mut demanding = shell(10, 250);
    demanding.requirements.requires_gpu = true;
    state.enqueue(demanding);
    for (id, priority) in [(11, 240), (12, 230), (14, 210)] {
        state.enqueue(shell(id, priority));
    }
    let mut job = mpi(13, 2);
    job.priority = 220;
    state.enqueue(job);
    let mut pass = DispatchPass::new();
    let weighed = vec![(1, weight(1)), (2, weight(2))];
    let mut outcomes =
        vec![Sent::Delivered, Sent::NotEncoded, Sent::Delivered, Sent::NotEncoded, Sent::Delivered]
            .into_iter();
    loop {
        match pass.next(&state) {
            Step::Weigh { .. } => pass.weighed(&mut state, &weighed, moment(1_000)),
            Step::Encode { .. } => {
                pass.sent(&mut state, outcomes.next().unwrap(), moment(1_000))
            }
            Step::Abort { .. } => pass.aborted(&state),
            Step::Finished => break,
        }
    }
    let left: Vec<u128> = (0..state.pending_len()).map(|i| state.pending_task(i).id).collect();
    assert_eq!(left, vec![10, 12, 13]);
    assert_eq!(state.running_len(), 2);
    for id in [11, 14] {
        assert_eq!(
            state.running_task(id).unwrap().status.clone(),
            TaskStatus::Dispatched { node_id: 2 }
        );
    }
}

#[test]
fn silent_nodes_are_lost() {
    let mut state = server(&[1, 2, 3]);
    let stats = node(2).stats;
    state.refresh(2, stats, at(2_000));
    state.set_status(3, NodeStatus::Offline);
    under_way(&mut state, 10, TaskStatus::Dispatched { node_id: 1 });
    under_way(&mut state, 11, TaskStatus::Dispatched { node_id: 2 });
    under_way(&mut state, 12, TaskStatus::MpiDispatched { job_id: 12, node_ids: vec![2, 1] });
    under_way(&mut state, 13, TaskStatus::Dispatched { node_id: 3 });
    state.start_job(12, 2, Instant::now());
    sweep(&mut state, at(1_500), at(0));
    assert_eq!(state.node(1).unwrap().status, NodeStatus::Offline);
    assert_eq!(state.node(2).unwrap().status, NodeStatus::Busy);
    assert!(state.running_task(10).is_none());
    assert!(state.running_task(11).is_some());
    assert!(state.running_task(12).is_none());
    assert!(state.running_task(13).is_some());
    assert_eq!(state.pending_len(), 2);
    assert_eq!(state.record_error(12, 0, "x".to_string()), None);
}

#[test]
fn a_node_seen_at_the_cutoff_is_kept() {
    let mut state = server(&[1]);
    sweep(&mut state, at(1_000), at(0));
    assert_eq!(state.node(1).unwrap().status, NodeStatus::Online);
    sweep(&mut state, Timestamp { secs: 1_000, nanos: 1 }, at(0));
    assert_eq!(state.node(1).unwrap().status, NodeStatus::Offline);
}

#[test]
fn stuck_tasks_are_requeued() {
    let mut state = server(&[1]);
    under_way(&mut state, 10, TaskStatus::Running { node_id: 1, started_at: at(100) });
    under_way(&mut state, 11, TaskStatus::Running { node_id: 1, started_at: at(200) });
    under_way(&mut state, 12, TaskStatus::Dispatched { node_id: 1 });
    sweep(&mut state, at(0), at(150));
    assert_eq!(state.pending_len(), 1);
    assert_eq!(state.pending_task(0).id, 10);
    assert_eq!(state.running_len(), 2);
    sweep(&mut state, at(0), Timestamp { secs: 150, nanos: 1 });
    assert_eq!(state.pending_len(), 2);
    let place = state.find_pending(12).unwrap();
    assert_eq!(state.pending_task(place).status, TaskStatus::Queued);
    assert!(state.running_task(12).is_none());
    assert!(state.running_since(12).is_none());
    assert!(state.running_task(11).is_some());
}

#[test]
fn a_dispatched_task_that_never_answers_times_out() {
    let mut state = server(&[1]);
    let _rx = open(&mut state, 1);
    state.enqueue(shell(10, 128));
    let mut pass = DispatchPass::new();
    pass.weighed(&mut state, &vec![(1, weight(1))], moment(1_000));
    assert_eq!(pass.encoded(&mut state, Some("json"), moment(1_001)), Sent::Delivered);
    assert_eq!(state.running_since(10), Some(at(1_001)));
    let stats = node(1).stats;
    state.refresh(1, stats, at(1_400));
    sweep(&mut state, at(1_371), at(1_001));
    assert!(state.running_task(10).is_some());
    sweep(&mut state, at(1_371), at(1_101));
    assert_eq!(state.running_len(), 0);
    assert_eq!(state.pending_len(), 1);
    assert_eq!(state.pending_task(0).id, 10);
    assert_eq!(state.pending_task(0).status, TaskStatus::Queued);
    assert_eq!(state.node(1).unwrap().status, NodeStatus::Busy);
}

#[test]
fn a_dispatched_job_that_never_answers_times_out() {
    let mut state = server(&[1, 2]);
    state.enqueue(mpi(10, 2));
    let mut pass = DispatchPass::new();
    pass.weighed(&mut state, &vec![(1, weight(1)), (2, weight(2))], moment(1_000));
    pass.sent(&mut state, Sent::Delivered, moment(1_001));
    pass.sent(&mut state, Sent::Delivered, moment(1_002));
    assert_eq!(state.running_since(10), Some(at(1_002)));
    sweep(&mut state, at(0), at(1_002));
    assert_eq!(state.running_len(), 1);
    sweep(&mut state, at(0), at(1_003));
    assert_eq!(state.running_len(), 0);
    assert_eq!(state.pending_task(0).status, TaskStatus::Queued);
    assert_eq!(state.record_error(10, 0, "x".to_string()), None);
}

#[test]
fn a_task_that_times_out_too_often_has_failed() {
    let mut state = AppState::new(30, 300, 1);
    state.put_node(node(1));
    state.enqueue(shell(10, 128));
    for _ in 0..2 {
        let mut pass = DispatchPass::new();
        pass.weighed(&mut state, &vec![(1, weight(1))], moment(1_000));
        pass.sent(&mut state, Sent::Delivered, moment(1_000));
        sweep(&mut state, at(0), at(1_001));
    }
    assert_eq!(state.pending_len(), 0);
    assert_eq!(
        get_task(&state, 10).unwrap().task.status,
        TaskStatus::Failed { reason: "max retries exceeded".to_string() }
    );
}

#[test]
fn a_round_without_findings_changes_nothing() {
    let mut state = server(&[1]);
    under_way(&mut state, 10, TaskStatus::Dispatched { node_id: 1 });
    sweep(&mut state, at(0), at(0));
    assert_eq!(state.node(1).unwrap().status, NodeStatus::Online);
    assert_eq!(state.running_len(), 1);
    assert_eq!(state.pending_len(), 0);
}

#[test]
fn the_monitor_reads_the_clock() {
    let mut state = server(&[1, 2]);
    let stats = node(2).stats;
    state.refresh(2, stats, hypercompute::clock::now());
    assert!(monitor_tick(&mut state));
    assert_eq!(state.node(1).unwrap().status, NodeStatus::Offline);
    assert_eq!(state.node(2).unwrap().status, NodeStatus::Busy);
}

#[test]
fn a_timeout_beyond_the_calendar_stops_the_monitor() {
    let mut state = AppState::new(1 << 62, 300, 3);
    state.put_node(node(1));
    assert!(!monitor_tick(&mut state));
    assert_eq!(state.node(1).unwrap().status, NodeStatus::Online);
}

#[test]
fn a_task_timeout_beyond_the_calendar_still_lets_silent_nodes_be_lost() {
    let mut state = AppState::new(30, 1 << 62, 3);
    state.put_node(node(1));
    under_way(&mut state, 10, TaskStatus::Dispatched { node_id: 1 });
    assert!(!monitor_tick(&mut state));
    assert_eq!(state.node(1).unwrap().status, NodeStatus::Offline);
    assert_eq!(state.running_len(), 0);
    assert_eq!(state.pending_len(), 1);
}
