use hypercompute::clock::Timestamp;
use hypercompute::message::{ServerMessage, WorkerMessage};
use hypercompute::node::{NodeCapabilities, NodeStats, NodeStatus, Weight};
use hypercompute::output::TaskOutput;
use hypercompute::rest::get_task;
use hypercompute::session::{Readings, Reply, Session};
use hypercompute::state::AppState;
use hypercompute::task::{Percent, Task, TaskKind, TaskRequirements, TaskStatus};
use std::time::Instant;
use tokio::sync::mpsc::{unbounded_channel, UnboundedReceiver, UnboundedSender};

fn at(secs: i64) -> Timestamp {
    Timestamp { secs, nanos: 0 }
}

fn readings() -> Readings {
    Readings { reported_at: at(1_000), seen_at: at(1_001), job_ms: 77 }
}

fn channel() -> (UnboundedSender<String>, UnboundedReceiver<String>) {
    unbounded_channel()
}

fn capabilities() -> NodeCapabilities {
    NodeCapabilities {
        cpu_cores: 8,
        total_ram_mb: 16_000,
        has_gpu: false,
        tags: vec!["python3".to_string()],
        region: "eu-west".to_string(),
        os: "linux-x86_64".to_string(),
        mpi_host: "10.0.0.3".to_string(),
        has_mpirun: true,
    }
}

fn register(node_id: u128) -> WorkerMessage {
    WorkerMessage::Register { node_id, name: "n".to_string(), capabilities: capabilities() }
}

fn stats(active_tasks: u32) -> NodeStats {
    NodeStats {
        cpu_used_pct: Percent { bits: 12.5f32.to_bits() },
        ram_free_mb: 500,
        active_tasks,
        latency_ms: Some(3),
        reported_at: at(900),
    }
}

fn running(id: u128, status: TaskStatus) -> Task {
    let mut task = Task::stamped(
        TaskKind::Shell { command: "true".to_string(), args: vec![], timeout_secs: 60 },
        TaskRequirements::default(),
        128,
        id,
        at(500),
    );
    task.status = status;
    task
}

fn receive(session: &mut Session, state: &mut AppState, message: WorkerMessage) -> Reply {
    let (tx, _rx) = channel();
    session.receive(state, tx, message, readings())
}

fn server_with(nodes: &[u128]) -> AppState {
    let mut state = AppState::new(30, 300, 3);
    for id in nodes {
        let mut session = Session::new();
        receive(&mut session, &mut state, register(*id));
    }
    state
}

fn rank_result(job_id: u128, node_id: u128, rank: u32, text: &str) -> WorkerMessage {
    WorkerMessage::MpiRankResult {
        job_id,
        task_id: job_id,
        node_id,
        rank,
        duration_ms: 5,
        output: TaskOutput::success(text.to_string()),
    }
}

fn rank_error(job_id: u128, node_id: u128, rank: u32, reason: &str) -> WorkerMessage {
    WorkerMessage::MpiRankError {
        job_id,
        task_id: job_id,
        node_id,
        rank,
        reason: reason.to_string(),
    }
}

#[test]
fn a_registered_node_is_online_and_idle() {
    let mut state = AppState::new(30, 300, 3);
    let mut session = Session::new();
    let (tx, mut rx) = channel();
    let reply = session.receive(&mut state, tx, register(7), readings());
    assert!(matches!(reply, Reply::ToWorker(ServerMessage::Registered { node_id: 7 })));
    let node = state.node(7).unwrap();
    assert_eq!(node.status, NodeStatus::Online);
    assert_eq!(node.name, "n");
    assert_eq!(node.capabilities, capabilities());
    assert_eq!(node.stats.cpu_used_pct.bits, 0.0f32.to_bits());
    assert_eq!(node.stats.ram_free_mb, 16_000);
    assert_eq!(node.stats.active_tasks, 0);
    assert_eq!(node.stats.latency_ms, None);
    assert_eq!(node.stats.reported_at, at(1_000));
    assert_eq!(node.last_seen, at(1_001));
    assert!(state.send_to_worker(7, "x"));
    assert_eq!(rx.try_recv().unwrap(), "x");
}

#[test]
fn a_node_that_registers_again_is_reached_by_its_new_channel() {
    let mut state = AppState::new(30, 300, 3);
    let mut session = Session::new();
    let (first, mut first_rx) = channel();
    let (second, mut second_rx) = channel();
    session.receive(&mut state, first, register(7), readings());
    session.receive(&mut state, second, register(7), readings());
    assert!(state.send_to_worker(7, "x"));
    assert_eq!(second_rx.try_recv().unwrap(), "x");
    assert!(first_rx.try_recv().is_err());
}

#[test]
fn a_heartbeat_brings_the_load() {
    let mut state = server_with(&[7]);
    let mut session = Session::new();
    let reply = receive(
        &mut session,
        &mut state,
        WorkerMessage::Heartbeat { node_id: 7, stats: stats(2) },
    );
    assert!(matches!(reply, Reply::Nothing));
    assert_eq!(state.node(7).unwrap().status, NodeStatus::Busy);
    assert_eq!(state.node(7).unwrap().stats, stats(2));
    assert_eq!(state.node(7).unwrap().last_seen, at(1_001));
    receive(&mut session, &mut state, WorkerMessage::Heartbeat { node_id: 7, stats: stats(0) });
    assert_eq!(state.node(7).unwrap().status, NodeStatus::Online);
    receive(&mut session, &mut state, WorkerMessage::Heartbeat { node_id: 8, stats: stats(0) });
    assert!(state.node(8).is_none());
}

#[test]
fn a_message_is_taken_in_at_the_present_time() {
    let mut state = AppState::new(30, 300, 3);
    let mut session = Session::new();
    let before = hypercompute::clock::now();
    let (tx, _rx) = channel();
    let reply = session.handle_message(&mut state, tx, register(7));
    assert!(matches!(reply, Reply::ToWorker(ServerMessage::Registered { node_id: 7 })));
    assert!(!state.node(7).unwrap().last_seen.before(&before));
    assert!(!state.node(7).unwrap().stats.reported_at.before(&before));
}

#[test]
fn a_result_completes_the_task() {
    let mut state = server_with(&[7]);
    state.add_active(7);
    state.put_running(running(1, TaskStatus::Dispatched { node_id: 7 }), at(600));
    let mut session = Session::new();
    receive(
        &mut session,
        &mut state,
        WorkerMessage::TaskResult {
            task_id: 1,
            node_id: 7,
            duration_ms: 8,
            output: TaskOutput::success("hello world".to_string()),
        },
    );
    let answer = get_task(&state, 1).unwrap();
    assert_eq!(answer.task.status, TaskStatus::Completed { node_id: 7, duration_ms: 8 });
    assert_eq!(answer.result, Some(TaskOutput::success("hello world".to_string())));
    assert!(answer.mpi_results.is_none());
    assert_eq!(state.node(7).unwrap().stats.active_tasks, 0);
    assert_eq!(state.running_len(), 0);
}

#[test]
fn a_result_for_an_unknown_task_only_counts_down() {
    let mut state = server_with(&[7]);
    let mut session = Session::new();
    receive(
        &mut session,
        &mut state,
        WorkerMessage::TaskResult {
            task_id: 1,
            node_id: 7,
            duration_ms: 8,
            output: TaskOutput::success(String::new()),
        },
    );
    assert_eq!(state.completed_len(), 0);
    assert_eq!(state.node(7).unwrap().stats.active_tasks, 0);
}

#[test]
fn an_error_requeues_the_task() {
    let mut state = server_with(&[7]);
    state.enqueue(running(1, TaskStatus::Queued));
    let mut task = state.take_pending(0);
    task.status = TaskStatus::Dispatched { node_id: 7 };
    state.put_running(task, at(600));
    state.add_active(7);
    let mut session = Session::new();
    receive(
        &mut session,
        &mut state,
        WorkerMessage::TaskError { task_id: 1, node_id: 7, reason: "no".to_string() },
    );
    assert_eq!(get_task(&state, 1).unwrap().task.status, TaskStatus::Queued);
    assert_eq!(state.pending_len(), 1);
    assert_eq!(state.running_len(), 0);
    assert_eq!(state.node(7).unwrap().stats.active_tasks, 0);
}

#[test]
fn a_job_completes_with_its_last_rank() {
    let mut state = server_with(&[7, 8]);
    state.put_running(running(1, TaskStatus::MpiDispatched { job_id: 1, node_ids: vec![7, 8] }), at(600));
    state.start_job(1, 2, Instant::now());
    let mut session = Session::new();
    let reply = receive(&mut session, &mut state, rank_result(1, 8, 1, "one"));
    assert!(matches!(reply, Reply::Nothing));
    assert!(matches!(
        get_task(&state, 1).unwrap().task.status,
        TaskStatus::MpiDispatched { .. }
    ));
    receive(&mut session, &mut state, rank_result(1, 7, 0, "zero"));
    let answer = get_task(&state, 1).unwrap();
    assert_eq!(
        answer.task.status,
        TaskStatus::MpiCompleted { job_id: 1, duration_ms: 77, ranks_ok: 2, ranks_failed: 0 }
    );
    assert!(answer.result.is_none());
    let outputs = answer.mpi_results.unwrap();
    assert_eq!(outputs.len(), 2);
    assert_eq!((outputs[0].rank, outputs[0].node_id), (0, 7));
    assert_eq!(outputs[0].output.stdout, "zero");
    assert_eq!((outputs[1].rank, outputs[1].node_id), (1, 8));
    assert_eq!(outputs[1].output.stdout, "one");
}

#[test]
fn a_failed_rank_calls_off_the_others() {
    let mut state = server_with(&[7, 8, 9]);
    state.put_running(running(1, TaskStatus::MpiDispatched { job_id: 1, node_ids: vec![7, 8] }), at(600));
    state.start_job(1, 2, Instant::now());
    let mut session = Session::new();
    let reply = receive(&mut session, &mut state, rank_error(1, 7, 0, "boom"));
    match reply {
        Reply::ToMany(broadcast) => {
            let mut targets = broadcast.targets.clone();
            targets.sort();
            assert_eq!(targets, vec![7, 8, 9]);
            match broadcast.message {
                ServerMessage::AbortMpiJob { job_id, reason } => {
                    assert_eq!(job_id, 1);
                    assert_eq!(reason, "rank 0 failed: boom");
                }
                other => panic!("unexpected {:?}", other),
            }
        }
        other => panic!("unexpected {:?}", other),
    }
    let reply = receive(&mut session, &mut state, rank_result(1, 8, 1, "one"));
    assert!(matches!(reply, Reply::Nothing));
    let answer = get_task(&state, 1).unwrap();
    assert_eq!(
        answer.task.status,
        TaskStatus::MpiCompleted { job_id: 1, duration_ms: 77, ranks_ok: 1, ranks_failed: 1 }
    );
    assert_eq!(answer.mpi_results.unwrap().len(), 1);
}

#[test]
fn the_last_rank_may_fail() {
    let mut state = server_with(&[7]);
    state.put_running(running(1, TaskStatus::MpiDispatched { job_id: 1, node_ids: vec![7] }), at(600));
    state.start_job(1, 1, Instant::now());
    let mut session = Session::new();
    let reply = receive(&mut session, &mut state, rank_error(1, 7, 0, "boom"));
    assert!(matches!(reply, Reply::Nothing));
    assert_eq!(
        get_task(&state, 1).unwrap().task.status,
        TaskStatus::MpiCompleted { job_id: 1, duration_ms: 77, ranks_ok: 0, ranks_failed: 1 }
    );
}

#[test]
fn an_unknown_job_or_rank_changes_nothing() {
    let mut state = server_with(&[7]);
    state.add_active(7);
    state.add_active(7);
    let mut session = Session::new();
    let reply = receive(&mut session, &mut state, rank_error(5, 7, 0, "boom"));
    assert!(matches!(reply, Reply::Nothing));
    assert_eq!(state.node(7).unwrap().stats.active_tasks, 1);
    state.put_running(running(1, TaskStatus::MpiDispatched { job_id: 1, node_ids: vec![7] }), at(600));
    state.start_job(1, 1, Instant::now());
    receive(&mut session, &mut state, rank_result(1, 7, 3, "late"));
    assert_eq!(state.running_len(), 1);
}

#[test]
fn a_draining_node_is_marked() {
    let mut state = server_with(&[7]);
    let mut session = Session::new();
    receive(&mut session, &mut state, WorkerMessage::Draining { node_id: 7 });
    assert_eq!(state.node(7).unwrap().status, NodeStatus::Draining);
    for active in [2, 0] {
        receive(
            &mut session,
            &mut state,
            WorkerMessage::Heartbeat { node_id: 7, stats: stats(active) },
        );
        assert_eq!(state.node(7).unwrap().status, NodeStatus::Draining);
        assert_eq!(state.node(7).unwrap().stats, stats(active));
        assert_eq!(state.node(7).unwrap().last_seen, at(1_001));
    }
    let weight = Weight { cpu_suffices: true, score: 9 };
    assert_eq!(state.node(7).unwrap().score_for(&TaskRequirements::default(), weight), None);
    receive(&mut session, &mut state, register(7));
    assert_eq!(state.node(7).unwrap().status, NodeStatus::Online);
}

#[test]
fn a_lost_connection_requeues_what_was_under_way() {
    let mut state = AppState::new(30, 300, 3);
    let mut session = Session::new();
    receive(&mut session, &mut state, register(7));
    let mut other = Session::new();
    receive(&mut other, &mut state, register(8));
    for (id, status) in [
        (1, TaskStatus::Dispatched { node_id: 7 }),
        (2, TaskStatus::Running { node_id: 7, started_at: at(600) }),
        (3, TaskStatus::MpiDispatched { job_id: 3, node_ids: vec![8, 7] }),
        (4, TaskStatus::Dispatched { node_id: 8 }),
        (5, TaskStatus::MpiDispatched { job_id: 5, node_ids: vec![8] }),
    ] {
        state.enqueue(running(id, TaskStatus::Queued));
        let mut task = state.take_pending(0);
        task.status = status;
        state.put_running(task, at(600));
    }
    state.start_job(3, 2, Instant::now());
    state.start_job(5, 1, Instant::now());
    session.close(&mut state);
    assert_eq!(state.node(7).unwrap().status, NodeStatus::Offline);
    assert_eq!(state.node(8).unwrap().status, NodeStatus::Online);
    assert!(!state.send_to_worker(7, "x"));
    assert_eq!(state.pending_len(), 3);
    assert_eq!(state.running_len(), 2);
    assert!(state.running_task(4).is_some() && state.running_task(5).is_some());
    for id in [1, 2, 3] {
        assert_eq!(get_task(&state, id).unwrap().task.status, TaskStatus::Queued);
    }
    assert_eq!(state.record_error(3, 0, "late".to_string()), None);
    assert_eq!(state.record_error(5, 0, "now".to_string()), Some(true));
}

#[test]
fn a_worker_that_never_registered_leaves_nothing_behind() {
    let mut state = server_with(&[7]);
    Session::new().close(&mut state);
    assert_eq!(state.node(7).unwrap().status, NodeStatus::Online);
}

#[test]
fn an_idle_node_is_not_counted_below_nothing() {
    let mut state = server_with(&[7]);
    state.decrement_active(7);
    assert_eq!(state.node(7).unwrap().stats.active_tasks, 0);
    state.add_active(7);
    state.add_active(7);
    state.decrement_active(7);
    assert_eq!(state.node(7).unwrap().stats.active_tasks, 1);
    state.decrement_active(8);
    assert!(state.can_add_active(7) && state.can_add_active(8));
    state.refresh(7, stats(u32::MAX), at(1));
    assert!(!state.can_add_active(7));
}
