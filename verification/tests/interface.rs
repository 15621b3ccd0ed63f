use hypercompute::api::{
    default_priority, ServerStatusResponse, SubmitTaskRequest, SubmitTaskResponse,
};
use hypercompute::clock::{now, Timestamp};
use hypercompute::job::MpiJobState;
use hypercompute::message::{ServerMessage, WorkerMessage};
use hypercompute::node::{NodeCapabilities, NodeInfo, NodeStats, NodeStatus};
use hypercompute::output::TaskOutput;
use hypercompute::rest::{
    cancel_task, get_task, list_nodes, server_status, submit_stamped, submit_task,
};
use hypercompute::state::AppState;
use hypercompute::string_map::StringMap;
use hypercompute::task::{Percent, TaskKind, TaskRequirements, TaskStatus};

fn at(secs: i64) -> Timestamp {
    Timestamp { secs, nanos: 0 }
}

fn request(priority: u8) -> SubmitTaskRequest {
    let mut meta = StringMap::new();
    meta.insert("k".to_string(), "v".to_string());
    SubmitTaskRequest {
        kind: TaskKind::HttpFetch {
            url: "http://x".to_string(),
            method: "GET".to_string(),
            body: None,
        },
        requirements: TaskRequirements::default(),
        priority,
        meta,
    }
}

fn node(id: u128, status: NodeStatus) -> NodeInfo {
    NodeInfo {
        id,
        name: format!("n{}", id),
        capabilities: NodeCapabilities {
            cpu_cores: 1,
            total_ram_mb: 1,
            has_gpu: false,
            tags: vec![],
            region: "default".to_string(),
            os: "linux-x86_64".to_string(),
            mpi_host: "h".to_string(),
            has_mpirun: false,
        },
        stats: NodeStats {
            cpu_used_pct: Percent { bits: 0 },
            ram_free_mb: 1,
            active_tasks: 0,
            latency_ms: None,
            reported_at: at(0),
        },
        status,
        last_seen: at(0),
    }
}

#[test]
fn a_submitted_task_waits_and_can_be_asked_for() {
    let mut state = AppState::new(30, 300, 3);
    let answer = submit_stamped(&mut state, request(9), 42, at(100));
    assert_eq!(answer.task_id, 42);
    assert_eq!(answer.status, TaskStatus::Queued);
    let found = get_task(&state, 42).unwrap();
    assert_eq!(found.task.status, TaskStatus::Queued);
    assert_eq!(found.task.priority, 9);
    assert_eq!(found.task.submitted_at, at(100));
    assert_eq!(found.task.meta.len(), 0);
    assert!(found.result.is_none() && found.mpi_results.is_none());
    assert!(get_task(&state, 43).is_none());
}

#[test]
fn a_submission_draws_an_identifier_and_a_time() {
    let mut state = AppState::new(30, 300, 3);
    let before = now();
    let a = submit_task(&mut state, request(9));
    let b = submit_task(&mut state, request(9));
    assert_ne!(a.task_id, b.task_id);
    assert!(!get_task(&state, a.task_id).unwrap().task.submitted_at.before(&before));
}

#[test]
fn a_waiting_task_can_be_cancelled() {
    let mut state = AppState::new(30, 300, 3);
    submit_stamped(&mut state, request(9), 41, at(100));
    submit_stamped(&mut state, request(9), 42, at(101));
    submit_stamped(&mut state, request(9), 43, at(102));
    assert!(cancel_task(&mut state, 42));
    assert!(!cancel_task(&mut state, 42));
    assert!(get_task(&state, 42).is_none());
    assert_eq!(state.pending_len(), 2);
    assert_eq!(state.pending_task(0).id, 41);
    assert_eq!(state.pending_task(1).id, 43);
}

#[test]
fn a_running_task_cannot_be_cancelled() {
    let mut state = AppState::new(30, 300, 3);
    submit_stamped(&mut state, request(9), 42, at(100));
    let mut task = state.take_pending(0);
    task.status = TaskStatus::Dispatched { node_id: 1 };
    state.put_running(task, at(600));
    assert!(!cancel_task(&mut state, 42));
    assert_eq!(
        get_task(&state, 42).unwrap().task.status,
        TaskStatus::Dispatched { node_id: 1 }
    );
}

#[test]
fn every_node_is_listed_once() {
    let mut state = AppState::new(30, 300, 3);
    assert!(list_nodes(&state).nodes.is_empty());
    state.put_node(node(1, NodeStatus::Online));
    state.put_node(node(2, NodeStatus::Offline));
    state.put_node(node(1, NodeStatus::Busy));
    let mut nodes = list_nodes(&state).nodes;
    nodes.sort_by_key(|n| n.id);
    assert_eq!(nodes, vec![node(1, NodeStatus::Busy), node(2, NodeStatus::Offline)]);
}

#[test]
fn the_server_counts() {
    let mut state = AppState::new(30, 300, 3);
    state.put_node(node(1, NodeStatus::Online));
    state.put_node(node(2, NodeStatus::Busy));
    state.put_node(node(3, NodeStatus::Draining));
    state.put_node(node(4, NodeStatus::Offline));
    submit_stamped(&mut state, request(9), 41, at(100));
    submit_stamped(&mut state, request(9), 42, at(100));
    submit_stamped(&mut state, request(9), 43, at(100));
    let task = state.take_pending(0);
    state.put_running(task, at(600));
    let task = state.take_pending(0);
    state.complete_task(task, None, None);
    let status = server_status(&state, "0.1.0");
    assert_eq!(status.version, "0.1.0");
    assert_eq!(status.queued_tasks, 1);
    assert_eq!(status.running_tasks, 1);
    assert_eq!(status.completed_tasks, 1);
    assert_eq!(status.online_nodes, 2);
}

#[test]
fn defaults_are_as_documented() {
    assert_eq!(default_priority(), 128);
    let req = TaskRequirements::default();
    assert_eq!(f32::from_bits(req.min_cpu_free_pct.bits), 0.0);
    assert_eq!(req.min_ram_free_mb, 0);
    assert!(!req.requires_gpu);
    assert!(req.required_tags.is_empty());
    assert_eq!(req.preferred_region, None);
    assert_eq!(req.mpi_slots_per_node, None);
}

#[test]
fn outputs_are_made_for_success_and_failure() {
    let ok = TaskOutput::success("out".to_string());
    assert_eq!((ok.exit_code, ok.stdout.as_str(), ok.stderr.as_str()), (0, "out", ""));
    assert_eq!((ok.body.clone(), ok.custom_result.clone()), (None, None));
    let bad = TaskOutput::failure(3, "err".to_string());
    assert_eq!((bad.exit_code, bad.stdout.as_str(), bad.stderr.as_str()), (3, "", "err"));
    assert_eq!((bad.body, bad.custom_result), (None, None));
}

#[test]
fn a_job_gathers_its_ranks() {
    let mut job = MpiJobState::new(5, 3);
    assert!(!job.is_complete());
    assert_eq!((job.ranks_ok(), job.ranks_failed()), (0, 0));
    job.record_result(2, TaskOutput::success("c".to_string()), 12);
    job.record_error(1, "no".to_string());
    job.record_result(3, TaskOutput::success("x".to_string()), 13);
    job.record_error(9, "x".to_string());
    assert!(!job.is_complete());
    job.record_result(0, TaskOutput::success("a".to_string()), 10);
    assert!(job.is_complete());
    assert_eq!((job.ranks_ok(), job.ranks_failed()), (2, 1));
    let outputs = job.into_rank_outputs();
    let ranks: Vec<(u32, u128)> = outputs.iter().map(|o| (o.rank, o.node_id)).collect();
    assert_eq!(ranks, vec![(0, 10), (2, 12)]);
    assert_eq!(outputs[1].output.stdout, "c");
}

#[test]
fn a_rank_may_report_twice() {
    let mut job = MpiJobState::new(5, 1);
    job.record_error(0, "no".to_string());
    job.record_result(0, TaskOutput::success("yes".to_string()), 10);
    assert!(job.is_complete());
    assert_eq!((job.ranks_ok(), job.ranks_failed()), (1, 1));
}

#[test]
fn a_job_without_ranks_is_complete() {
    assert!(MpiJobState::new(5, 0).is_complete());
}

#[test]
fn it_does_not_matter_in_which_order_ranks_report() {
    let report = |ranks: [u32; 2]| {
        let mut job = MpiJobState::new(5, 2);
        for rank in ranks {
            job.record_result(rank, TaskOutput::success(format!("{}", rank)), rank as u128);
        }
        job.into_rank_outputs()
    };
    assert_eq!(report([0, 1]), report([1, 0]));
}

#[test]
fn a_finished_task_is_found_behind_a_waiting_and_a_running_one() {
    let mut state = AppState::new(30, 300, 3);
    submit_stamped(&mut state, request(9), 42, at(100));
    let mut done = state.pending_task(0).clone();
    done.status = TaskStatus::TimedOut;
    state.complete_task(done, None, None);
    assert_eq!(get_task(&state, 42).unwrap().task.status, TaskStatus::Queued);
    let mut task = state.take_pending(0);
    task.status = TaskStatus::Dispatched { node_id: 1 };
    state.put_running(task, at(600));
    assert_eq!(
        get_task(&state, 42).unwrap().task.status,
        TaskStatus::Dispatched { node_id: 1 }
    );
    state.take_running(42);
    assert_eq!(get_task(&state, 42).unwrap().task.status, TaskStatus::TimedOut);
}

#[test]
fn kinds_are_compared_by_their_contents() {
    let mpi = |pairs: &[(&str, &str)]| {
        let mut env = StringMap::new();
        for (key, value) in pairs {
            env.insert(key.to_string(), value.to_string());
        }
        TaskKind::Mpi {
            program: "sim".to_string(),
            args: vec!["x".to_string()],
            np: 2,
            env,
            timeout_secs: 3,
            use_mpirun: true,
        }
    };
    assert!(mpi(&[("a", "1"), ("b", "2")]) == mpi(&[("b", "2"), ("a", "1")]));
    assert!(mpi(&[("a", "1")]) != mpi(&[("a", "2")]));
    assert!(mpi(&[("a", "1")]) != mpi(&[("a", "1"), ("b", "2")]));
    let shell = |args: &[&str]| TaskKind::Shell {
        command: "ls".to_string(),
        args: args.iter().map(|a| a.to_string()).collect(),
        timeout_secs: 1,
    };
    assert!(shell(&["a", "b"]) == shell(&["a", "b"]));
    assert!(shell(&["a", "b"]) != shell(&["b", "a"]));
    assert!(shell(&["a"]) != shell(&["a", "b"]));
    let custom = |payload: &[u8]| TaskKind::Custom {
        tag: "t".to_string(),
        payload: payload.to_vec(),
    };
    assert!(custom(&[1, 2]) == custom(&[1, 2]));
    assert!(custom(&[1, 2]) != custom(&[1, 3]));
    assert!(custom(&[]) != shell(&[]));
    let fetch = |body: Option<&str>| TaskKind::HttpFetch {
        url: "u".to_string(),
        method: "GET".to_string(),
        body: body.map(|b| b.to_string()),
    };
    assert!(fetch(Some("b")) == fetch(Some("b")));
    assert!(fetch(Some("b")) != fetch(None));
}

#[test]
fn a_copy_holds_the_same() {
    let mut job = MpiJobState::new(5, 3);
    job.record_result(2, TaskOutput::success("c".to_string()), 12);
    job.record_error(1, "no".to_string());
    let copy = job.clone();
    assert_eq!((copy.task_id, copy.total_ranks), (5, 3));
    assert_eq!(copy.results, job.results);
    assert_eq!(copy.errors, job.errors);
    assert_eq!(copy.started_at, job.started_at);
    let status = ServerStatusResponse {
        version: "0.1.0".to_string(),
        queued_tasks: 1,
        running_tasks: 2,
        completed_tasks: 3,
        online_nodes: 4,
    };
    assert_eq!(status.clone(), status);
    let answer = SubmitTaskResponse { task_id: 9, status: TaskStatus::Queued };
    assert_eq!(answer.clone(), answer);
    let asked = request(9);
    let again = asked.clone();
    assert_eq!(again.priority, asked.priority);
    assert_eq!(format!("{:?}", again), format!("{:?}", asked));
    for message in [
        WorkerMessage::TaskError { task_id: 1, node_id: 2, reason: "no".to_string() },
        WorkerMessage::MpiRankError {
            job_id: 1,
            task_id: 2,
            node_id: 3,
            rank: 4,
            reason: "no".to_string(),
        },
        WorkerMessage::TaskResult {
            task_id: 1,
            node_id: 2,
            duration_ms: 3,
            output: TaskOutput::success("x".to_string()),
        },
        WorkerMessage::Draining { node_id: 7 },
    ] {
        assert_eq!(format!("{:?}", message.clone()), format!("{:?}", message));
    }
    for message in [
        ServerMessage::Registered { node_id: 1 },
        ServerMessage::CancelTask { task_id: 2 },
        ServerMessage::AbortMpiJob { job_id: 3, reason: "why".to_string() },
        ServerMessage::ServerShutdown,
    ] {
        assert_eq!(format!("{:?}", message.clone()), format!("{:?}", message));
    }
}
