use hypercompute::clock::{now, Timestamp};
use hypercompute::message::{ServerMessage, WorkerMessage};
use hypercompute::node::{NodeCapabilities, NodeStats};
use hypercompute::output::TaskOutput;
use hypercompute::task::{MpiSlot, Percent, Task, TaskKind, TaskRequirements};
use hypercompute::worker::{
    build_capabilities, choose_name, collect_stats, launchers_to_probe, new_node_id, report_slot,
    report_slot_now, report_task, report_task_now, stats_at, ws_url, Action, Machine, Next,
    Reconnect, WorkerArgs, WorkerSession,
};
use std::time::{Duration, Instant};

fn args() -> WorkerArgs {
    WorkerArgs {
        name: None,
        tags: vec!["cuda".to_string()],
        region: "eu-west".to_string(),
        heartbeat_secs: 10,
        max_tasks: 4,
        mpi_host: None,
        mpi_port: 9900,
    }
}

fn machine() -> Machine {
    Machine {
        cpus: 8,
        total_memory_bytes: 16 * 1024 * 1024 * 1024 + 5,
        os: "linux".to_string(),
        arch: "x86_64".to_string(),
        has_dri: false,
        has_nvidia: false,
        launchers: vec![false, false, false, false],
        hostname: Some("box".to_string()),
    }
}

fn task(id: u128) -> Task {
    Task::stamped(
        TaskKind::Custom { tag: "t".to_string(), payload: vec![] },
        TaskRequirements::default(),
        128,
        id,
        Timestamp { secs: 0, nanos: 0 },
    )
}

fn slot(rank: u32) -> MpiSlot {
    MpiSlot { rank, size: 2, peers: vec![], job_id: 50 }
}

fn stats() -> NodeStats {
    NodeStats {
        cpu_used_pct: Percent { bits: 12.5f32.to_bits() },
        ram_free_mb: 500,
        active_tasks: 1,
        latency_ms: None,
        reported_at: Timestamp { secs: 9, nanos: 1 },
    }
}

#[test]
fn a_node_draws_its_identifier() {
    let a = new_node_id();
    let b = new_node_id();
    assert_ne!(a, b);
    assert_eq!((a >> 76) & 0xF, 4);
    assert_eq!((a >> 62) & 0x3, 2);
}

#[test]
fn a_node_is_named() {
    let id = 0xa987596b_d0a5_4096_9c8b_6dc8dc8cdc60;
    let host = || Some("bazzite".to_string());
    assert_eq!(choose_name(&Some("mine".to_string()), host(), id), "mine");
    assert_eq!(choose_name(&None, host(), id), "bazzite");
    assert_eq!(choose_name(&None, None, id), "node-a987596b");
}

#[test]
fn the_socket_stands_beside_the_server() {
    assert_eq!(ws_url("http://localhost:7700"), "ws://localhost:7700/ws");
    assert_eq!(ws_url("https://x"), "wss://x/ws");
    assert_eq!(ws_url("ws://x"), "ws://x/ws");
    assert_eq!(ws_url("http://https://x"), "ws://wss://x/ws");
}

#[test]
fn a_machine_is_described() {
    let expected = NodeCapabilities {
        cpu_cores: 8,
        total_ram_mb: 16_384,
        has_gpu: false,
        tags: vec!["cuda".to_string()],
        region: "eu-west".to_string(),
        os: "linux-x86_64".to_string(),
        mpi_host: "box".to_string(),
        has_mpirun: false,
    };
    assert_eq!(build_capabilities(&args(), &machine()), expected);
    let mut m = machine();
    m.has_dri = true;
    assert!(build_capabilities(&args(), &m).has_gpu);
    let mut m = machine();
    m.has_nvidia = true;
    assert!(build_capabilities(&args(), &m).has_gpu);
    let mut m = machine();
    m.launchers[2] = true;
    assert!(build_capabilities(&args(), &m).has_mpirun);
    let mut m = machine();
    m.hostname = None;
    assert_eq!(build_capabilities(&args(), &m).mpi_host, "localhost");
    let mut a = args();
    a.mpi_host = Some("192.168.1.42".to_string());
    assert_eq!(build_capabilities(&a, &m).mpi_host, "192.168.1.42");
    assert_eq!(
        launchers_to_probe(),
        vec!["mpirun", "mpiexec", "mpirun.openmpi", "mpiexec.mpich"]
    );
}

#[test]
fn the_load_is_measured() {
    let cpu = Percent { bits: 50.0f32.to_bits() };
    let s = stats_at(2, cpu, 3 * 1024 * 1024 + 7, Timestamp { secs: 5, nanos: 6 });
    assert_eq!(
        s,
        NodeStats {
            cpu_used_pct: cpu,
            ram_free_mb: 3,
            active_tasks: 2,
            latency_ms: None,
            reported_at: Timestamp { secs: 5, nanos: 6 },
        }
    );
    let before = now();
    let s = collect_stats(2, cpu, 1024 * 1024);
    assert_eq!((s.ram_free_mb, s.active_tasks), (1, 2));
    assert!(!s.reported_at.before(&before));
}

#[test]
fn waits_double_up_to_a_minute() {
    let mut r = Reconnect::new();
    for secs in [1, 2, 4, 8, 16, 32, 60, 60] {
        assert_eq!(r.failed(false), Next::Wait { secs });
        assert_eq!(r.go_on(false), Next::Connect);
    }
    r.connected();
    assert_eq!(r.failed(false), Next::Wait { secs: 1 });
    assert_eq!(r.failed(true), Next::Stop);
    assert_eq!(r.failed(false), Next::Wait { secs: 2 });
    assert_eq!(r.go_on(true), Next::Stop);
}

#[test]
fn work_is_accepted_up_to_the_limit() {
    let mut session = WorkerSession::new(7, 2);
    assert!(matches!(
        session.handle_message(ServerMessage::DispatchTask { task: task(1) }),
        Action::Execute(t) if t.id == 1
    ));
    assert!(matches!(
        session.handle_message(ServerMessage::DispatchMpiSlot { task: task(50), slot: slot(1) }),
        Action::ExecuteSlot { task: t, slot: s } if t.id == 50 && s.rank == 1
    ));
    assert_eq!(session.active(), 2);
    match session.handle_message(ServerMessage::DispatchTask { task: task(3) }) {
        Action::Answer(WorkerMessage::TaskError { task_id, node_id, reason }) => {
            assert_eq!((task_id, node_id), (3, 7));
            assert_eq!(reason, "worker at capacity (2/2)");
        }
        other => panic!("unexpected {:?}", other),
    }
    match session.handle_message(ServerMessage::DispatchMpiSlot { task: task(50), slot: slot(1) })
    {
        Action::Answer(WorkerMessage::MpiRankError { job_id, task_id, node_id, rank, reason }) => {
            assert_eq!((job_id, task_id, node_id, rank), (50, 50, 7, 1));
            assert_eq!(reason, "worker at capacity (2/2)");
        }
        other => panic!("unexpected {:?}", other),
    }
    session.finished();
    assert_eq!(session.active(), 1);
    assert!(matches!(
        session.handle_message(ServerMessage::DispatchTask { task: task(3) }),
        Action::Execute(_)
    ));
}

#[test]
fn other_messages_start_nothing() {
    let mut session = WorkerSession::new(7, 2);
    assert!(matches!(
        session.handle_message(ServerMessage::Registered { node_id: 7 }),
        Action::Ignore
    ));
    assert!(matches!(
        session.handle_message(ServerMessage::CancelTask { task_id: 1 }),
        Action::Ignore
    ));
    assert!(matches!(
        session.handle_message(ServerMessage::AbortMpiJob { job_id: 1, reason: "r".to_string() }),
        Action::Ignore
    ));
    assert!(matches!(session.handle_message(ServerMessage::ServerShutdown), Action::EndSession));
    assert_eq!(session.active(), 0);
}

#[test]
fn a_worker_introduces_itself_and_keeps_in_touch() {
    let session = WorkerSession::new(7, 2);
    let caps = build_capabilities(&args(), &machine());
    match session.register("me".to_string(), caps.clone()) {
        WorkerMessage::Register { node_id, name, capabilities } => {
            assert_eq!((node_id, name.as_str()), (7, "me"));
            assert_eq!(capabilities, caps);
        }
        other => panic!("unexpected {:?}", other),
    }
    let (messages, last) = session.beat(stats(), false);
    assert!(!last);
    assert_eq!(messages.len(), 1);
    assert!(matches!(
        &messages[0],
        WorkerMessage::Heartbeat { node_id: 7, stats: s } if *s == stats()
    ));
    let (messages, last) = session.beat(stats(), true);
    assert!(last);
    assert_eq!(messages.len(), 2);
    assert!(matches!(&messages[1], WorkerMessage::Draining { node_id: 7 }));
}

#[test]
fn ended_work_is_reported() {
    let ok = || Ok(TaskOutput::success("out".to_string()));
    match report_task(7, 1, 12, ok()) {
        WorkerMessage::TaskResult { task_id, node_id, duration_ms, output } => {
            assert_eq!((task_id, node_id, duration_ms), (1, 7, 12));
            assert_eq!(output.stdout, "out");
        }
        other => panic!("unexpected {:?}", other),
    }
    match report_task(7, 1, 12, Err("why".to_string())) {
        WorkerMessage::TaskError { task_id, node_id, reason } => {
            assert_eq!((task_id, node_id, reason.as_str()), (1, 7, "why"));
        }
        other => panic!("unexpected {:?}", other),
    }
    match report_slot(7, 1, 50, 3, 12, ok()) {
        WorkerMessage::MpiRankResult { job_id, task_id, node_id, rank, duration_ms, output } => {
            assert_eq!((job_id, task_id, node_id, rank, duration_ms), (50, 1, 7, 3, 12));
            assert_eq!(output.stdout, "out");
        }
        other => panic!("unexpected {:?}", other),
    }
    match report_slot(7, 1, 50, 3, 12, Err("why".to_string())) {
        WorkerMessage::MpiRankError { job_id, task_id, node_id, rank, reason } => {
            assert_eq!((job_id, task_id, node_id, rank), (50, 1, 7, 3));
            assert_eq!(reason, "why");
        }
        other => panic!("unexpected {:?}", other),
    }
}

#[test]
fn the_time_that_work_took_is_measured() {
    let started = Instant::now();
    while started.elapsed() < Duration::from_millis(20) {}
    match report_task_now(7, 1, &started, Ok(TaskOutput::success(String::new()))) {
        WorkerMessage::TaskResult { duration_ms, .. } => {
            assert!(duration_ms >= 20 && duration_ms < 10_000)
        }
        other => panic!("unexpected {:?}", other),
    }
    match report_slot_now(7, 1, 50, 3, &started, Ok(TaskOutput::success(String::new()))) {
        WorkerMessage::MpiRankResult { duration_ms, .. } => {
            assert!(duration_ms >= 20 && duration_ms < 10_000)
        }
        other => panic!("unexpected {:?}", other),
    }
}
