use hypercompute::api::{
    NodesResponse, ServerStatusResponse, SubmitTaskResponse, TaskStatusResponse,
};
use hypercompute::clock::Timestamp;
use hypercompute::node::{NodeCapabilities, NodeInfo, NodeStats, NodeStatus};
use hypercompute::output::{MpiRankOutput, TaskOutput};
use hypercompute::show::{
    can_show, list_nodes, poll_step, print_task_status, server_info, status_text,
    status_text_with, submission_lines, waiting_line,
};
use hypercompute::submitter::{
    build_task_kind, nodes_url, parse_task_id, status_url, submit_request, task_id_of, task_url,
    tasks_url, SubmitArgs, SubmitKind,
};
use hypercompute::task::{Percent, Task, TaskKind, TaskRequirements, TaskStatus};

const ID: u128 = 0x3bd8305d_6952_4f69_b3be_0813d160ff6e;
const ID_TEXT: &str = "3bd8305d-6952-4f69-b3be-0813d160ff6e";

fn submit_args(kind: SubmitKind) -> SubmitArgs {
    SubmitArgs {
        kind,
        priority: 200,
        min_cpu: Percent { bits: 12.5f32.to_bits() },
        min_ram: 4096,
        gpu: true,
        tags: vec!["python3".to_string()],
        region: Some("eu-west".to_string()),
        wait: false,
    }
}

fn mpi(env: &[&str]) -> SubmitKind {
    SubmitKind::Mpi {
        program: "sim".to_string(),
        args: vec!["x".to_string()],
        np: 8,
        mpirun: true,
        env: env.iter().map(|s| s.to_string()).collect(),
        timeout: 300,
    }
}

fn response(status: TaskStatus) -> TaskStatusResponse {
    let mut task = Task::stamped(
        TaskKind::Custom { tag: "t".to_string(), payload: vec![] },
        TaskRequirements::default(),
        128,
        ID,
        Timestamp { secs: 0, nanos: 0 },
    );
    task.status = status;
    TaskStatusResponse { task, result: None, mpi_results: None }
}

fn output(exit_code: i32, stdout: &str, stderr: &str) -> TaskOutput {
    TaskOutput {
        exit_code,
        stdout: stdout.to_string(),
        stderr: stderr.to_string(),
        body: None,
        custom_result: None,
    }
}

#[test]
fn a_shell_command_is_submitted() {
    let request = submit_request(&submit_args(SubmitKind::Shell {
        command: "ls".to_string(),
        args: vec!["-la".to_string()],
        timeout: 60,
    }))
    .unwrap();
    match &request.kind {
        TaskKind::Shell { command, args, timeout_secs } => {
            assert_eq!((command.as_str(), *timeout_secs), ("ls", 60));
            assert_eq!(args, &vec!["-la".to_string()]);
        }
        other => panic!("unexpected {:?}", other),
    }
    assert_eq!(request.priority, 200);
    assert_eq!(request.meta.len(), 0);
    assert_eq!(
        request.requirements,
        TaskRequirements {
            min_cpu_free_pct: Percent { bits: 12.5f32.to_bits() },
            min_ram_free_mb: 4096,
            requires_gpu: true,
            required_tags: vec!["python3".to_string()],
            preferred_region: Some("eu-west".to_string()),
            mpi_slots_per_node: None,
        }
    );
}

#[test]
fn a_fetch_is_submitted() {
    let (kind, extra) = build_task_kind(&submit_args(SubmitKind::Fetch {
        url: "http://x".to_string(),
        method: "POST".to_string(),
        body: Some("{}".to_string()),
    }))
    .unwrap();
    match kind {
        TaskKind::HttpFetch { url, method, body } => {
            assert_eq!((url.as_str(), method.as_str()), ("http://x", "POST"));
            assert_eq!(body.as_deref(), Some("{}"));
        }
        other => panic!("unexpected {:?}", other),
    }
    assert_eq!(extra, TaskRequirements::default());
}

#[test]
fn a_job_is_submitted_with_its_variables() {
    let request =
        submit_request(&submit_args(mpi(&["A=1", "B=x=y", "A=2", "=empty", "C="]))).unwrap();
    match &request.kind {
        TaskKind::Mpi { program, args, np, env, timeout_secs, use_mpirun } => {
            assert_eq!((program.as_str(), args.len(), *np), ("sim", 1, 8));
            assert_eq!((*timeout_secs, *use_mpirun), (300, true));
            assert_eq!(env.len(), 4);
            assert_eq!(env.get("A"), Some("2"));
            assert_eq!(env.get("B"), Some("x=y"));
            assert_eq!(env.get(""), Some("empty"));
            assert_eq!(env.get("C"), Some(""));
        }
        other => panic!("unexpected {:?}", other),
    }
    assert_eq!(request.requirements.mpi_slots_per_node, Some(1));
}

#[test]
fn a_variable_without_a_value_is_refused() {
    let args = submit_args(mpi(&["A=1", "oops", "worse"]));
    assert_eq!(submit_request(&args).unwrap_err(), "--env must be KEY=VALUE, got: oops");
    assert_eq!(build_task_kind(&args).unwrap_err(), "--env must be KEY=VALUE, got: oops");
}

#[test]
fn identifiers_are_read_and_written() {
    assert_eq!(parse_task_id(ID_TEXT), Ok(ID));
    assert_eq!(parse_task_id("3BD8305D69524F69B3BE0813D160FF6E"), Ok(ID));
    assert_eq!(parse_task_id("not an id"), Err("Invalid task UUID".to_string()));
    assert_eq!(parse_task_id(""), Err("Invalid task UUID".to_string()));
    assert_eq!(task_id_of(Some(5)), Ok(5));
    assert_eq!(task_id_of(None), Err("Invalid task UUID".to_string()));
}

#[test]
fn addresses_stand_below_the_server() {
    let server = "http://localhost:7700";
    assert_eq!(tasks_url(server), "http://localhost:7700/api/v1/tasks");
    assert_eq!(
        task_url(server, ID),
        format!("http://localhost:7700/api/v1/tasks/{}", ID_TEXT)
    );
    assert_eq!(nodes_url(server), "http://localhost:7700/api/v1/nodes");
    assert_eq!(status_url(server), "http://localhost:7700/api/v1/status");
}

#[test]
fn statuses_are_shown() {
    let text = |status: TaskStatus| status_text(&status);
    let started_at = Timestamp { secs: 1_700_000_000, nanos: 5_000_000 };
    assert_eq!(text(TaskStatus::Queued), "Queued");
    assert_eq!(text(TaskStatus::TimedOut), "TimedOut");
    assert_eq!(
        text(TaskStatus::Dispatched { node_id: ID }),
        format!("Dispatched {{ node_id: {} }}", ID_TEXT)
    );
    assert_eq!(
        text(TaskStatus::MpiDispatched { job_id: ID, node_ids: vec![ID, 0] }),
        format!(
            "MpiDispatched {{ job_id: {0}, node_ids: [{0}, 00000000-0000-0000-0000-000000000000] }}",
            ID_TEXT
        )
    );
    assert_eq!(
        text(TaskStatus::MpiDispatched { job_id: ID, node_ids: vec![] }),
        format!("MpiDispatched {{ job_id: {}, node_ids: [] }}", ID_TEXT)
    );
    assert_eq!(
        text(TaskStatus::Running { node_id: ID, started_at }),
        format!("Running {{ node_id: {}, started_at: 2023-11-14T22:13:20.005Z }}", ID_TEXT)
    );
    assert_eq!(
        text(TaskStatus::MpiRunning { job_id: ID, started_at, total_ranks: 4 }),
        format!(
            "MpiRunning {{ job_id: {}, started_at: 2023-11-14T22:13:20.005Z, total_ranks: 4 }}",
            ID_TEXT
        )
    );
    assert_eq!(
        text(TaskStatus::Completed { node_id: ID, duration_ms: 8 }),
        format!("Completed {{ node_id: {}, duration_ms: 8 }}", ID_TEXT)
    );
    assert_eq!(
        text(TaskStatus::MpiCompleted {
            job_id: ID,
            duration_ms: 234,
            ranks_ok: 4,
            ranks_failed: 0
        }),
        format!(
            "MpiCompleted {{ job_id: \"{}\", duration_ms: 234, ranks_ok: 4, ranks_failed: 0 }}",
            ID_TEXT
        )
    );
    assert_eq!(
        text(TaskStatus::Failed { reason: "a \"b\"\n".to_string() }),
        "Failed { reason: \"a \\\"b\\\"\\n\" }"
    );
    let status = TaskStatus::Failed { reason: String::new() };
    assert_eq!(status_text_with(&status, "t", "q"), "Failed { reason: q }");
    assert!(can_show(&TaskStatus::Running { node_id: 1, started_at }));
    let nowhere = Timestamp { secs: i64::MAX, nanos: 0 };
    assert!(!can_show(&TaskStatus::Running { node_id: 1, started_at: nowhere }));
    assert!(can_show(&TaskStatus::Queued));
}

#[test]
fn a_submission_is_shown() {
    let lines = submission_lines(&SubmitTaskResponse { task_id: ID, status: TaskStatus::Queued });
    assert_eq!(lines, vec![format!("Task submitted: {}", ID_TEXT), "Status: Queued".to_string()]);
    assert_eq!(waiting_line(ID), format!("Waiting for task {}…", ID_TEXT));
}

#[test]
fn a_completed_task_ends_the_wait() {
    let mut r = response(TaskStatus::Completed { node_id: ID, duration_ms: 8 });
    r.result = Some(output(0, "hello world\n", " warn "));
    let step = poll_step(&r);
    assert_eq!(
        step.shown,
        vec![
            format!("✓ Completed in 8ms (node: {})", ID_TEXT),
            "--- stdout ---\nhello world".to_string(),
            "--- stderr ---\nwarn".to_string(),
            "Exit code: 0".to_string(),
        ]
    );
    assert!(step.complaints.is_empty());
    assert_eq!(step.verdict, Some(Ok(())));
    r.result = Some(output(-1, "", ""));
    assert_eq!(poll_step(&r).shown[1..], ["Exit code: -1".to_string()]);
    r.result = None;
    assert_eq!(poll_step(&r).shown.len(), 1);
}

#[test]
fn a_completed_job_shows_its_ranks() {
    let mut r = response(TaskStatus::MpiCompleted {
        job_id: ID,
        duration_ms: 23,
        ranks_ok: 2,
        ranks_failed: 0,
    });
    r.mpi_results = Some(vec![
        MpiRankOutput { rank: 0, node_id: ID, output: output(0, "0\nzero\n", "") },
        MpiRankOutput { rank: 1, node_id: ID, output: output(3, "", "") },
    ]);
    let step = poll_step(&r);
    assert_eq!(
        step.shown,
        vec![
            format!("✓ MPI job {} completed in 23ms  (2 ranks OK, 0 failed)", ID_TEXT),
            format!("  rank 0 (node {})  exit=0", ID_TEXT),
            "    [rank 0] 0".to_string(),
            "    [rank 0] zero".to_string(),
            format!("  rank 1 (node {})  exit=3", ID_TEXT),
        ]
    );
    assert_eq!(step.verdict, Some(Ok(())));
}

#[test]
fn a_failed_rank_fails_the_wait() {
    let r = response(TaskStatus::MpiCompleted {
        job_id: ID,
        duration_ms: 23,
        ranks_ok: 1,
        ranks_failed: 3,
    });
    assert_eq!(poll_step(&r).verdict, Some(Err("3 MPI rank(s) failed".to_string())));
}

#[test]
fn a_failed_task_fails_the_wait() {
    let step = poll_step(&response(TaskStatus::Failed { reason: "why".to_string() }));
    assert!(step.shown.is_empty());
    assert_eq!(step.complaints, vec!["✗ Failed: why".to_string()]);
    assert_eq!(step.verdict, Some(Err("Task failed: why".to_string())));
    let step = poll_step(&response(TaskStatus::TimedOut));
    assert_eq!(step.complaints, vec!["✗ Timed out".to_string()]);
    assert_eq!(step.verdict, Some(Err("Task timed out".to_string())));
}

#[test]
fn an_unfinished_task_is_waited_for() {
    let step = poll_step(&response(TaskStatus::Queued));
    assert_eq!(step.shown, vec!["  status: Queued".to_string()]);
    assert!(step.complaints.is_empty());
    assert_eq!(step.verdict, None);
    for status in [
        TaskStatus::Dispatched { node_id: 1 },
        TaskStatus::MpiDispatched { job_id: 1, node_ids: vec![] },
        TaskStatus::Running { node_id: 1, started_at: Timestamp { secs: 0, nanos: 0 } },
    ] {
        assert_eq!(poll_step(&response(status)).verdict, None);
    }
}

#[test]
fn a_task_that_was_asked_for_is_shown() {
    let mut r = response(TaskStatus::Completed { node_id: ID, duration_ms: 8 });
    r.result = Some(output(2, " out ", "err"));
    assert_eq!(
        print_task_status(&r),
        vec![
            format!("Task:     {}", ID_TEXT),
            "Priority: 128".to_string(),
            format!("Status:   Completed {{ node_id: {}, duration_ms: 8 }}", ID_TEXT),
            "Exit:     2".to_string(),
            "--- stdout ---\nout".to_string(),
        ]
    );
    let mut r = response(TaskStatus::Queued);
    r.mpi_results =
        Some(vec![MpiRankOutput { rank: 1, node_id: ID, output: output(0, "x", "") }]);
    assert_eq!(
        print_task_status(&r)[3..],
        [format!("  rank 1 node {} exit=0", ID_TEXT)]
    );
}

fn node(tags: &[&str]) -> NodeInfo {
    NodeInfo {
        id: ID,
        name: "bazzite".to_string(),
        capabilities: NodeCapabilities {
            cpu_cores: 8,
            total_ram_mb: 16_000,
            has_gpu: false,
            tags: tags.iter().map(|s| s.to_string()).collect(),
            region: "eu-west".to_string(),
            os: "linux-x86_64".to_string(),
            mpi_host: "192.168.1.42".to_string(),
            has_mpirun: !tags.is_empty(),
        },
        stats: NodeStats {
            cpu_used_pct: Percent { bits: 12.3f32.to_bits() },
            ram_free_mb: 14_823,
            active_tasks: 0,
            latency_ms: None,
            reported_at: Timestamp { secs: 0, nanos: 0 },
        },
        status: NodeStatus::Online,
        last_seen: Timestamp { secs: 0, nanos: 0 },
    }
}

#[test]
fn nodes_are_shown_in_a_table() {
    let empty = NodesResponse { nodes: vec![] };
    assert_eq!(list_nodes(&empty, &vec![]), vec!["No nodes registered.".to_string()]);
    let response = NodesResponse { nodes: vec![node(&["python3", "ffmpeg"]), node(&[])] };
    let lines = list_nodes(&response, &vec!["12.3".to_string(), "5.0".to_string()]);
    assert_eq!(lines.len(), 5);
    assert_eq!(
        lines[0],
        "NODE ID                                NAME                 STATUS     CPU%used RAM free Tasks  Region   mpirun MPI host"
    );
    assert_eq!(lines[1], "-".repeat(120));
    assert_eq!(
        lines[2],
        "3bd8305d-6952-4f69-b3be-0813d160ff6e  bazzite              Online     12.3     14823MB 0      eu-west  yes    192.168.1.42"
    );
    assert_eq!(lines[3], "  tags: python3, ffmpeg");
    assert_eq!(
        lines[4],
        "3bd8305d-6952-4f69-b3be-0813d160ff6e  bazzite              Online     5.0      14823MB 0      eu-west  no     192.168.1.42"
    );
}

#[test]
fn wide_and_narrow_columns_are_kept_apart() {
    let mut n = node(&[]);
    n.stats.ram_free_mb = 4_096;
    n.stats.active_tasks = 2;
    let mut wide = node(&[]);
    wide.stats.ram_free_mb = 1_310_720;
    let response = NodesResponse { nodes: vec![n, wide] };
    let lines = list_nodes(&response, &vec!["78.1".to_string(), "5.0".to_string()]);
    assert_eq!(
        lines[2],
        "3bd8305d-6952-4f69-b3be-0813d160ff6e  bazzite              Online     78.1     4096MB  2      eu-west  no     192.168.1.42"
    );
    assert_eq!(
        lines[3],
        "3bd8305d-6952-4f69-b3be-0813d160ff6e  bazzite              Online     5.0      1310720MB 0      eu-west  no     192.168.1.42"
    );
}

#[test]
fn a_finished_job_that_was_asked_for_is_shown() {
    let r = response(TaskStatus::MpiCompleted {
        job_id: ID,
        duration_ms: 234,
        ranks_ok: 4,
        ranks_failed: 0,
    });
    assert_eq!(
        print_task_status(&r)[2],
        format!(
            "Status:   MpiCompleted {{ job_id: \"{}\", duration_ms: 234, ranks_ok: 4, ranks_failed: 0 }}",
            ID_TEXT
        )
    );
}

#[test]
fn every_node_status_has_a_name() {
    for (status, name) in [
        (NodeStatus::Online, "Online    "),
        (NodeStatus::Busy, "Busy      "),
        (NodeStatus::Draining, "Draining  "),
        (NodeStatus::Offline, "Offline   "),
    ] {
        let mut n = node(&[]);
        n.status = status;
        let lines = list_nodes(&NodesResponse { nodes: vec![n] }, &vec!["0.0".to_string()]);
        assert_eq!(&lines[2][59..69], name);
    }
}

#[test]
fn the_server_is_shown() {
    let lines = server_info(&ServerStatusResponse {
        version: "0.1.0".to_string(),
        queued_tasks: 1,
        running_tasks: 2,
        completed_tasks: 47,
        online_nodes: 3,
    });
    assert_eq!(
        lines,
        vec![
            "HyperCompute Server v0.1.0",
            "  Online nodes:    3",
            "  Queued tasks:    1",
            "  Running tasks:   2",
            "  Completed tasks: 47",
        ]
    );
}
