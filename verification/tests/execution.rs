use hypercompute::clock::Timestamp;
use hypercompute::executor::{
    execute, execute_mpi_slot, find_mpirun, launcher_candidates, outcome_of_fetch, outcome_of_run,
    output_of_exit, plan_fetch, wants_launcher, Ended, Fetched, HttpMethod, HttpRequest, Launch,
    Plan, Purpose,
};
use hypercompute::output::TaskOutput;
use hypercompute::string_map::StringMap;
use hypercompute::task::{MpiPeer, MpiSlot, Task, TaskKind, TaskRequirements};

fn task(kind: TaskKind) -> Task {
    Task::stamped(kind, TaskRequirements::default(), 128, 1, Timestamp { secs: 0, nanos: 0 })
}

fn shell() -> Task {
    task(TaskKind::Shell {
        command: "echo".to_string(),
        args: vec!["hello".to_string(), "world".to_string()],
        timeout_secs: 60,
    })
}

fn fetch(method: &str, body: Option<&str>) -> Task {
    task(TaskKind::HttpFetch {
        url: "http://x/y".to_string(),
        method: method.to_string(),
        body: body.map(|b| b.to_string()),
    })
}

fn mpi(use_mpirun: bool) -> Task {
    let mut env = StringMap::new();
    env.insert("EPOCHS".to_string(), "50".to_string());
    task(TaskKind::Mpi {
        program: "sim".to_string(),
        args: vec!["--steps".to_string(), "9".to_string()],
        np: 2,
        env,
        timeout_secs: 300,
        use_mpirun,
    })
}

fn slot(rank: u32) -> MpiSlot {
    MpiSlot {
        rank,
        size: 2,
        peers: vec![
            MpiPeer { host: "a".to_string(), port: 9900, node_id: 1 },
            MpiPeer { host: "b".to_string(), port: 9901, node_id: 2 },
        ],
        job_id: 0xf1e2d3c4_0000_4000_8000_0000000000ab,
    }
}

fn launch(plan: Plan) -> Launch {
    match plan {
        Plan::Run(launch) => launch,
        other => panic!("unexpected {:?}", other),
    }
}

fn refusal(plan: Plan) -> String {
    match plan {
        Plan::Refused(reason) => reason,
        other => panic!("unexpected {:?}", other),
    }
}

fn request(plan: Plan) -> HttpRequest {
    match plan {
        Plan::Fetch(request) => request,
        other => panic!("unexpected {:?}", other),
    }
}

fn strings(list: &[&str]) -> Vec<String> {
    list.iter().map(|s| s.to_string()).collect()
}

#[test]
fn a_shell_task_runs_its_command() {
    let l = launch(execute(&shell()));
    assert_eq!(l.purpose, Purpose::Shell);
    assert_eq!(l.program, "echo");
    assert_eq!(l.args, strings(&["hello", "world"]));
    assert!(l.env.is_empty() && l.input.is_empty());
    assert_eq!(l.timeout_secs, 60);
}

#[test]
fn a_custom_task_runs_its_handler() {
    let l = launch(execute(&task(TaskKind::Custom {
        tag: "render".to_string(),
        payload: vec![1, 2, 255],
    })));
    assert_eq!(l.purpose, Purpose::Handler);
    assert_eq!(l.program, "hc-exec-render");
    assert!(l.args.is_empty() && l.env.is_empty());
    assert_eq!(l.input, vec![1, 2, 255]);
    assert_eq!(l.timeout_secs, 300);
}

#[test]
fn methods_are_read_in_any_case() {
    let r = request(execute(&fetch("get", Some("b"))));
    assert_eq!((r.method, r.url.as_str(), r.body), (HttpMethod::Get, "http://x/y", None));
    let r = request(execute(&fetch("Post", Some("b"))));
    assert_eq!((r.method, r.body.as_deref()), (HttpMethod::Post, Some("b")));
    let r = request(execute(&fetch("PUT", None)));
    assert_eq!((r.method, r.body), (HttpMethod::Put, None));
    let r = request(execute(&fetch("delete", Some("b"))));
    assert_eq!((r.method, r.body), (HttpMethod::Delete, None));
}

#[test]
fn other_methods_are_refused() {
    assert_eq!(refusal(execute(&fetch("patch", None))), "Unsupported HTTP method: PATCH");
    assert_eq!(refusal(plan_fetch("get", "u", &None)), "Unsupported HTTP method: get");
}

#[test]
fn an_mpi_task_has_no_plan_of_its_own() {
    assert_eq!(refusal(execute(&mpi(false))), "Use execute_mpi_slot() for MPI tasks");
    assert_eq!(
        refusal(execute_mpi_slot(&shell(), &slot(0), "[]", &vec![])),
        "execute_mpi_slot called on non-MPI task"
    );
}

#[test]
fn a_rank_finds_its_variables() {
    let l = launch(execute_mpi_slot(&mpi(false), &slot(1), "[peers]", &vec![]));
    assert_eq!(l.purpose, Purpose::Rank(1));
    assert_eq!(l.program, "sim");
    assert_eq!(l.args, strings(&["--steps", "9"]));
    let expected: Vec<(String, String)> = [
        ("HC_MPI_RANK", "1"),
        ("HC_MPI_SIZE", "2"),
        ("HC_MPI_JOB_ID", "f1e2d3c4-0000-4000-8000-0000000000ab"),
        ("HC_MPI_PEERS", "[peers]"),
        ("HC_MPI_ROOT", "a"),
        ("HC_MPI_PORT", "9901"),
        ("EPOCHS", "50"),
    ]
    .iter()
    .map(|(k, v)| (k.to_string(), v.to_string()))
    .collect();
    assert_eq!(l.env, expected);
    assert_eq!(l.timeout_secs, 300);
}

#[test]
fn a_rank_without_peers_falls_back() {
    let mut s = slot(0);
    s.peers.clear();
    let l = launch(execute_mpi_slot(&mpi(false), &s, "[]", &vec![]));
    assert_eq!(l.env[4], ("HC_MPI_ROOT".to_string(), "localhost".to_string()));
    assert_eq!(l.env[5], ("HC_MPI_PORT".to_string(), "9900".to_string()));
}

#[test]
fn the_launcher_starts_all_ranks() {
    assert!(wants_launcher(&mpi(true), &slot(0)));
    assert!(!wants_launcher(&mpi(true), &slot(1)));
    assert!(!wants_launcher(&mpi(false), &slot(0)));
    assert!(!wants_launcher(&shell(), &slot(0)));
    let l = launch(execute_mpi_slot(&mpi(true), &slot(0), "[peers]", &vec![false, true]));
    assert_eq!(l.purpose, Purpose::Launcher);
    assert_eq!(l.program, "mpiexec");
    assert_eq!(
        l.args,
        strings(&[
            "--host",
            "a:1,b:1",
            "-np",
            "2",
            "--map-by",
            "node",
            "-x",
            "HC_MPI_JOB_ID=f1e2d3c4-0000-4000-8000-0000000000ab",
            "-x",
            "HC_MPI_SIZE=2",
            "-x",
            "HC_MPI_PEERS=[peers]",
            "-x",
            "EPOCHS=50",
            "sim",
            "--steps",
            "9",
        ])
    );
    assert!(l.env.is_empty());
}

#[test]
fn the_other_ranks_are_left_to_the_launcher() {
    match execute_mpi_slot(&mpi(true), &slot(1), "[]", &vec![]) {
        Plan::Done(output) => assert_eq!(
            output,
            TaskOutput::success("rank 1 delegated to mpirun on rank-0".to_string())
        ),
        other => panic!("unexpected {:?}", other),
    }
}

#[test]
fn the_first_launcher_is_taken() {
    let names = launcher_candidates();
    assert_eq!(
        names,
        strings(&[
            "mpirun",
            "mpiexec",
            "mpirun.openmpi",
            "mpiexec.openmpi",
            "mpirun.mpich",
            "mpiexec.mpich"
        ])
    );
    for i in 0..6 {
        let mut answers = vec![false; i];
        answers.push(true);
        answers.push(true);
        assert_eq!(find_mpirun(&answers), Ok(names[i].clone()));
    }
    let none = "No mpirun/mpiexec found in PATH. Install OpenMPI or MPICH, or use use_mpirun=false.";
    assert_eq!(find_mpirun(&vec![false; 6]), Err(none.to_string()));
    assert_eq!(find_mpirun(&vec![]), Err(none.to_string()));
    assert_eq!(find_mpirun(&vec![false, false, false, false, false, false, true]), Err(none.to_string()));
    assert_eq!(refusal(execute_mpi_slot(&mpi(true), &slot(0), "[]", &vec![])), none);
}

#[test]
fn an_exited_process_leaves_its_output() {
    let l = launch(execute(&shell()));
    let out = outcome_of_run(
        &l,
        Ended::Exited { code: Some(3), stdout: b"out\n".to_vec(), stderr: b"err".to_vec() },
    )
    .unwrap();
    assert_eq!(
        out,
        TaskOutput {
            exit_code: 3,
            stdout: "out\n".to_string(),
            stderr: "err".to_string(),
            body: None,
            custom_result: None,
        }
    );
    let out = outcome_of_run(&l, Ended::Exited { code: None, stdout: vec![], stderr: vec![] });
    assert_eq!(out.unwrap().exit_code, -1);
}

#[test]
fn bytes_that_are_no_text_are_replaced() {
    let l = launch(execute(&shell()));
    let out = outcome_of_run(
        &l,
        Ended::Exited { code: Some(0), stdout: vec![b'a', 0xff, b'b'], stderr: "é".into() },
    )
    .unwrap();
    assert_eq!(out.stdout, "a\u{fffd}b");
    assert_eq!(out.stderr, "é");
}

#[test]
fn a_handler_hands_its_bytes_on() {
    let out = output_of_exit(
        Purpose::Handler,
        Some(0),
        "t".to_string(),
        String::new(),
        vec![1, 255],
    );
    assert_eq!(out.custom_result, Some(vec![1, 255]));
    assert_eq!(out.body, None);
}

#[test]
fn failures_are_explained() {
    let text = |l: &Launch, ended: Ended| outcome_of_run(l, ended).unwrap_err();
    let reason = || "gone".to_string();
    let l = launch(execute(&shell()));
    assert_eq!(text(&l, Ended::NotStarted { reason: reason() }), "Failed to spawn 'echo': gone");
    assert_eq!(text(&l, Ended::Lost { reason: reason() }), "Failed to spawn 'echo': gone");
    assert_eq!(text(&l, Ended::TimedOut), "Command timed out after 60s");
    let l = launch(execute_mpi_slot(&mpi(false), &slot(1), "[]", &vec![]));
    assert_eq!(text(&l, Ended::NotStarted { reason: reason() }), "Failed to spawn rank 1: gone");
    assert_eq!(text(&l, Ended::TimedOut), "MPI rank 1 timed out after 300s");
    let l = launch(execute_mpi_slot(&mpi(true), &slot(0), "[]", &vec![true]));
    assert_eq!(text(&l, Ended::NotStarted { reason: reason() }), "mpirun failed to spawn: gone");
    assert_eq!(text(&l, Ended::TimedOut), "MPI job timed out after 300s");
    let l = launch(execute(&task(TaskKind::Custom { tag: "t".to_string(), payload: vec![] })));
    assert_eq!(
        text(&l, Ended::NotStarted { reason: reason() }),
        "Handler 'hc-exec-t' not found: gone"
    );
    assert_eq!(text(&l, Ended::InputFailed { reason: reason() }), "gone");
    assert_eq!(text(&l, Ended::Lost { reason: reason() }), "Custom handler error: gone");
    assert_eq!(text(&l, Ended::TimedOut), "Custom task timed out");
}

#[test]
fn an_answer_becomes_an_output() {
    let out = outcome_of_fetch(Fetched::Answered { status: 404, body: b"none".to_vec() }).unwrap();
    assert_eq!(
        out,
        TaskOutput {
            exit_code: 404,
            stdout: "none".to_string(),
            stderr: String::new(),
            body: Some(b"none".to_vec()),
            custom_result: None,
        }
    );
    let reason = || "gone".to_string();
    assert_eq!(outcome_of_fetch(Fetched::NotPrepared { reason: reason() }).unwrap_err(), "gone");
    assert_eq!(
        outcome_of_fetch(Fetched::NoAnswer { reason: reason() }).unwrap_err(),
        "HTTP failed: gone"
    );
    assert_eq!(
        outcome_of_fetch(Fetched::NoBody { reason: reason() }).unwrap_err(),
        "Body read error: gone"
    );
}

#[test]
fn the_variables_of_a_task_stand_behind_those_of_its_job() {
    let mut env = StringMap::new();
    env.insert("HC_MPI_PORT".to_string(), "5000".to_string());
    let t = task(TaskKind::Mpi {
        program: "sim".to_string(),
        args: vec![],
        np: 2,
        env,
        timeout_secs: 300,
        use_mpirun: false,
    });
    let l = launch(execute_mpi_slot(&t, &slot(0), "[]", &vec![]));
    assert_eq!(l.env[5], ("HC_MPI_PORT".to_string(), "9900".to_string()));
    assert_eq!(l.env[6], ("HC_MPI_PORT".to_string(), "5000".to_string()));
    assert_eq!(l.env.len(), 7);
}
