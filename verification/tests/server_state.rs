use hypercompute::api::TaskStatusResponse;
use hypercompute::clock::{now, Timestamp};
use hypercompute::output::TaskOutput;
use hypercompute::registry::Registry;
use hypercompute::rest::get_task;
use hypercompute::state::AppState;
use hypercompute::task::{Task, TaskKind, TaskRequirements, TaskStatus};
use tokio::sync::mpsc::unbounded_channel;

fn at(secs: i64) -> Timestamp {
    Timestamp { secs, nanos: 0 }
}

fn task(id: u128, priority: u8, secs: i64) -> Task {
    Task::stamped(
        TaskKind::Shell { command: "true".to_string(), args: vec![], timeout_secs: 60 },
        TaskRequirements::default(),
        priority,
        id,
        at(secs),
    )
}

fn queue(state: &AppState) -> Vec<u128> {
    (0..state.pending_len()).map(|i| state.pending_task(i).id).collect()
}

fn found(state: &AppState, id: u128) -> TaskStatusResponse {
    get_task(state, id).expect("the task is known")
}

#[test]
fn a_new_server_knows_nothing() {
    let state = AppState::new(30, 300, 3);
    assert_eq!(state.pending_len(), 0);
    assert_eq!(state.running_len(), 0);
    assert_eq!(state.completed_len(), 0);
    assert!(state.node_ids().is_empty());
    assert!(state.node(1).is_none());
    assert_eq!(state.node_timeout_secs(), 30);
    assert_eq!(state.task_timeout_secs(), 300);
}

#[test]
fn higher_priority_goes_first() {
    let mut state = AppState::new(30, 300, 3);
    state.enqueue(task(1, 10, 100));
    state.enqueue(task(2, 200, 101));
    state.enqueue(task(3, 128, 102));
    assert_eq!(queue(&state), vec![2, 3, 1]);
}

#[test]
fn equal_priority_goes_by_time_of_submission() {
    let mut state = AppState::new(30, 300, 3);
    state.enqueue(task(1, 128, 102));
    state.enqueue(task(2, 128, 100));
    state.enqueue(task(3, 128, 101));
    assert_eq!(queue(&state), vec![2, 3, 1]);
}

#[test]
fn equal_time_keeps_the_order_of_arrival() {
    let mut state = AppState::new(30, 300, 3);
    for id in 1..=4 {
        state.enqueue(task(id, 128, 100));
    }
    assert_eq!(queue(&state), vec![1, 2, 3, 4]);
}

#[test]
fn nanoseconds_decide_within_a_second() {
    let mut late = task(1, 128, 100);
    late.submitted_at.nanos = 2;
    let mut early = task(2, 128, 100);
    early.submitted_at.nanos = 1;
    let mut state = AppState::new(30, 300, 3);
    state.enqueue(late);
    state.enqueue(early);
    assert_eq!(queue(&state), vec![2, 1]);
}

#[test]
fn a_task_is_retried_as_often_as_the_server_allows() {
    let mut state = AppState::new(30, 300, 3);
    state.enqueue(task(1, 128, 100));
    for _ in 0..3 {
        let t = state.take_pending(0);
        state.requeue(t);
        assert_eq!(state.pending_len(), 1);
        assert_eq!(state.completed_len(), 0);
        assert_eq!(state.pending_task(0).status, TaskStatus::Queued);
    }
    let t = state.take_pending(0);
    state.requeue(t);
    assert_eq!(state.pending_len(), 0);
    assert_eq!(state.completed_len(), 1);
    assert_eq!(
        found(&state, 1).task.status,
        TaskStatus::Failed { reason: "max retries exceeded".to_string() }
    );
}

#[test]
fn without_retries_the_first_failure_is_final() {
    let mut state = AppState::new(30, 300, 0);
    state.enqueue(task(1, 128, 100));
    let t = state.take_pending(0);
    state.requeue(t);
    assert_eq!(state.pending_len(), 0);
    assert_eq!(state.completed_len(), 1);
}

#[test]
fn an_unknown_task_has_no_retry() {
    let mut state = AppState::new(30, 300, 3);
    state.requeue(task(9, 128, 100));
    assert_eq!(state.pending_len(), 0);
    assert_eq!(state.completed_len(), 1);
}

#[test]
fn a_requeued_task_takes_its_old_place() {
    let mut state = AppState::new(30, 300, 3);
    state.enqueue(task(1, 128, 100));
    state.enqueue(task(2, 128, 101));
    let mut t = state.take_pending(0);
    t.status = TaskStatus::Dispatched { node_id: 7 };
    state.put_running(t.clone(), at(600));
    assert_eq!(state.running_len(), 1);
    state.requeue(t);
    assert_eq!(state.running_len(), 0);
    assert_eq!(queue(&state), vec![1, 2]);
}

#[test]
fn a_completed_task_leaves_the_running_ones() {
    let mut state = AppState::new(30, 300, 3);
    state.put_running(task(1, 128, 100), at(600));
    state.complete_task(task(1, 128, 100), Some(TaskOutput::success("out".to_string())), None);
    assert_eq!(state.running_len(), 0);
    assert_eq!(found(&state, 1).result, Some(TaskOutput::success("out".to_string())));
}

#[test]
fn the_history_is_cut_when_it_grows_too_long() {
    let mut state = AppState::new(30, 300, 3);
    for id in 0..10_000 {
        state.complete_task(task(id, 128, 100), None, None);
    }
    assert_eq!(state.completed_len(), 10_000);
    assert!(state.find_completed(0).is_some());
    state.complete_task(task(10_000, 128, 100), None, None);
    assert_eq!(state.completed_len(), 9_001);
    assert!(state.find_completed(999).is_none());
    assert!(state.find_completed(1_000).is_some());
    assert!(state.find_completed(10_000).is_some());
}

#[test]
fn without_a_channel_nothing_is_sent() {
    let state = AppState::new(30, 300, 3);
    assert!(!state.send_to_worker(1, "hello"));
}

#[test]
fn a_channel_takes_the_text_as_it_is() {
    let mut state = AppState::new(30, 300, 3);
    let (tx, mut rx) = unbounded_channel();
    state.connect(1, tx);
    assert!(state.send_to_worker(1, "hello"));
    assert_eq!(rx.try_recv().unwrap(), "hello");
    assert!(!state.send_to_worker(2, "hello"));
    state.disconnect(1);
    assert!(!state.send_to_worker(1, "hello"));
}

#[test]
fn a_channel_that_nobody_listens_to_is_dead() {
    let mut state = AppState::new(30, 300, 3);
    let (tx, rx) = unbounded_channel();
    state.connect(1, tx);
    drop(rx);
    assert!(!state.send_to_worker(1, "hello"));
    assert_eq!(state.hand_over(1, "hello"), Some(Err("hello".to_string())));
    assert_eq!(state.hand_over(2, "hello"), None);
}

#[test]
fn a_new_channel_takes_the_place_of_the_earlier_one() {
    let mut state = AppState::new(30, 300, 3);
    let (first, mut first_rx) = unbounded_channel();
    let (second, mut second_rx) = unbounded_channel();
    state.connect(1, first);
    state.connect(1, second);
    assert!(state.send_to_worker(1, "hello"));
    assert_eq!(second_rx.try_recv().unwrap(), "hello");
    assert!(first_rx.try_recv().is_err());
}

#[test]
fn a_text_goes_out_by_the_channel_of_its_node() {
    let mut state = AppState::new(30, 300, 3);
    let (one, _one_rx) = unbounded_channel();
    let (two, mut two_rx) = unbounded_channel();
    state.connect(1, one);
    state.connect(2, two.clone());
    let (channel, text) = state.outgoing(2, "hello").unwrap();
    assert!(channel.same_channel(&two));
    assert_eq!(text, "hello");
    assert!(state.outgoing(3, "hello").is_none());
    assert!(two_rx.try_recv().is_err());
    assert_eq!(state.hand_over(2, "hello"), Some(Ok(())));
    assert_eq!(two_rx.try_recv().unwrap(), "hello");
}

#[test]
fn a_running_task_is_known_with_its_time() {
    let mut state = AppState::new(30, 300, 3);
    assert_eq!(state.running_since(1), None);
    state.put_running(task(1, 128, 100), at(700));
    assert_eq!(state.running_since(1), Some(at(700)));
    state.put_running(task(1, 128, 100), at(800));
    assert_eq!(state.running_since(1), Some(at(800)));
    assert!(state.take_running(1).is_some());
    assert_eq!(state.running_since(1), None);
}

#[test]
fn a_registry_keeps_one_value_under_each_identifier() {
    let mut registry: Registry<u32> = Registry::new();
    assert_eq!(registry.len(), 0);
    assert_eq!(registry.get(5), None);
    registry.insert(5, 50);
    registry.insert(6, 60);
    registry.insert(7, 70);
    registry.insert(6, 61);
    assert_eq!(registry.len(), 3);
    assert_eq!(registry.get(6), Some(&61));
    *registry.get_mut(7).unwrap() = 71;
    assert!(registry.get_mut(8).is_none());
    assert_eq!(registry.remove(5), Some(50));
    assert_eq!(registry.remove(5), None);
    assert_eq!(registry.get(6), Some(&61));
    assert_eq!(registry.get(7), Some(&71));
    let mut ids = registry.ids();
    ids.sort();
    assert_eq!(ids, vec![6, 7]);
}

#[test]
fn a_new_task_is_queued_under_a_random_identifier() {
    let before = now();
    let a = Task::new(
        TaskKind::Custom { tag: "t".to_string(), payload: vec![1] },
        TaskRequirements::default(),
        7,
    );
    let b = a.clone();
    let c = Task::new(
        TaskKind::Custom { tag: "t".to_string(), payload: vec![1] },
        TaskRequirements::default(),
        7,
    );
    assert_eq!(a.status, TaskStatus::Queued);
    assert_eq!(a.priority, 7);
    assert_eq!(a.id, b.id);
    assert_ne!(a.id, c.id);
    assert_eq!((a.id >> 76) & 0xF, 4);
    assert_eq!((a.id >> 62) & 0x3, 2);
    assert!(!a.submitted_at.before(&before));
    assert!(!a.is_mpi());
    assert_eq!(a.meta.len(), 0);
}

#[test]
fn retries_are_counted_for_each_task() {
    let mut state = AppState::new(30, 300, 1);
    state.enqueue(task(1, 128, 100));
    state.enqueue(task(2, 128, 101));
    for _ in 0..2 {
        let place = state.find_pending(1).unwrap();
        let t = state.take_pending(place);
        state.requeue(t);
    }
    assert!(state.find_completed(1).is_some());
    let t = state.take_pending(0);
    state.requeue(t);
    assert_eq!(queue(&state), vec![2]);
    let t = state.take_pending(0);
    state.requeue(t);
    assert!(state.find_completed(2).is_some());
}
