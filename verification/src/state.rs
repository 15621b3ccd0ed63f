//! The state of the server and the operations that change it.
use crate::api::TaskStatusResponse;
use crate::clock::Timestamp;
use crate::cluster::{
    ahead, jobs_on, lemma_queued_at, lemma_queued_in_order, lemma_remove_in_order, lists, queued,
    remembered, stuck_tasks, tasks_on, ClusterView, HISTORY_CUT, HISTORY_LIMIT,
};
use crate::job::{MpiJobState, MpiJobView};
use crate::node::{NodeInfo, NodeStats, NodeStatus};
use crate::output::{MpiRankOutput, TaskOutput};
use crate::registry::Registry;
use crate::scheduler::{outcome_of, Sent};
use crate::seqs::lemma_take_next;
use crate::task::{Task, TaskStatus, TaskView};
use std::time::Instant;
use tokio::sync::mpsc::UnboundedSender;
use vstd::prelude::*;

verus! {

/// The sending half of a channel of the `tokio` crate, as an opaque type.
#[verifier::external_type_specification]
#[verifier::external_body]
#[verifier::reject_recursive_types(T)]
pub struct ExUnboundedSender<T>(UnboundedSender<T>);

/// `UnboundedSender::send`: puts the message into the channel, or gives it back.
/// Which of the two comes rests on whether the receiving half still listens.
#[verifier::external_body]
fn channel_send(channel: &UnboundedSender<String>, message: String) -> (r: Result<(), String>)
    ensures
        r matches Err(refused) ==> refused@ == message@,
{
    channel.send(message).map_err(|refused| refused.0)
}

/// Which running tasks are looked for.
#[derive(Clone, Copy)]
enum Wanted {
    OnNode(u128),
    RankOn(u128),
    StuckSince(Timestamp),
}

impl Wanted {
    spec fn holds(self, since: Map<u128, Timestamp>) -> spec_fn(TaskView) -> bool {
        match self {
            Wanted::OnNode(id) => tasks_on(id),
            Wanted::RankOn(id) => jobs_on(id),
            Wanted::StuckSince(cutoff) => stuck_tasks(since, cutoff),
        }
    }

    /// Whether a task is looked for, where it went to its node at `went`.
    fn fits(&self, task: &Task, went: Timestamp, Ghost(since): Ghost<Map<u128, Timestamp>>) -> (r:
        bool)
        requires
            went == since[task.id],
        ensures
            r == (self.holds(since))(task.deep_view()),
    {
        match self {
            Wanted::OnNode(id) => match &task.status {
                TaskStatus::Dispatched { node_id } => *node_id == *id,
                TaskStatus::Running { node_id, .. } => *node_id == *id,
                _ => false,
            },
            Wanted::RankOn(id) => match &task.status {
                TaskStatus::MpiDispatched { node_ids, .. } => contains_id(node_ids, *id),
                _ => false,
            },
            Wanted::StuckSince(cutoff) => match &task.status {
                TaskStatus::Dispatched { .. } => went.before(cutoff),
                TaskStatus::MpiDispatched { .. } => went.before(cutoff),
                TaskStatus::Running { started_at, .. } => started_at.before(cutoff),
                TaskStatus::MpiRunning { started_at, .. } => started_at.before(cutoff),
                _ => false,
            },
        }
    }
}

/// Whether a list holds an identifier.
fn contains_id(ids: &Vec<u128>, wanted: u128) -> (r: bool)
    ensures
        r == ids@.contains(wanted),
{
    let mut i: usize = 0;
    while i < ids.len()
        invariant
            i <= ids.len(),
            forall|j: int| 0 <= j < i ==> ids@[j] != wanted,
        decreases ids.len() - i,
    {
        if ids[i] == wanted {
            return true;
        }
        i = i + 1;
    }
    false
}

/// Everything the server knows.
pub struct AppState {
    nodes: Registry<NodeInfo>,
    worker_channels: Registry<UnboundedSender<String>>,
    pending_tasks: Vec<Task>,
    running_tasks: Registry<Task>,
    /// When each running task went to its node.
    running_since: Registry<Timestamp>,
    completed_tasks: Vec<TaskStatusResponse>,
    retry_counts: Registry<u32>,
    /// Live MPI job aggregation: job identifier to state.
    mpi_jobs: Registry<MpiJobState>,
    node_timeout_secs: u64,
    task_timeout_secs: u64,
    max_retries: u32,
}

impl View for AppState {
    type V = ClusterView;

    closed spec fn view(&self) -> ClusterView {
        ClusterView {
            nodes: self.nodes.deep_view(),
            channels: self.worker_channels@,
            pending: self.pending_tasks.deep_view(),
            running: self.running_tasks.deep_view(),
            since: self.running_since@,
            completed: self.completed_tasks.deep_view(),
            retries: self.retry_counts@,
            jobs: self.mpi_jobs.deep_view(),
            node_timeout_secs: self.node_timeout_secs,
            task_timeout_secs: self.task_timeout_secs,
            max_retries: self.max_retries,
        }
    }
}

impl AppState {
    /// What always holds of the state.
    pub closed spec fn wf(&self) -> bool {
        &&& self.nodes.wf()
        &&& self.worker_channels.wf()
        &&& self.running_tasks.wf()
        &&& self.running_since.wf()
        &&& self.retry_counts.wf()
        &&& self.mpi_jobs.wf()
        &&& self@.wf()
    }

    /// What always holds of the state holds of its contents, and the queue is
    /// no longer than a machine can count.
    pub proof fn lemma_wf(&self)
        requires
            self.wf(),
        ensures
            self@.wf(),
            self@.pending.len() <= usize::MAX,
    {
        assert(self@.pending.len() == self.pending_tasks.len());
    }

    /// A server that nobody has talked to.
    pub fn new(node_timeout_secs: u64, task_timeout_secs: u64, max_retries: u32) -> (r: AppState)
        ensures
            r.wf(),
            r@ == ClusterView::initial(node_timeout_secs, task_timeout_secs, max_retries),
    {
        let r = AppState {
            nodes: Registry::new(),
            worker_channels: Registry::new(),
            pending_tasks: Vec::new(),
            running_tasks: Registry::new(),
            running_since: Registry::new(),
            completed_tasks: Vec::new(),
            retry_counts: Registry::new(),
            mpi_jobs: Registry::new(),
            node_timeout_secs,
            task_timeout_secs,
            max_retries,
        };
        assert(r@ =~= ClusterView::initial(node_timeout_secs, task_timeout_secs, max_retries));
        r
    }

    /// How many seconds a node may be silent.
    pub fn node_timeout_secs(&self) -> (secs: u64)
        ensures
            secs == self@.node_timeout_secs,
    {
        self.node_timeout_secs
    }

    /// How many seconds a task may be running.
    pub fn task_timeout_secs(&self) -> (secs: u64)
        ensures
            secs == self@.task_timeout_secs,
    {
        self.task_timeout_secs
    }

    /// Puts a task into the queue: behind all those that it is not to be
    /// started before.
    fn push_pending(&mut self, task: Task)
        requires
            old(self).wf(),
        ensures
            final(self).wf(),
            final(self)@ == (ClusterView {
                pending: queued(old(self)@.pending, task.deep_view()),
                ..old(self)@
            }),
    {
        let ghost queue = self@.pending;
        let ghost t = task.deep_view();
        let mut at: usize = self.pending_tasks.len();
        while at > 0 && goes_ahead(&task, &self.pending_tasks[at - 1])
            invariant
                at <= queue.len(),
                queue == self.pending_tasks.deep_view(),
                t == task.deep_view(),
                forall|i: int| at <= i < queue.len() ==> ahead(t, #[trigger] queue[i]),
            decreases at,
        {
            at = at - 1;
        }
        self.pending_tasks.insert(at, task);
        proof {
            lemma_queued_at(queue, t, at as int);
            lemma_queued_in_order(queue, t);
            assert(self.pending_tasks.deep_view() =~= queue.insert(at as int, t));
        }
        assert(self@ =~= ClusterView { pending: queued(old(self)@.pending, t), ..old(self)@ });
    }

    /// Puts a new task into the queue.
    pub fn enqueue(&mut self, task: Task)
        requires
            old(self).wf(),
        ensures
            final(self).wf(),
            final(self)@ == old(self)@.enqueue(task.deep_view()),
    {
        self.retry_counts.insert(task.id, self.max_retries);
        assert(self@ =~= ClusterView {
            retries: old(self)@.retries.insert(task.id, self.max_retries),
            ..old(self)@
        });
        self.push_pending(task);
    }

    /// Puts a task that could not be carried out into the queue again, or gives
    /// it up where no retry is left.
    pub fn requeue(&mut self, task: Task)
        requires
            old(self).wf(),
        ensures
            final(self).wf(),
            final(self)@ == old(self)@.requeue(task.deep_view()),
    {
        let retries: u32 = match self.retry_counts.get(task.id) {
            Some(left) => *left,
            None => 0,
        };
        let mut task = task;
        if retries == 0 {
            task.status = TaskStatus::Failed { reason: "max retries exceeded".to_owned() };
            self.complete_task(task, None, None);
            return;
        }
        self.retry_counts.insert(task.id, retries - 1);
        self.running_tasks.remove(task.id);
        self.running_since.remove(task.id);
        assert(self@ =~= ClusterView {
            running: old(self)@.running.remove(task.id),
            since: old(self)@.since.remove(task.id),
            retries: old(self)@.retries.insert(task.id, (retries - 1) as u32),
            ..old(self)@
        });
        task.status = TaskStatus::Queued;
        self.push_pending(task);
    }

    /// Moves a task to the finished ones.
    pub fn complete_task(
        &mut self,
        task: Task,
        output: Option<TaskOutput>,
        mpi_results: Option<Vec<MpiRankOutput>>,
    )
        requires
            old(self).wf(),
        ensures
            final(self).wf(),
            final(self)@ == old(self)@.complete(
                task.deep_view(),
                output.deep_view(),
                mpi_results.deep_view(),
            ),
    {
        self.running_tasks.remove(task.id);
        self.running_since.remove(task.id);
        self.retry_counts.remove(task.id);
        let entry = TaskStatusResponse { task, result: output, mpi_results };
        self.completed_tasks.push(entry);
        if self.completed_tasks.len() > HISTORY_LIMIT {
            let kept = self.completed_tasks.split_off(HISTORY_CUT);
            self.completed_tasks = kept;
        }
        assert(self@.completed =~= remembered(old(self)@.completed, entry.deep_view()));
        assert(self@ =~= old(self)@.complete(
            entry.task.deep_view(),
            entry.result.deep_view(),
            entry.mpi_results.deep_view(),
        ));
    }
}

impl AppState {
    /// What is handed out to reach a node: its channel, and the text.
    pub fn outgoing(&self, node_id: u128, msg: &str) -> (r: Option<
        (&UnboundedSender<String>, String),
    >)
        requires
            self.wf(),
        ensures
            match r {
                Some((channel, text)) => self@.channels.contains_key(node_id) && *channel
                    == self@.channels[node_id] && text@ == msg@,
                None => !self@.channels.contains_key(node_id),
            },
    {
        match self.worker_channels.get(node_id) {
            Some(channel) => Some((channel, msg.to_owned())),
            None => None,
        }
    }

    /// Hands a text to the channel of a node, if it has one. A channel that
    /// nobody listens to gives it back.
    pub fn hand_over(&self, node_id: u128, msg: &str) -> (r: Option<Result<(), String>>)
        requires
            self.wf(),
        ensures
            r is None <==> !self@.channels.contains_key(node_id),
            r matches Some(Err(refused)) ==> refused@ == msg@,
    {
        match self.outgoing(node_id, msg) {
            Some((channel, text)) => Some(channel_send(channel, text)),
            None => None,
        }
    }

    /// Hands a text to the channel of a node, and tells whether it was taken.
    /// Without a channel nothing is sent; with one, whether it is taken rests on
    /// the receiving side.
    pub fn send_to_worker(&self, node_id: u128, msg: &str) -> (sent: bool)
        requires
            self.wf(),
        ensures
            sent ==> self@.channels.contains_key(node_id),
    {
        outcome_of(&self.hand_over(node_id, msg)) == Sent::Delivered
    }

    /// Whether a node has a channel.
    pub fn has_channel(&self, node_id: u128) -> (r: bool)
        requires
            self.wf(),
        ensures
            r == self@.channels.contains_key(node_id),
    {
        self.worker_channels.get(node_id).is_some()
    }

    /// Opens a channel to a node, in place of an earlier one.
    pub fn connect(&mut self, node_id: u128, channel: UnboundedSender<String>)
        requires
            old(self).wf(),
        ensures
            final(self).wf(),
            final(self)@ == (ClusterView {
                channels: old(self)@.channels.insert(node_id, channel),
                ..old(self)@
            }),
    {
        self.worker_channels.insert(node_id, channel);
        assert(self@ =~= ClusterView {
            channels: old(self)@.channels.insert(node_id, channel),
            ..old(self)@
        });
    }

    /// Closes the channel to a node.
    pub fn disconnect(&mut self, node_id: u128)
        requires
            old(self).wf(),
        ensures
            final(self).wf(),
            final(self)@ == (ClusterView {
                channels: old(self)@.channels.remove(node_id),
                ..old(self)@
            }),
    {
        self.worker_channels.remove(node_id);
        assert(self@ =~= ClusterView {
            channels: old(self)@.channels.remove(node_id),
            ..old(self)@
        });
    }

    /// What is known of a node.
    pub fn node(&self, node_id: u128) -> (found: Option<&NodeInfo>)
        requires
            self.wf(),
        ensures
            match found {
                Some(node) => self@.nodes.contains_key(node_id) && node.deep_view()
                    == self@.nodes[node_id],
                None => !self@.nodes.contains_key(node_id),
            },
    {
        self.nodes.get(node_id)
    }

    /// The known nodes, each once, in no promised order.
    pub fn node_ids(&self) -> (ids: Vec<u128>)
        requires
            self.wf(),
        ensures
            ids@.no_duplicates(),
            ids@.to_set() == self@.nodes.dom(),
    {
        let ids = self.nodes.ids();
        assert(self@.nodes.dom() =~= self.nodes@.dom());
        ids
    }

    /// Keeps what is known of a node, in place of what was known before.
    pub fn put_node(&mut self, node: NodeInfo)
        requires
            old(self).wf(),
        ensures
            final(self).wf(),
            final(self)@ == (ClusterView {
                nodes: old(self)@.nodes.insert(node.id, node.deep_view()),
                ..old(self)@
            }),
    {
        self.nodes.insert(node.id, node);
        assert(self@ =~= ClusterView {
            nodes: old(self)@.nodes.insert(node.id, node.deep_view()),
            ..old(self)@
        });
    }

    /// Gives a known node another status.
    pub fn set_status(&mut self, node_id: u128, status: NodeStatus)
        requires
            old(self).wf(),
        ensures
            final(self).wf(),
            final(self)@ == old(self)@.set_status(node_id, status),
    {
        if let Some(node) = self.nodes.get_mut(node_id) {
            node.status = status;
        }
        assert(self@ =~= old(self)@.set_status(node_id, status));
    }

    /// Notes what a known node reports of its load.
    pub fn refresh(&mut self, node_id: u128, stats: NodeStats, seen: Timestamp)
        requires
            old(self).wf(),
        ensures
            final(self).wf(),
            final(self)@ == old(self)@.refresh(node_id, stats, seen),
    {
        if let Some(node) = self.nodes.get_mut(node_id) {
            node.stats = stats;
            node.last_seen = seen;
            if node.status != NodeStatus::Draining {
                node.status = if stats.active_tasks > 0 {
                    NodeStatus::Busy
                } else {
                    NodeStatus::Online
                };
            }
        }
        assert(self@ =~= old(self)@.refresh(node_id, stats, seen));
    }

    /// Whether one more active task can be counted on a node.
    pub fn can_add_active(&self, node_id: u128) -> (r: bool)
        requires
            self.wf(),
        ensures
            r == self@.can_add_active(node_id),
    {
        match self.nodes.get(node_id) {
            Some(node) => node.stats.active_tasks < u32::MAX,
            None => true,
        }
    }

    /// Counts one more active task on a known node.
    pub fn add_active(&mut self, node_id: u128)
        requires
            old(self).wf(),
            old(self)@.can_add_active(node_id),
        ensures
            final(self).wf(),
            final(self)@ == old(self)@.add_active(node_id),
    {
        assert(old(self)@.nodes.contains_key(node_id) ==> old(self)@.nodes[node_id].stats
            == old(self).nodes@[node_id].stats);
        if let Some(node) = self.nodes.get_mut(node_id) {
            node.stats.active_tasks = node.stats.active_tasks + 1;
        }
        assert(self@ =~= old(self)@.add_active(node_id));
    }

    /// Counts one active task less on a known node, if it had any.
    pub fn decrement_active(&mut self, node_id: u128)
        requires
            old(self).wf(),
        ensures
            final(self).wf(),
            final(self)@ == old(self)@.drop_active(node_id),
    {
        if let Some(node) = self.nodes.get_mut(node_id) {
            node.stats.active_tasks = node.stats.active_tasks.saturating_sub(1);
        }
        assert(self@ =~= old(self)@.drop_active(node_id));
    }
}

impl AppState {
    /// The number of waiting tasks.
    pub fn pending_len(&self) -> (n: usize)
        requires
            self.wf(),
        ensures
            n == self@.pending.len(),
    {
        self.pending_tasks.len()
    }

    /// The waiting task at a place of the queue.
    pub fn pending_task(&self, at: usize) -> (task: &Task)
        requires
            self.wf(),
            at < self@.pending.len(),
        ensures
            task.deep_view() == self@.pending[at as int],
    {
        &self.pending_tasks[at]
    }

    /// Takes the waiting task out of a place of the queue.
    pub fn take_pending(&mut self, at: usize) -> (task: Task)
        requires
            old(self).wf(),
            at < old(self)@.pending.len(),
        ensures
            final(self).wf(),
            task.deep_view() == old(self)@.pending[at as int],
            final(self)@ == (ClusterView {
                pending: old(self)@.pending.remove(at as int),
                ..old(self)@
            }),
    {
        proof {
            lemma_remove_in_order(self@.pending, at as int);
        }
        let task = self.pending_tasks.remove(at);
        assert(self@ =~= ClusterView {
            pending: old(self)@.pending.remove(at as int),
            ..old(self)@
        });
        task
    }

    /// The place of the first waiting task with this identifier.
    pub fn find_pending(&self, id: u128) -> (found: Option<usize>)
        requires
            self.wf(),
        ensures
            match found {
                Some(at) => at < self@.pending.len() && self@.pending[at as int].id == id
                    && forall|i: int| 0 <= i < at ==> #[trigger] self@.pending[i].id != id,
                None => forall|i: int|
                    0 <= i < self@.pending.len() ==> #[trigger] self@.pending[i].id != id,
            },
    {
        let mut i: usize = 0;
        while i < self.pending_tasks.len()
            invariant
                i <= self.pending_tasks.len(),
                forall|j: int| 0 <= j < i ==> #[trigger] self@.pending[j].id != id,
            decreases self.pending_tasks.len() - i,
        {
            if self.pending_tasks[i].id == id {
                return Some(i);
            }
            i = i + 1;
        }
        None
    }

    /// The number of tasks that have gone to nodes.
    pub fn running_len(&self) -> (n: usize)
        requires
            self.wf(),
        ensures
            n == self@.running.len(),
    {
        assert(self@.running.dom() =~= self.running_tasks@.dom());
        self.running_tasks.len()
    }

    /// The running task with this identifier.
    pub fn running_task(&self, id: u128) -> (found: Option<&Task>)
        requires
            self.wf(),
        ensures
            match found {
                Some(task) => self@.running.contains_key(id) && task.deep_view()
                    == self@.running[id],
                None => !self@.running.contains_key(id),
            },
    {
        self.running_tasks.get(id)
    }

    /// Takes the running task with this identifier out.
    pub fn take_running(&mut self, id: u128) -> (taken: Option<Task>)
        requires
            old(self).wf(),
        ensures
            final(self).wf(),
            final(self)@ == (ClusterView {
                running: old(self)@.running.remove(id),
                since: old(self)@.since.remove(id),
                ..old(self)@
            }),
            match taken {
                Some(task) => old(self)@.running.contains_key(id) && task.deep_view() == old(
                    self,
                )@.running[id],
                None => !old(self)@.running.contains_key(id),
            },
    {
        let taken = self.running_tasks.remove(id);
        self.running_since.remove(id);
        assert(self@ =~= ClusterView {
            running: old(self)@.running.remove(id),
            since: old(self)@.since.remove(id),
            ..old(self)@
        });
        taken
    }

    /// Keeps a task that has gone to a node at the given time.
    pub fn put_running(&mut self, task: Task, since: Timestamp)
        requires
            old(self).wf(),
        ensures
            final(self).wf(),
            final(self)@ == (ClusterView {
                running: old(self)@.running.insert(task.id, task.deep_view()),
                since: old(self)@.since.insert(task.id, since),
                ..old(self)@
            }),
    {
        self.running_since.insert(task.id, since);
        self.running_tasks.insert(task.id, task);
        assert(self@ =~= ClusterView {
            running: old(self)@.running.insert(task.id, task.deep_view()),
            since: old(self)@.since.insert(task.id, since),
            ..old(self)@
        });
    }

    /// When a running task went to its node.
    pub fn running_since(&self, id: u128) -> (found: Option<Timestamp>)
        requires
            self.wf(),
        ensures
            found == (if self@.running.contains_key(id) {
                Some(self@.since[id])
            } else {
                None
            }),
    {
        assert(self@.since.dom().contains(id) == self@.running.dom().contains(id));
        match self.running_since.get(id) {
            Some(since) => Some(*since),
            None => None,
        }
    }

    /// The number of finished tasks that are remembered.
    pub fn completed_len(&self) -> (n: usize)
        requires
            self.wf(),
        ensures
            n == self@.completed.len(),
    {
        self.completed_tasks.len()
    }

    /// The oldest remembered finished task with this identifier.
    pub fn find_completed(&self, id: u128) -> (found: Option<&TaskStatusResponse>)
        requires
            self.wf(),
        ensures
            match found {
                Some(entry) => exists|at: int|
                    0 <= at < self@.completed.len() && #[trigger] self@.completed[at]
                        == entry.deep_view() && entry.task.id == id && forall|i: int|
                        0 <= i < at ==> #[trigger] self@.completed[i].task.id != id,
                None => forall|i: int|
                    0 <= i < self@.completed.len() ==> #[trigger] self@.completed[i].task.id != id,
            },
    {
        let mut i: usize = 0;
        while i < self.completed_tasks.len()
            invariant
                i <= self.completed_tasks.len(),
                forall|j: int| 0 <= j < i ==> #[trigger] self@.completed[j].task.id != id,
            decreases self.completed_tasks.len() - i,
        {
            if self.completed_tasks[i].task.id == id {
                assert(self@.completed[i as int] == self.completed_tasks@[i as int].deep_view());
                return Some(&self.completed_tasks[i]);
            }
            i = i + 1;
        }
        None
    }

    /// The running tasks that are looked for, each once, in no promised order.
    fn list_running(&self, wanted: Wanted) -> (list: Vec<Task>)
        requires
            self.wf(),
        ensures
            lists(list.deep_view(), self@.running, wanted.holds(self@.since)),
    {
        let ids = self.running_tasks.ids();
        let ghost running = self@.running;
        let ghost holds = wanted.holds(self@.since);
        assert(ids@.to_set() =~= running.dom());
        let mut list: Vec<Task> = Vec::new();
        let mut i: usize = 0;
        while i < ids.len()
            invariant
                self.wf(),
                running == self@.running,
                holds == wanted.holds(self@.since),
                ids@.no_duplicates(),
                ids@.to_set() == running.dom(),
                i <= ids.len(),
                forall|j: int|
                    #![trigger list.deep_view()[j]]
                    0 <= j < list.len() ==> {
                        let task = list.deep_view()[j];
                        running.contains_key(task.id) && running[task.id] == task && holds(task)
                            && ids@.take(i as int).contains(task.id)
                    },
                forall|j: int, k: int|
                    #![trigger list.deep_view()[j], list.deep_view()[k]]
                    0 <= j < k < list.len() ==> list.deep_view()[j].id != list.deep_view()[k].id,
                forall|j: int|
                    #![trigger ids@[j]]
                    0 <= j < i && holds(running[ids@[j]]) ==> list.deep_view().contains(
                        running[ids@[j]],
                    ),
            decreases ids.len() - i,
        {
            let ghost before = list.deep_view();
            let id: u128 = ids[i];
            assert(ids@.to_set().contains(id));
            proof {
                lemma_take_next(ids@, i as int);
            }
            if let (Some(task), Some(since)) = (self.running_tasks.get(id), self.running_since(id)) {
                assert(task.deep_view() == running[id]);
                if wanted.fits(task, since, Ghost(self@.since)) {
                    let copy = task.clone();
                    list.push(copy);
                    assert(list.deep_view() =~= before.push(running[id]));
                    assert(list.deep_view()[before.len() as int] == running[id]);
                    assert forall|j: int| 0 <= j < i && holds(
                        running[#[trigger] ids@[j]],
                    ) implies list.deep_view().contains(running[ids@[j]]) by {
                        let k = choose|k: int|
                            0 <= k < before.len() && before[k] == running[ids@[j]];
                        assert(list.deep_view()[k] == before[k]);
                    }
                }
            }
            i = i + 1;
        }
        assert forall|id: u128| #[trigger]
            running.contains_key(id) && holds(running[id]) implies list.deep_view().contains(
            running[id],
        ) by {
            assert(ids@.to_set().contains(id));
            let k = choose|k: int| 0 <= k < ids@.len() && ids@[k] == id;
            assert(ids@[k] == id);
        }
        list
    }
}

impl AppState {
    /// Starts the aggregation of a job under the identifier of its task, at the
    /// given time.
    pub fn start_job(&mut self, task_id: u128, total_ranks: u32, started_at: Instant)
        requires
            old(self).wf(),
        ensures
            final(self).wf(),
            final(self)@ == old(self)@.with_job(
                task_id,
                MpiJobView::fresh(task_id, total_ranks, started_at),
            ),
    {
        self.mpi_jobs.insert(task_id, MpiJobState::started(task_id, total_ranks, started_at));
        assert(self@ =~= old(self)@.with_job(
            task_id,
            MpiJobView::fresh(task_id, total_ranks, started_at),
        ));
    }

    /// The time since a job started, in milliseconds, and 0 for an unknown job.
    /// Of a known job the number is left open: it rests on how much time has passed.
    pub fn job_duration_ms(&self, job_id: u128) -> (ms: u64)
        requires
            self.wf(),
        ensures
            !self@.jobs.contains_key(job_id) ==> ms == 0,
    {
        match self.mpi_jobs.get(job_id) {
            Some(job) => job.duration_ms(),
            None => 0,
        }
    }

    /// Keeps the result of a rank of a known job, and tells whether the job is
    /// complete with it.
    pub fn record_result(
        &mut self,
        job_id: u128,
        rank: u32,
        output: TaskOutput,
        node_id: u128,
    ) -> (complete: Option<bool>)
        requires
            old(self).wf(),
        ensures
            final(self).wf(),
            if old(self)@.jobs.contains_key(job_id) {
                let job = old(self)@.jobs[job_id].with_result(rank, output.deep_view(), node_id);
                final(self)@ == old(self)@.with_job(job_id, job) && complete == Some(job.complete())
            } else {
                final(self)@ == old(self)@ && complete is None
            },
    {
        assert(old(self)@.jobs.contains_key(job_id) ==> old(self)@.jobs[job_id] == old(
            self,
        ).mpi_jobs@[job_id].deep_view());
        let complete: Option<bool> = match self.mpi_jobs.get_mut(job_id) {
            Some(job) => {
                job.record_result(rank, output, node_id);
                Some(job.is_complete())
            },
            None => None,
        };
        proof {
            if old(self)@.jobs.contains_key(job_id) {
                let job = old(self)@.jobs[job_id].with_result(rank, output.deep_view(), node_id);
                assert(self@ =~= old(self)@.with_job(job_id, job));
            } else {
                assert(self@ =~= old(self)@);
            }
        }
        complete
    }

    /// Keeps the error of a rank of a known job, and tells whether the job is
    /// complete with it.
    pub fn record_error(&mut self, job_id: u128, rank: u32, reason: String) -> (complete: Option<
        bool,
    >)
        requires
            old(self).wf(),
        ensures
            final(self).wf(),
            if old(self)@.jobs.contains_key(job_id) {
                let job = old(self)@.jobs[job_id].with_error(rank, reason@);
                final(self)@ == old(self)@.with_job(job_id, job) && complete == Some(job.complete())
            } else {
                final(self)@ == old(self)@ && complete is None
            },
    {
        assert(old(self)@.jobs.contains_key(job_id) ==> old(self)@.jobs[job_id] == old(
            self,
        ).mpi_jobs@[job_id].deep_view());
        let complete: Option<bool> = match self.mpi_jobs.get_mut(job_id) {
            Some(job) => {
                job.record_error(rank, reason);
                Some(job.is_complete())
            },
            None => None,
        };
        proof {
            if old(self)@.jobs.contains_key(job_id) {
                let job = old(self)@.jobs[job_id].with_error(rank, reason@);
                assert(self@ =~= old(self)@.with_job(job_id, job));
            } else {
                assert(self@ =~= old(self)@);
            }
        }
        complete
    }

    /// Ends the aggregation of a job and finishes its task with what the ranks
    /// have answered. `duration_ms` is how long the job took.
    pub fn finalize_mpi_job(&mut self, job_id: u128, task_id: u128, duration_ms: u64)
        requires
            old(self).wf(),
        ensures
            final(self).wf(),
            final(self)@ == old(self)@.finalize(job_id, task_id, duration_ms),
    {
        let job: MpiJobState = match self.mpi_jobs.remove(job_id) {
            Some(job) => job,
            None => {
                assert(self@ =~= old(self)@);
                return;
            },
        };
        assert(old(self)@.jobs.contains_key(job_id) && job.deep_view() == old(self)@.jobs[job_id]);
        assert(self@ =~= old(self)@.forget_job(job_id));
        let ranks_ok: u32 = job.ranks_ok();
        let ranks_failed: u32 = job.ranks_failed();
        let mpi_results = job.into_rank_outputs();
        if let Some(task) = self.take_running(task_id) {
            let mut task = task;
            task.status = TaskStatus::MpiCompleted { job_id, duration_ms, ranks_ok, ranks_failed };
            self.complete_task(task, None, Some(mpi_results));
        }
        assert(self@ =~= old(self)@.finalize(job_id, task_id, duration_ms));
    }

    /// Requeues the tasks of a list one after the other.
    fn requeue_all(&mut self, tasks: Vec<Task>)
        requires
            old(self).wf(),
        ensures
            final(self).wf(),
            final(self)@ == old(self)@.requeue_all(tasks.deep_view()),
    {
        let ghost all = tasks.deep_view();
        let mut i: usize = 0;
        assert(all.take(0) =~= Seq::<TaskView>::empty());
        while i < tasks.len()
            invariant
                i <= tasks.len(),
                all == tasks.deep_view(),
                self.wf(),
                self@ == old(self)@.requeue_all(all.take(i as int)),
            decreases tasks.len() - i,
        {
            assert(all.take(i + 1).drop_last() =~= all.take(i as int));
            self.requeue(tasks[i].clone());
            i = i + 1;
        }
        assert(all.take(all.len() as int) =~= all);
    }

    /// Requeues the tasks of a list one after the other, and forgets their jobs.
    fn requeue_jobs(&mut self, tasks: Vec<Task>)
        requires
            old(self).wf(),
        ensures
            final(self).wf(),
            final(self)@ == old(self)@.requeue_jobs(tasks.deep_view()),
    {
        let ghost all = tasks.deep_view();
        let mut i: usize = 0;
        assert(all.take(0) =~= Seq::<TaskView>::empty());
        while i < tasks.len()
            invariant
                i <= tasks.len(),
                all == tasks.deep_view(),
                self.wf(),
                self@ == old(self)@.requeue_jobs(all.take(i as int)),
            decreases tasks.len() - i,
        {
            assert(all.take(i + 1).drop_last() =~= all.take(i as int));
            let ghost before = self@;
            let task = tasks[i].clone();
            self.mpi_jobs.remove(task.id);
            assert(self@ =~= before.forget_job(task.id));
            self.requeue(task);
            i = i + 1;
        }
        assert(all.take(all.len() as int) =~= all);
    }

    /// Requeues every task that is under way on a lost node, the single-node
    /// ones first, and forgets the jobs that had a rank on it.
    pub fn lose_node(&mut self, node_id: u128)
        requires
            old(self).wf(),
        ensures
            final(self).wf(),
            old(self)@.loses_node(final(self)@, node_id),
    {
        let lost = self.list_running(Wanted::OnNode(node_id));
        self.requeue_all(lost);
        let lost_jobs = self.list_running(Wanted::RankOn(node_id));
        self.requeue_jobs(lost_jobs);
    }

    /// Requeues every task that has been under way since before the given time,
    /// and forgets the jobs of those that had one.
    pub fn requeue_stuck(&mut self, cutoff: Timestamp)
        requires
            old(self).wf(),
        ensures
            final(self).wf(),
            old(self)@.requeues_stuck(final(self)@, cutoff),
    {
        let stuck = self.list_running(Wanted::StuckSince(cutoff));
        self.requeue_jobs(stuck);
    }
}

/// Whether the first task is to be started before the second.
fn goes_ahead(a: &Task, b: &Task) -> (r: bool)
    ensures
        r == ahead(a.deep_view(), b.deep_view()),
{
    a.priority > b.priority || (a.priority == b.priority && a.submitted_at.before(&b.submitted_at))
}

} // verus!
