//! What holds of a whole round through the queue.
use crate::choice::{best, lemma_best_first_len, scored, scored_for_job};
use crate::clock::Moment;
use crate::cluster::ClusterView;
use crate::laws::{has_id, lemma_has_id};
use crate::node::Weight;
use crate::scheduler::{PassView, PhaseView, Sent};
use crate::task::{TaskKindView, TaskView};
use vstd::multiset::Multiset;
use vstd::prelude::*;

verus! {

/// What happens in one step of a round.
pub enum RoundStep {
    /// The nodes were weighed for the task at the cursor.
    Weighed { weighed: Seq<(u128, Weight)>, now: Moment },
    /// A message had its outcome.
    Sent { sent: Sent, now: Moment },
    /// A job was given up.
    Aborted,
}

impl PassView {
    /// A round that has not begun.
    pub open spec fn begun() -> PassView {
        PassView { cursor: 0, phase: PhaseView::Weighing }
    }

    /// Whether a round is over.
    pub open spec fn finished(self, state: ClusterView) -> bool {
        self.phase is Weighing && self.cursor == state.pending.len()
    }

    /// Whether this is what a round asks for next, and can be carried out.
    pub open spec fn accepts(self, state: ClusterView, step: RoundStep) -> bool {
        match step {
            RoundStep::Weighed { weighed, .. } => self.phase is Weighing && self.cursor
                < state.pending.len() && self.ports_suffice(state, weighed),
            RoundStep::Sent { sent, .. } => self.sending() && (sent == Sent::Delivered
                ==> state.can_add_active(self.target())),
            RoundStep::Aborted => self.phase is Aborting,
        }
    }

    /// State and round after a step.
    pub open spec fn after_step(self, state: ClusterView, step: RoundStep) -> (
        ClusterView,
        PassView,
    ) {
        match step {
            RoundStep::Weighed { weighed, now } => self.after_weighing(state, weighed, now),
            RoundStep::Sent { sent, now } => self.after_sending(state, sent, now),
            RoundStep::Aborted => (state, self.skip_task()),
        }
    }
}

/// A round: its steps, and state and round before each of them and after the last.
pub struct Round {
    pub steps: Seq<RoundStep>,
    pub trace: Seq<(ClusterView, PassView)>,
}

/// Whether too few of the weighed nodes suit a task.
pub open spec fn unplaceable(
    state: ClusterView,
    task: TaskView,
    weighed: Seq<(u128, Weight)>,
) -> bool {
    match task.kind {
        TaskKindView::Mpi { np, .. } => scored_for_job(
            state.nodes,
            task.requirements,
            weighed,
        ).len() < np,
        _ => scored(state.nodes, task.requirements, weighed).len() == 0,
    }
}

/// Whether the second task is the first one, sent to its node or nodes.
pub open spec fn is_under_way(task: TaskView, running: TaskView) -> bool {
    &&& running.status is Dispatched || running.status is MpiDispatched
    &&& running == task.with_status(running.status)
}

/// No two tasks of a list have the same identifier.
pub open spec fn distinct_ids(tasks: Seq<TaskView>) -> bool {
    forall|i: int, j: int|
        #![trigger tasks[i], tasks[j]]
        0 <= i < j < tasks.len() ==> tasks[i].id != tasks[j].id
}

impl Round {
    /// The round begins at the front of the queue, and every step is one that it asks for.
    pub open spec fn wf(self) -> bool {
        &&& self.trace.len() == self.steps.len() + 1
        &&& self.trace[0].1 == PassView::begun()
        &&& forall|k: int|
            #![trigger self.steps[k]]
            0 <= k < self.steps.len() ==> self.trace[k].1.accepts(self.trace[k].0, self.steps[k])
                && self.trace[k + 1] == self.trace[k].1.after_step(self.trace[k].0, self.steps[k])
    }

    /// The state before the round.
    pub open spec fn before(self) -> ClusterView {
        self.trace[0].0
    }

    /// The state after the round.
    pub open spec fn after(self) -> ClusterView {
        self.trace.last().0
    }

    /// Whether the round has come to its end.
    pub open spec fn ended(self) -> bool {
        self.trace.last().1.finished(self.trace.last().0)
    }

    /// The tasks that left the queue in the first `k` steps, in this order.
    pub open spec fn started(self, k: int) -> Seq<TaskView>
        decreases k,
    {
        if k <= 0 {
            Seq::empty()
        } else if self.trace[k].0.pending.len() < self.trace[k - 1].0.pending.len() {
            self.started(k - 1).push(
                self.trace[k - 1].0.pending[self.trace[k - 1].1.cursor as int],
            )
        } else {
            self.started(k - 1)
        }
    }

    /// Whether in step `k` a message for the task at place `at` was not delivered.
    pub open spec fn undelivered(self, k: int, at: int) -> bool {
        &&& 0 <= k < self.steps.len()
        &&& self.trace[k].1.cursor == at
        &&& self.trace[k].1.sending()
        &&& self.steps[k] matches RoundStep::Sent { sent, .. } && sent != Sent::Delivered
    }

    /// Whether in step `k` it turned out that too few nodes suit the task at place `at`.
    pub open spec fn unsuited(self, k: int, at: int) -> bool {
        &&& 0 <= k < self.steps.len()
        &&& self.trace[k].1.cursor == at
        &&& self.trace[k].1.phase is Weighing
        &&& self.steps[k] matches RoundStep::Weighed { weighed, .. } && unplaceable(
            self.trace[k].0,
            self.trace[k].0.pending[at],
            weighed,
        )
    }

    /// Whether in step `k` the task stood at place `at` and found too few nodes,
    /// or had a message that was not delivered.
    pub open spec fn set_back(self, k: int, task: TaskView, at: int) -> bool {
        self.trace[k].0.pending[at] == task && (self.unsuited(k, at) || self.undelivered(k, at))
    }

    /// Whether the task was set back at place `at` within the first `k` steps.
    pub open spec fn left(self, task: TaskView, at: int, k: int) -> bool {
        exists|m: int| 0 <= m < k && #[trigger] self.set_back(m, task, at)
    }
}

/// What one step does to the queue and to the running tasks: either both stay as
/// they are, or the task at the cursor leaves the queue and is under way.
proof fn lemma_step(pass: PassView, state: ClusterView, step: RoundStep)
    requires
        pass.wf(state),
        pass.accepts(state, step),
    ensures
        ({
            let (s, p) = pass.after_step(state, step);
            let task = state.pending[pass.cursor as int];
            &&& p.wf(s)
            &&& if s.pending.len() < state.pending.len() {
                &&& pass.cursor < state.pending.len()
                &&& p.cursor == pass.cursor
                &&& p.phase is Weighing
                &&& s.pending == state.pending.remove(pass.cursor as int)
                &&& s.running.contains_key(task.id)
                &&& is_under_way(task, s.running[task.id])
                &&& s.running == state.running.insert(task.id, s.running[task.id])
            } else {
                &&& s.pending == state.pending
                &&& s.running == state.running
                &&& p.cursor == pass.cursor || p == pass.skip_task()
            }
            &&& s.completed == state.completed
            &&& s.retries == state.retries
            &&& s.channels == state.channels
        }),
{
    if pass.cursor < state.pending.len() {
        let task = state.pending[pass.cursor as int];
        if let RoundStep::Weighed { weighed, .. } = step {
            lemma_best_first_len(scored_for_job(state.nodes, task.requirements, weighed));
        }
    }
}

/// The queue of a round and what has left it hold together what the queue held
/// at first.
proof fn lemma_tasks(round: Round, k: int)
    requires
        round.wf(),
        0 <= k <= round.steps.len(),
    ensures
        ({
            let (s, p) = round.trace[k];
            let first = round.before();
            let gone = round.started(k);
            &&& p.wf(s)
            &&& s.pending.to_multiset().add(gone.to_multiset()) == first.pending.to_multiset()
            &&& forall|id: u128| #[trigger]
                s.running.contains_key(id) <==> first.running.contains_key(id) || has_id(gone, id)
            &&& forall|id: u128| #[trigger]
                s.running.contains_key(id) && !has_id(gone, id) ==> s.running[id]
                    == first.running[id]
            &&& s.completed == first.completed
            &&& s.retries == first.retries
            &&& s.channels == first.channels
        }),
    decreases k,
{
    broadcast use vstd::seq_lib::group_to_multiset_ensures;

    if k == 0 {
        assert(round.started(0) == Seq::<TaskView>::empty());
        assert(Seq::<TaskView>::empty().to_multiset() =~= Multiset::empty());
    } else {
        lemma_tasks(round, k - 1);
        let (s, p) = round.trace[k - 1];
        let (t, _) = round.trace[k];
        assert(round.trace[k] == p.after_step(s, round.steps[k - 1]));
        lemma_step(p, s, round.steps[k - 1]);
        let gone = round.started(k - 1);
        if t.pending.len() < s.pending.len() {
            let task = s.pending[p.cursor as int];
            let more = gone.push(task);
            assert(more.drop_last() =~= gone);
            assert(s.pending.contains(task));
            assert(s.pending.to_multiset().count(task) > 0);
            assert(t.pending.to_multiset() =~= s.pending.to_multiset().remove(task));
            assert(more.to_multiset() =~= gone.to_multiset().insert(task));
            assert(t.pending.to_multiset().add(more.to_multiset())
                =~= s.pending.to_multiset().add(gone.to_multiset()));
            assert forall|id: u128| #[trigger] t.running.contains_key(id)
                <==> round.before().running.contains_key(id) || has_id(more, id) by {
                lemma_has_id(more, id);
                assert(s.running.contains_key(id) <==> round.before().running.contains_key(id)
                    || has_id(gone, id));
            }
            assert forall|id: u128| #[trigger]
                t.running.contains_key(id) && !has_id(more, id) implies t.running[id]
                == round.before().running[id] by {
                lemma_has_id(more, id);
                assert(s.running.contains_key(id));
            }
        }
    }
}

/// No task is lost or doubled in a round: what waits afterwards and what has left
/// the queue are together what waited before, each as often. What has left the
/// queue runs, other tasks run as before, nothing is finished or retried, and no
/// channel is opened or closed.
pub proof fn law_round_keeps_every_task(round: Round)
    requires
        round.wf(),
    ensures
        ({
            let gone = round.started(round.steps.len() as int);
            &&& round.after().pending.to_multiset().add(gone.to_multiset())
                == round.before().pending.to_multiset()
            &&& forall|id: u128| #[trigger]
                round.after().running.contains_key(id) <==> round.before().running.contains_key(id)
                    || has_id(gone, id)
            &&& forall|id: u128| #[trigger]
                round.after().running.contains_key(id) && !has_id(gone, id)
                    ==> round.after().running[id] == round.before().running[id]
            &&& round.after().completed == round.before().completed
            &&& round.after().retries == round.before().retries
            &&& round.after().channels == round.before().channels
        }),
{
    lemma_tasks(round, round.steps.len() as int);
}

/// Where the identifiers in the queue are distinct, they stay so, and each task
/// that has left the queue is under way as itself.
proof fn lemma_under_way(round: Round, k: int)
    requires
        round.wf(),
        0 <= k <= round.steps.len(),
        distinct_ids(round.before().pending),
    ensures
        ({
            let (s, p) = round.trace[k];
            let gone = round.started(k);
            &&& distinct_ids(s.pending)
            &&& forall|i: int|
                #![trigger s.pending[i]]
                0 <= i < s.pending.len() ==> !has_id(gone, s.pending[i].id)
            &&& forall|i: int|
                #![trigger gone[i]]
                0 <= i < gone.len() ==> is_under_way(gone[i], s.running[gone[i].id])
        }),
    decreases k,
{
    if k > 0 {
        lemma_under_way(round, k - 1);
        lemma_tasks(round, k - 1);
        let (s, p) = round.trace[k - 1];
        let (t, _) = round.trace[k];
        assert(round.trace[k] == p.after_step(s, round.steps[k - 1]));
        lemma_step(p, s, round.steps[k - 1]);
        let gone = round.started(k - 1);
        if t.pending.len() < s.pending.len() {
            let c = p.cursor as int;
            let task = s.pending[c];
            let more = gone.push(task);
            assert(more.drop_last() =~= gone);
            assert forall|i: int, j: int|
                #![trigger t.pending[i], t.pending[j]]
                0 <= i < j < t.pending.len() implies t.pending[i].id != t.pending[j].id by {
                let oi = if i < c {
                    i
                } else {
                    i + 1
                };
                let oj = if j < c {
                    j
                } else {
                    j + 1
                };
                assert(t.pending[i] == s.pending[oi] && t.pending[j] == s.pending[oj]);
            }
            assert forall|i: int|
                #![trigger t.pending[i]]
                0 <= i < t.pending.len() implies !has_id(more, t.pending[i].id) by {
                lemma_has_id(more, t.pending[i].id);
                if i < c {
                    assert(t.pending[i] == s.pending[i]);
                    assert(s.pending[i].id != s.pending[c].id);
                } else {
                    assert(t.pending[i] == s.pending[i + 1]);
                    assert(s.pending[c].id != s.pending[i + 1].id);
                }
            }
            assert forall|i: int|
                #![trigger more[i]]
                0 <= i < more.len() implies is_under_way(more[i], t.running[more[i].id]) by {
                if i < gone.len() {
                    assert(more[i] == gone[i]);
                    assert(!has_id(gone, s.pending[c].id));
                    if gone[i].id == task.id {
                        assert(has_id(gone, task.id));
                    }
                }
            }
        }
    }
}

/// Where the identifiers in the queue are distinct, each task that leaves the
/// queue in a round is under way afterwards, and none of them waits on.
pub proof fn law_started_tasks_are_under_way(round: Round, i: int)
    requires
        round.wf(),
        distinct_ids(round.before().pending),
        0 <= i < round.started(round.steps.len() as int).len(),
    ensures
        ({
            let task = round.started(round.steps.len() as int)[i];
            &&& round.after().running.contains_key(task.id)
            &&& is_under_way(task, round.after().running[task.id])
            &&& !has_id(round.after().pending, task.id)
        }),
{
    let n = round.steps.len() as int;
    lemma_under_way(round, n);
    lemma_tasks(round, n);
    let gone = round.started(n);
    assert(gone[i].id == gone[i].id);
    assert(has_id(gone, gone[i].id));
    if has_id(round.after().pending, gone[i].id) {
        let j = choose|j: int|
            0 <= j < round.after().pending.len() && #[trigger] round.after().pending[j].id
                == gone[i].id;
        assert(!has_id(gone, round.after().pending[j].id));
    }
}

/// A reason once given stays one.
proof fn lemma_left_later(round: Round, task: TaskView, at: int, k: int)
    requires
        round.left(task, at, k),
    ensures
        round.left(task, at, k + 1),
{
    let m = choose|m: int| 0 <= m < k && #[trigger] round.set_back(m, task, at);
    assert(round.set_back(m, task, at));
}

/// There was a reason to leave every task before the cursor, and one to leave the
/// task at the cursor where not all of its ranks were delivered.
proof fn lemma_left(round: Round, k: int)
    requires
        round.wf(),
        0 <= k <= round.steps.len(),
    ensures
        ({
            let (s, p) = round.trace[k];
            &&& forall|at: int|
                #![trigger s.pending[at]]
                0 <= at < p.cursor ==> round.left(s.pending[at], at, k)
            &&& p.phase is Aborting || (p.phase matches PhaseView::Ranks { all_ok, .. } && !all_ok)
                ==> round.left(s.pending[p.cursor as int], p.cursor as int, k)
        }),
    decreases k,
{
    if k > 0 {
        lemma_left(round, k - 1);
        lemma_tasks(round, k - 1);
        let (s, p) = round.trace[k - 1];
        let (t, q) = round.trace[k];
        let step = round.steps[k - 1];
        let c = p.cursor as int;
        assert(round.trace[k] == p.after_step(s, step));
        lemma_step(p, s, step);
        assert forall|at: int| #![trigger t.pending[at]] 0 <= at < c implies round.left(
            t.pending[at],
            at,
            k,
        ) by {
            assert(t.pending[at] == s.pending[at]);
            lemma_left_later(round, s.pending[at], at, k - 1);
        }
        if p.phase is Aborting || (p.phase matches PhaseView::Ranks { all_ok, .. } && !all_ok) {
            lemma_left_later(round, s.pending[c], c, k - 1);
        }
        if let RoundStep::Sent { sent, .. } = step {
            if sent != Sent::Delivered {
                assert(round.set_back(k - 1, s.pending[c], c));
            }
        }
        if let RoundStep::Weighed { weighed, .. } = step {
            if q.cursor == p.cursor + 1 {
                let list = scored(s.nodes, s.pending[c].requirements, weighed);
                if list.len() > 0 {
                    assert(best(list) is Some);
                }
                assert(unplaceable(s, s.pending[c], weighed));
                assert(round.set_back(k - 1, s.pending[c], c));
            }
        }
    }
}

/// A round leaves a task in the queue only for a reason: when its turn came, too
/// few of the nodes suited it, or a message for it was not delivered.
pub proof fn law_round_leaves_tasks_for_a_reason(round: Round, at: int)
    requires
        round.wf(),
        round.ended(),
        0 <= at < round.after().pending.len(),
    ensures
        round.left(round.after().pending[at], at, round.steps.len() as int),
{
    lemma_left(round, round.steps.len() as int);
    assert(round.after().pending[at] == round.trace[round.steps.len() as int].0.pending[at]);
}

} // verus!
