//! The round in which the server looks for lost nodes and stuck tasks.
use crate::clock::{now, Timestamp, FIRST_SECOND};
use crate::cluster::{lists_silent, silent_since, ClusterView};
use crate::node::NodeStatus;
use crate::seqs::{lemma_push_contains, lemma_take_next};
use crate::state::AppState;
use vstd::prelude::*;

verus! {

/// The nodes that have been silent since the given time, each once.
fn silent_nodes(state: &AppState, cutoff: Timestamp) -> (silent: Vec<u128>)
    requires
        state.wf(),
    ensures
        lists_silent(silent@, state@.nodes, cutoff),
{
    let ids = state.node_ids();
    let ghost nodes = state@.nodes;
    let mut silent: Vec<u128> = Vec::new();
    let mut i: usize = 0;
    while i < ids.len()
        invariant
            state.wf(),
            nodes == state@.nodes,
            ids@.no_duplicates(),
            ids@.to_set() == nodes.dom(),
            i <= ids.len(),
            silent@.no_duplicates(),
            forall|id: u128| #[trigger]
                silent@.contains(id) <==> ids@.take(i as int).contains(id) && silent_since(
                    nodes[id],
                    cutoff,
                ),
        decreases ids.len() - i,
    {
        let ghost before = silent@;
        let id: u128 = ids[i];
        assert(ids@.to_set().contains(id));
        proof {
            lemma_take_next(ids@, i as int);
            lemma_push_contains(before, id);
        }
        assert(!before.contains(id));
        if let Some(node) = state.node(id) {
            if node.last_seen.before(&cutoff) && node.status != NodeStatus::Offline {
                silent.push(id);
            }
        }
        i = i + 1;
    }
    assert(ids@.take(ids.len() as int) =~= ids@);
    assert forall|id: u128| #[trigger]
        silent@.contains(id) <==> nodes.contains_key(id) && silent_since(nodes[id], cutoff) by {
        assert(ids@.to_set().contains(id) <==> nodes.contains_key(id));
    }
    silent
}

/// The first half of a round of the monitor: the nodes that have been silent
/// since `cutoff` are set offline and lose their tasks.
fn sweep_nodes(state: &mut AppState, cutoff: Timestamp)
    requires
        old(state).wf(),
    ensures
        final(state).wf(),
        old(state)@.loses_silent(final(state)@, cutoff),
        final(state)@.task_timeout_secs == old(state)@.task_timeout_secs,
{
    let silent = silent_nodes(state, cutoff);
    let mut i: usize = 0;
    proof {
        state@.lemma_loses_none();
        assert(silent@.take(0) =~= Seq::empty());
    }
    while i < silent.len()
        invariant
            i <= silent.len(),
            state.wf(),
            old(state)@.loses_nodes(state@, silent@.take(i as int)),
            state@.task_timeout_secs == old(state)@.task_timeout_secs,
        decreases silent.len() - i,
    {
        let id: u128 = silent[i];
        let ghost mid = state@;
        state.set_status(id, NodeStatus::Offline);
        let ghost told = state@;
        state.lose_node(id);
        proof {
            told.lemma_loses_node_timeout(state@, id);
            old(state)@.lemma_loses_next(mid, state@, silent@.take(i as int), id);
            assert(silent@.take(i + 1) =~= silent@.take(i as int).push(id));
        }
        i = i + 1;
    }
    assert(silent@.take(silent.len() as int) =~= silent@);
}

impl ClusterView {
    /// Whether the state after a round of the monitor at the given times follows
    /// from the one before. Each half of the round takes place where its cutoff
    /// lies within the calendar, the second only after the first.
    pub open spec fn ticked(
        self,
        after: ClusterView,
        node_time: Timestamp,
        task_time: Timestamp,
        done: bool,
    ) -> bool {
        let nodes_in_reach = node_time.reaches_back(self.node_timeout_secs);
        let tasks_in_reach = task_time.reaches_back(self.task_timeout_secs);
        &&& done == (nodes_in_reach && tasks_in_reach)
        &&& if !nodes_in_reach {
            after == self
        } else if !tasks_in_reach {
            self.loses_silent(after, node_time.minus_seconds(self.node_timeout_secs))
        } else {
            self.swept(
                after,
                node_time.minus_seconds(self.node_timeout_secs),
                task_time.minus_seconds(self.task_timeout_secs),
            )
        }
    }
}

/// The first half of a round of the monitor at the given time: the nodes that
/// have been silent for longer than the node timeout are set offline and lose
/// their tasks. Where the cutoff lies outside the calendar nothing is done.
pub fn tick_nodes(state: &mut AppState, time: Timestamp) -> (done: bool)
    requires
        old(state).wf(),
        time.is_regular(),
    ensures
        final(state).wf(),
        done == time.reaches_back(old(state)@.node_timeout_secs),
        if done {
            old(state)@.loses_silent(
                final(state)@,
                time.minus_seconds(old(state)@.node_timeout_secs),
            )
        } else {
            final(state)@ == old(state)@
        },
        final(state)@.task_timeout_secs == old(state)@.task_timeout_secs,
{
    let timeout: u64 = state.node_timeout_secs();
    if time.can_go_back(timeout) {
        sweep_nodes(state, time.earlier(timeout));
        true
    } else {
        false
    }
}

/// The second half of a round of the monitor at the given time: the tasks that
/// have been under way for longer than the task timeout are requeued. Where the
/// cutoff lies outside the calendar nothing is done.
pub fn tick_tasks(state: &mut AppState, time: Timestamp) -> (done: bool)
    requires
        old(state).wf(),
        time.is_regular(),
    ensures
        final(state).wf(),
        done == time.reaches_back(old(state)@.task_timeout_secs),
        if done {
            old(state)@.requeues_stuck(
                final(state)@,
                time.minus_seconds(old(state)@.task_timeout_secs),
            )
        } else {
            final(state)@ == old(state)@
        },
{
    let timeout: u64 = state.task_timeout_secs();
    if time.can_go_back(timeout) {
        state.requeue_stuck(time.earlier(timeout));
        true
    } else {
        false
    }
}

/// One round of the monitor at the given times. It stops, and the answer is
/// `false`, at the first cutoff that lies outside the calendar.
pub fn tick_at(state: &mut AppState, node_time: Timestamp, task_time: Timestamp) -> (done: bool)
    requires
        old(state).wf(),
        node_time.is_regular(),
        task_time.is_regular(),
    ensures
        final(state).wf(),
        old(state)@.ticked(final(state)@, node_time, task_time, done),
{
    if !tick_nodes(state, node_time) {
        return false;
    }
    let ghost mid = state@;
    let done: bool = tick_tasks(state, task_time);
    assert(old(state)@.loses_silent(
        mid,
        node_time.minus_seconds(old(state)@.node_timeout_secs),
    ));
    done
}

/// One round of the monitor at the present time. It stops, and the answer is
/// `false`, at the first cutoff that lies outside the calendar, which happens to
/// no timeout shorter than the part of the calendar before 1970. The clock is read
/// once for each half of the round; which times it shows is left open.
pub fn monitor_tick(state: &mut AppState) -> (done: bool)
    requires
        old(state).wf(),
    ensures
        final(state).wf(),
        exists|node_time: Timestamp, task_time: Timestamp|
            node_time.is_reading() && task_time.is_reading() && #[trigger] old(state)@.ticked(
                final(state)@,
                node_time,
                task_time,
                done,
            ),
        old(state)@.node_timeout_secs <= -FIRST_SECOND && old(state)@.task_timeout_secs
            <= -FIRST_SECOND ==> done,
{
    let node_time = now();
    if !tick_nodes(state, node_time) {
        assert(old(state)@.ticked(state@, node_time, node_time, false));
        return false;
    }
    let ghost mid = state@;
    let task_time = now();
    let done: bool = tick_tasks(state, task_time);
    proof {
        assert(old(state)@.loses_silent(
            mid,
            node_time.minus_seconds(old(state)@.node_timeout_secs),
        ));
        assert(old(state)@.ticked(state@, node_time, task_time, done));
    }
    done
}

} // verus!
