//! Worker nodes: what they can do, how they are doing, and whether they suit a task.
use crate::clock::Timestamp;
use crate::task::{copy_texts, Percent, TaskRequirements, TaskRequirementsView};
use vstd::prelude::*;

verus! {

/// What a node has declared about itself.
#[derive(Debug, PartialEq)]
pub struct NodeCapabilities {
    pub cpu_cores: u32,
    pub total_ram_mb: u64,
    pub has_gpu: bool,
    pub tags: Vec<String>,
    pub region: String,
    pub os: String,
    /// Host/IP reachable from other cluster nodes (for MPI peer connections).
    pub mpi_host: String,
    /// Whether mpirun/mpiexec is available on this node.
    pub has_mpirun: bool,
}

/// The contents of `NodeCapabilities`.
pub struct NodeCapabilitiesView {
    pub cpu_cores: u32,
    pub total_ram_mb: u64,
    pub has_gpu: bool,
    pub tags: Seq<Seq<char>>,
    pub region: Seq<char>,
    pub os: Seq<char>,
    pub mpi_host: Seq<char>,
    pub has_mpirun: bool,
}

impl DeepView for NodeCapabilities {
    type V = NodeCapabilitiesView;

    open spec fn deep_view(&self) -> NodeCapabilitiesView {
        NodeCapabilitiesView {
            cpu_cores: self.cpu_cores,
            total_ram_mb: self.total_ram_mb,
            has_gpu: self.has_gpu,
            tags: self.tags.deep_view(),
            region: self.region@,
            os: self.os@,
            mpi_host: self.mpi_host@,
            has_mpirun: self.has_mpirun,
        }
    }
}

impl Clone for NodeCapabilities {
    fn clone(&self) -> (r: NodeCapabilities)
        ensures
            r.deep_view() == self.deep_view(),
    {
        NodeCapabilities {
            cpu_cores: self.cpu_cores,
            total_ram_mb: self.total_ram_mb,
            has_gpu: self.has_gpu,
            tags: copy_texts(&self.tags),
            region: self.region.clone(),
            os: self.os.clone(),
            mpi_host: self.mpi_host.clone(),
            has_mpirun: self.has_mpirun,
        }
    }
}

/// What a node last reported about its load.
#[derive(Clone, Copy, Debug, PartialEq, Eq, Structural)]
pub struct NodeStats {
    pub cpu_used_pct: Percent,
    pub ram_free_mb: u64,
    pub active_tasks: u32,
    pub latency_ms: Option<u64>,
    pub reported_at: Timestamp,
}

impl DeepView for NodeStats {
    type V = NodeStats;

    open spec fn deep_view(&self) -> NodeStats {
        *self
    }
}

/// Whether a node takes work.
#[derive(Clone, Copy, Debug, PartialEq, Eq, Structural)]
pub enum NodeStatus {
    Online,
    Busy,
    Draining,
    Offline,
}

/// A node as the server knows it.
#[derive(Debug, PartialEq)]
pub struct NodeInfo {
    pub id: u128,
    pub name: String,
    pub capabilities: NodeCapabilities,
    pub stats: NodeStats,
    pub status: NodeStatus,
    pub last_seen: Timestamp,
}

/// The contents of a `NodeInfo`.
pub struct NodeInfoView {
    pub id: u128,
    pub name: Seq<char>,
    pub capabilities: NodeCapabilitiesView,
    pub stats: NodeStats,
    pub status: NodeStatus,
    pub last_seen: Timestamp,
}

impl DeepView for NodeInfo {
    type V = NodeInfoView;

    open spec fn deep_view(&self) -> NodeInfoView {
        NodeInfoView {
            id: self.id,
            name: self.name@,
            capabilities: self.capabilities.deep_view(),
            stats: self.stats,
            status: self.status,
            last_seen: self.last_seen,
        }
    }
}

impl Clone for NodeInfo {
    fn clone(&self) -> (r: NodeInfo)
        ensures
            r.deep_view() == self.deep_view(),
    {
        NodeInfo {
            id: self.id,
            name: self.name.clone(),
            capabilities: self.capabilities.clone(),
            stats: self.stats,
            status: self.status,
            last_seen: self.last_seen,
        }
    }
}

/// What floating-point arithmetic has to say about a node and a task.
///
/// Scores are compared, never added up, so an integer stands for each of them:
/// of two scores the higher one has the higher integer, and equal scores have
/// the same.
#[derive(Clone, Copy, Debug, PartialEq, Eq, Structural)]
pub struct Weight {
    /// Whether the free CPU percentage is not below the required one.
    pub cpu_suffices: bool,
    /// The rank of the weighted score among all scores.
    pub score: i64,
}

/// The quantities that the weighted score is made of.
#[derive(Clone, Copy, Debug, PartialEq, Eq, Structural)]
pub struct ScoreTerms {
    pub cpu_used_pct: Percent,
    pub ram_free_mb: u64,
    pub total_ram_mb: u64,
    pub active_tasks: u32,
    pub latency_ms: Option<u64>,
    /// Whether the node lies in the region that the task prefers.
    pub in_preferred_region: bool,
}

impl NodeInfoView {
    /// Whether the node has every tag.
    pub open spec fn has_tags(self, tags: Seq<Seq<char>>) -> bool {
        forall|i: int|
            0 <= i < tags.len() ==> self.capabilities.tags.contains(#[trigger] tags[i])
    }

    /// Whether the node is neither offline nor draining.
    pub open spec fn takes_work(self) -> bool {
        self.status != NodeStatus::Offline && self.status != NodeStatus::Draining
    }

    /// Whether the node meets the hard requirements of a task.
    pub open spec fn eligible(self, req: TaskRequirementsView, cpu_suffices: bool) -> bool {
        &&& self.takes_work()
        &&& cpu_suffices
        &&& self.stats.ram_free_mb >= req.min_ram_free_mb
        &&& req.requires_gpu ==> self.capabilities.has_gpu
        &&& self.has_tags(req.required_tags)
    }

    /// The score of the node for a task, if it is eligible.
    pub open spec fn score_for(self, req: TaskRequirementsView, weight: Weight) -> Option<i64> {
        if self.eligible(req, weight.cpu_suffices) {
            Some(weight.score)
        } else {
            None
        }
    }

    /// The quantities that the weighted score of the node for a task is made of.
    pub open spec fn score_terms(self, req: TaskRequirementsView) -> ScoreTerms {
        ScoreTerms {
            cpu_used_pct: self.stats.cpu_used_pct,
            ram_free_mb: self.stats.ram_free_mb,
            total_ram_mb: self.capabilities.total_ram_mb,
            active_tasks: self.stats.active_tasks,
            latency_ms: self.stats.latency_ms,
            in_preferred_region: req.preferred_region == Some(self.capabilities.region),
        }
    }

    /// The same node with another status.
    pub open spec fn with_status(self, status: NodeStatus) -> NodeInfoView {
        NodeInfoView { status, ..self }
    }

    /// The same node with another number of active tasks.
    pub open spec fn with_active(self, active_tasks: u32) -> NodeInfoView {
        NodeInfoView { stats: NodeStats { active_tasks, ..self.stats }, ..self }
    }
}

/// Whether a list of texts holds a text.
pub fn contains_text(texts: &Vec<String>, wanted: &String) -> (r: bool)
    ensures
        r == texts.deep_view().contains(wanted@),
{
    let mut i: usize = 0;
    while i < texts.len()
        invariant
            i <= texts.len(),
            forall|j: int| 0 <= j < i ==> texts.deep_view()[j] != wanted@,
        decreases texts.len() - i,
    {
        if texts[i] == *wanted {
            assert(texts.deep_view()[i as int] == wanted@);
            return true;
        }
        i = i + 1;
    }
    false
}

impl NodeInfo {
    /// Whether the node declares every required tag.
    fn has_tags(&self, tags: &Vec<String>) -> (r: bool)
        ensures
            r == self.deep_view().has_tags(tags.deep_view()),
    {
        let mut i: usize = 0;
        while i < tags.len()
            invariant
                i <= tags.len(),
                forall|j: int|
                    0 <= j < i ==> self.deep_view().capabilities.tags.contains(
                        #[trigger] tags.deep_view()[j],
                    ),
            decreases tags.len() - i,
        {
            if !contains_text(&self.capabilities.tags, &tags[i]) {
                assert(tags.deep_view()[i as int] == tags[i as int]@);
                return false;
            }
            i = i + 1;
        }
        true
    }

    /// The score of this node for a task. `None` if hard requirements are unmet.
    pub fn score_for(&self, req: &TaskRequirements, weight: Weight) -> (r: Option<i64>)
        ensures
            r == self.deep_view().score_for(req.deep_view(), weight),
    {
        if self.status == NodeStatus::Offline || self.status == NodeStatus::Draining {
            return None;
        }
        if !weight.cpu_suffices {
            return None;
        }
        if self.stats.ram_free_mb < req.min_ram_free_mb {
            return None;
        }
        if req.requires_gpu && !self.capabilities.has_gpu {
            return None;
        }
        if !self.has_tags(&req.required_tags) {
            return None;
        }
        Some(weight.score)
    }

    /// The quantities that the weighted score of this node for a task is made of.
    pub fn score_terms(&self, req: &TaskRequirements) -> (r: ScoreTerms)
        ensures
            r == (ScoreTerms {
                cpu_used_pct: self.stats.cpu_used_pct,
                ram_free_mb: self.stats.ram_free_mb,
                total_ram_mb: self.capabilities.total_ram_mb,
                active_tasks: self.stats.active_tasks,
                latency_ms: self.stats.latency_ms,
                in_preferred_region: req.deep_view().preferred_region == Some(
                    self.deep_view().capabilities.region,
                ),
            }),
            r == self.deep_view().score_terms(req.deep_view()),
    {
        let in_preferred_region: bool = match &req.preferred_region {
            Some(region) => *region == self.capabilities.region,
            None => false,
        };
        ScoreTerms {
            cpu_used_pct: self.stats.cpu_used_pct,
            ram_free_mb: self.stats.ram_free_mb,
            total_ram_mb: self.capabilities.total_ram_mb,
            active_tasks: self.stats.active_tasks,
            latency_ms: self.stats.latency_ms,
            in_preferred_region,
        }
    }
}

} // verus!
