//! What an executed task leaves behind.
use vstd::prelude::*;

verus! {

/// The result of one execution.
#[derive(Debug, PartialEq)]
pub struct TaskOutput {
    pub exit_code: i32,
    pub stdout: String,
    pub stderr: String,
    pub body: Option<Vec<u8>>,
    pub custom_result: Option<Vec<u8>>,
}

/// The contents of a `TaskOutput`.
pub struct TaskOutputView {
    pub exit_code: i32,
    pub stdout: Seq<char>,
    pub stderr: Seq<char>,
    pub body: Option<Seq<u8>>,
    pub custom_result: Option<Seq<u8>>,
}

impl DeepView for TaskOutput {
    type V = TaskOutputView;

    open spec fn deep_view(&self) -> TaskOutputView {
        TaskOutputView {
            exit_code: self.exit_code,
            stdout: self.stdout@,
            stderr: self.stderr@,
            body: self.body.deep_view(),
            custom_result: self.custom_result.deep_view(),
        }
    }
}

/// A copy of optional bytes.
pub fn copy_bytes(bytes: &Option<Vec<u8>>) -> (r: Option<Vec<u8>>)
    ensures
        r.deep_view() == bytes.deep_view(),
{
    match bytes {
        Some(b) => {
            let c = b.clone();
            assert(c.deep_view() =~= b.deep_view());
            Some(c)
        },
        None => None,
    }
}

impl Clone for TaskOutput {
    fn clone(&self) -> (r: TaskOutput)
        ensures
            r.deep_view() == self.deep_view(),
    {
        TaskOutput {
            exit_code: self.exit_code,
            stdout: self.stdout.clone(),
            stderr: self.stderr.clone(),
            body: copy_bytes(&self.body),
            custom_result: copy_bytes(&self.custom_result),
        }
    }
}

/// The contents of a success that printed `stdout`.
pub open spec fn success_of(stdout: Seq<char>) -> TaskOutputView {
    TaskOutputView {
        exit_code: 0,
        stdout,
        stderr: Seq::empty(),
        body: None,
        custom_result: None,
    }
}

/// The contents of a failure with this exit code that complained with `stderr`.
pub open spec fn failure_of(exit_code: i32, stderr: Seq<char>) -> TaskOutputView {
    TaskOutputView {
        exit_code,
        stdout: Seq::empty(),
        stderr,
        body: None,
        custom_result: None,
    }
}

impl TaskOutput {
    /// A success that printed `stdout`.
    pub fn success(stdout: String) -> (r: TaskOutput)
        ensures
            r.deep_view() == (TaskOutputView {
                exit_code: 0,
                stdout: stdout@,
                stderr: Seq::empty(),
                body: None,
                custom_result: None,
            }),
            r.deep_view() == success_of(stdout@),
    {
        TaskOutput {
            exit_code: 0,
            stdout,
            stderr: String::new(),
            body: None,
            custom_result: None,
        }
    }

    /// A failure with this exit code that complained with `stderr`.
    pub fn failure(exit_code: i32, stderr: String) -> (r: TaskOutput)
        ensures
            r.deep_view() == (TaskOutputView {
                exit_code,
                stdout: Seq::empty(),
                stderr: stderr@,
                body: None,
                custom_result: None,
            }),
            r.deep_view() == failure_of(exit_code, stderr@),
    {
        TaskOutput {
            exit_code,
            stdout: String::new(),
            stderr,
            body: None,
            custom_result: None,
        }
    }
}

/// The output of one rank of an MPI job.
#[derive(Debug, PartialEq)]
pub struct MpiRankOutput {
    pub rank: u32,
    pub node_id: u128,
    pub output: TaskOutput,
}

/// The contents of an `MpiRankOutput`.
pub struct MpiRankOutputView {
    pub rank: u32,
    pub node_id: u128,
    pub output: TaskOutputView,
}

impl DeepView for MpiRankOutput {
    type V = MpiRankOutputView;

    open spec fn deep_view(&self) -> MpiRankOutputView {
        MpiRankOutputView {
            rank: self.rank,
            node_id: self.node_id,
            output: self.output.deep_view(),
        }
    }
}

impl Clone for MpiRankOutput {
    fn clone(&self) -> (r: MpiRankOutput)
        ensures
            r.deep_view() == self.deep_view(),
    {
        MpiRankOutput { rank: self.rank, node_id: self.node_id, output: self.output.clone() }
    }
}

} // verus!
