//! The parts of the expression context that describe the run (pipeline,
//! stage, job, agent, step status, resources), evaluation errors, and the
//! table of built-in expression functions.

use vstd::prelude::*;
use std::collections::HashMap;

verus! {

broadcast use vstd::string::group_string_axioms;

/// Evaluation error.
#[derive(Debug, Clone)]
pub struct EvalError {
    pub message: String,
}

impl EvalError {
    pub fn new(message: &str) -> (e: Self)
        ensures
            e.message@ == message@,
    {
        EvalError { message: String::from_str(message) }
    }

    /// The text that displaying this error gives.
    pub fn to_display_string(&self) -> (r: String)
        ensures
            r@ == "evaluation error: "@ + self.message@,
    {
        let mut r = String::from_str("evaluation error: ");
        r.append(self.message.as_str());
        r
    }
}

#[derive(Debug, Clone, Default)]
pub struct PipelineContext {
    /// Pipeline name
    pub name: Option<String>,
    /// Pipeline workspace
    pub workspace: Option<String>,
}

#[derive(Debug, Clone, Default)]
pub struct StageContext {
    /// Stage name
    pub name: String,
    /// Stage display name
    pub display_name: Option<String>,
}

#[derive(Debug, Clone, Default)]
pub struct JobContext {
    /// Job name
    pub name: String,
    /// Job display name
    pub display_name: Option<String>,
    /// Agent context
    pub agent: AgentContext,
    /// Job status
    pub status: JobStatusContext,
}

#[derive(Debug, Clone, Default)]
pub struct AgentContext {
    pub name: Option<String>,
    pub os: Option<String>,
    pub os_architecture: Option<String>,
    pub temp_directory: Option<String>,
    pub tools_directory: Option<String>,
    pub work_folder: Option<String>,
    pub build_directory: Option<String>,
}

#[derive(Debug, Clone, Copy, Default)]
pub struct JobStatusContext {
    pub succeeded: bool,
    pub failed: bool,
    pub canceled: bool,
}

#[derive(Debug, Clone, Copy, Default)]
pub struct StepStatusContext {
    pub succeeded: bool,
    pub failed: bool,
    pub skipped: bool,
}

#[derive(Debug, Clone, Default)]
pub struct ResourcesContext {
    pub pipelines: HashMap<String, PipelineResourceContext>,
    pub repositories: HashMap<String, RepositoryResourceContext>,
}

#[derive(Debug, Clone, Default)]
pub struct PipelineResourceContext {
    pub pipeline_id: Option<String>,
    pub run_name: Option<String>,
    pub run_id: Option<String>,
    pub run_uri: Option<String>,
    pub source_branch: Option<String>,
    pub source_commit: Option<String>,
    pub source_provider: Option<String>,
    pub requested_for: Option<String>,
    pub requested_for_id: Option<String>,
}

#[derive(Debug, Clone, Default)]
pub struct RepositoryResourceContext {
    pub name: Option<String>,
    pub repo_type: Option<String>,
    pub ref_name: Option<String>,
    pub version: Option<String>,
}

/// The status of the current job as `succeeded()`, `failed()` and
/// `canceled()` see it, from the statuses of its steps so far: failed once a
/// step failed, succeeded once steps ran and none failed; cancellation is not
/// tracked.
pub fn current_job_status(steps: &Vec<crate::models::StepStatus>) -> (c: JobStatusContext)
    ensures
        c.failed == exists|i: int| 0 <= i < steps@.len() && steps@[i] == crate::models::StepStatus::Failed,
        c.succeeded == (!c.failed && steps@.len() > 0),
        !c.canceled,
{
    let mut has_failed = false;
    let mut i: usize = 0;
    while i < steps.len()
        invariant
            i <= steps@.len(),
            has_failed == exists|k: int| 0 <= k < i && steps@[k] == crate::models::StepStatus::Failed,
        decreases steps@.len() - i,
    {
        if steps[i] == crate::models::StepStatus::Failed {
            has_failed = true;
        }
        i = i + 1;
    }
    JobStatusContext { succeeded: !has_failed && steps.len() > 0, failed: has_failed, canceled: false }
}

/// The built-in expression functions (`eq`, `contains`, `format`, ...).
pub struct BuiltinFunctions;

impl BuiltinFunctions {
    pub fn new() -> (f: Self) {
        BuiltinFunctions
    }
}

} // verus!
