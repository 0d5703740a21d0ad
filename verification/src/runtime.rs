//! The execution state that a run keeps while it walks stages, jobs and
//! steps: where it is, and the results recorded so far, looked up by name
//! when a later stage or job checks its dependencies.  The values that
//! expressions see (variables, parameters, step outputs) are kept with the
//! evaluator.

use vstd::prelude::*;
use crate::expr_context::{current_job_status, JobStatusContext};
use crate::models::{
    clone_opt_string, ExecutionContext, Job, JobResult, JobStatus, Stage, StageResult, StageStatus,
    StepResult, StepStatus,
};
use crate::template::str_eq;

verus! {

broadcast use vstd::string::group_string_axioms;

/// Runtime context during pipeline execution.
pub struct RuntimeContext {
    /// Base execution context (pipeline name, working directory, ...).
    pub base: ExecutionContext,
    /// Stage being executed.
    pub current_stage: Option<String>,
    /// Job being executed.
    pub current_job: Option<String>,
    /// Completed stage results, by stage name; a later entry for a name
    /// replaces an earlier one.
    pub stage_results: Vec<(String, StageResult)>,
    /// Completed job results, by `stage.job` (or `job` outside a stage); a
    /// later entry for a key replaces an earlier one.
    pub job_results: Vec<(String, JobResult)>,
    /// The current job's step results, in order.
    pub step_results: Vec<StepResult>,
}

/// The result recorded last under `name`.
pub open spec fn stage_result_of(results: Seq<(String, StageResult)>, name: Seq<char>) -> Option<
    StageResult,
>
    decreases results.len(),
{
    if results.len() == 0 {
        None
    } else if results.last().0@ == name {
        Some(results.last().1)
    } else {
        stage_result_of(results.drop_last(), name)
    }
}

/// The result recorded last under `key`.
pub open spec fn job_result_of(results: Seq<(String, JobResult)>, key: Seq<char>) -> Option<JobResult>
    decreases results.len(),
{
    if results.len() == 0 {
        None
    } else if results.last().0@ == key {
        Some(results.last().1)
    } else {
        job_result_of(results.drop_last(), key)
    }
}

/// A stage status that lets dependents run.
pub open spec fn stage_succeeded(s: StageStatus) -> bool {
    s == StageStatus::Succeeded || s == StageStatus::SucceededWithIssues
}

/// A job status that lets dependents run.
pub open spec fn job_succeeded(s: JobStatus) -> bool {
    s == JobStatus::Succeeded || s == JobStatus::SucceededWithIssues
}

/// The key of a job's result: `stage.job` inside a stage, else `job`.
pub open spec fn job_key(stage: Option<String>, job: Seq<char>) -> Seq<char> {
    match stage {
        Some(s) => s@ + "."@ + job,
        None => job,
    }
}

/// The name by which a job is known: its `job` name, else its deployment name.
pub open spec fn job_identifier(job: Job) -> Option<String> {
    match job.job {
        Some(j) => Some(j),
        None => job.deployment,
    }
}

/// The dependency `d` has a recorded result that lets dependents run: a
/// stage result by name for stages, a job result by `stage.job` key for jobs.
pub open spec fn dependency_ok(ctx: RuntimeContext, d: String, is_stage: bool) -> bool {
    if is_stage {
        stage_result_of(ctx.stage_results@, d@) matches Some(r) && stage_succeeded(r.status)
    } else {
        job_result_of(ctx.job_results@, job_key(ctx.current_stage, d@)) matches Some(r) && job_succeeded(
            r.status,
        )
    }
}

/// Every dependency has a recorded result that lets dependents run.
pub open spec fn all_succeeded(ctx: RuntimeContext, deps: Seq<String>, is_stage: bool) -> bool {
    forall|i: int| 0 <= i < deps.len() ==> #[trigger] dependency_ok(ctx, deps[i], is_stage)
}

fn lookup_stage(results: &Vec<(String, StageResult)>, name: &str) -> (r: Option<StageStatus>)
    ensures
        r == match stage_result_of(results@, name@) {
            Some(x) => Some(x.status),
            None => None::<StageStatus>,
        },
{
    let mut i: usize = results.len();
    proof {
        assert(results@.subrange(0, i as int) == results@);
    }
    while i > 0
        invariant
            i <= results@.len(),
            stage_result_of(results@, name@) == stage_result_of(results@.subrange(0, i as int), name@),
        decreases i,
    {
        let ghost pre = results@.subrange(0, i as int);
        proof {
            assert(pre.drop_last() == results@.subrange(0, i - 1));
            assert(pre.last() == results@[i - 1]);
        }
        if str_eq(results[i - 1].0.as_str(), name) {
            return Some(results[i - 1].1.status);
        }
        i = i - 1;
    }
    None
}

fn lookup_job(results: &Vec<(String, JobResult)>, key: &str) -> (r: Option<JobStatus>)
    ensures
        r == match job_result_of(results@, key@) {
            Some(x) => Some(x.status),
            None => None::<JobStatus>,
        },
{
    let mut i: usize = results.len();
    proof {
        assert(results@.subrange(0, i as int) == results@);
    }
    while i > 0
        invariant
            i <= results@.len(),
            job_result_of(results@, key@) == job_result_of(results@.subrange(0, i as int), key@),
        decreases i,
    {
        let ghost pre = results@.subrange(0, i as int);
        proof {
            assert(pre.drop_last() == results@.subrange(0, i - 1));
            assert(pre.last() == results@[i - 1]);
        }
        if str_eq(results[i - 1].0.as_str(), key) {
            return Some(results[i - 1].1.status);
        }
        i = i - 1;
    }
    None
}

impl RuntimeContext {
    /// A context at the start of a run: no stage or job entered, no result
    /// recorded.
    pub fn new(base: ExecutionContext) -> (c: Self)
        ensures
            c.base == base,
            c.current_stage is None,
            c.current_job is None,
            c.stage_results@.len() == 0,
            c.job_results@.len() == 0,
            c.step_results@.len() == 0,
    {
        RuntimeContext {
            base,
            current_stage: None,
            current_job: None,
            stage_results: Vec::new(),
            job_results: Vec::new(),
            step_results: Vec::new(),
        }
    }

    /// Enters a stage: it becomes the current stage, no job is current, and
    /// the step results are cleared.
    pub fn enter_stage(&mut self, stage: &Stage)
        ensures
            final(self).current_stage == stage.stage,
            final(self).current_job is None,
            final(self).step_results@.len() == 0,
            final(self).base == old(self).base,
            final(self).stage_results == old(self).stage_results,
            final(self).job_results == old(self).job_results,
    {
        self.current_stage = clone_opt_string(&stage.stage);
        self.current_job = None;
        self.step_results = Vec::new();
    }

    /// Leaves the current stage, recording its result under its name.
    pub fn exit_stage(&mut self, result: StageResult)
        ensures
            final(self).current_stage is None,
            final(self).stage_results@ == match old(self).current_stage {
                Some(name) => old(self).stage_results@.push((name, result)),
                None => old(self).stage_results@,
            },
            final(self).current_job == old(self).current_job,
            final(self).job_results == old(self).job_results,
            final(self).step_results == old(self).step_results,
            final(self).base == old(self).base,
    {
        if let Some(name) = self.current_stage.take() {
            self.stage_results.push((name, result));
        }
    }

    /// Enters a job: it becomes the current job (by its identifier) and the
    /// step results are cleared.
    pub fn enter_job(&mut self, job: &Job)
        ensures
            match job_identifier(*job) {
                Some(id) => final(self).current_job matches Some(c) && c@ == id@,
                None => final(self).current_job is None,
            },
            final(self).step_results@.len() == 0,
            final(self).current_stage == old(self).current_stage,
            final(self).base == old(self).base,
            final(self).stage_results == old(self).stage_results,
            final(self).job_results == old(self).job_results,
    {
        self.current_job = match job.identifier() {
            Some(id) => Some(String::from_str(id)),
            None => None,
        };
        self.step_results = Vec::new();
    }

    /// Leaves the current job, recording its result under `stage.job` (or
    /// `job` outside a stage); with no current job nothing changes.
    pub fn exit_job(&mut self, result: JobResult)
        ensures
            match old(self).current_job {
                Some(job) => {
                    &&& final(self).job_results@.len() == old(self).job_results@.len() + 1
                    &&& final(self).job_results@.drop_last() == old(self).job_results@
                    &&& final(self).job_results@.last().0@ == job_key(old(self).current_stage, job@)
                    &&& final(self).job_results@.last().1 == result
                    &&& final(self).current_job is None
                },
                None => final(self).job_results == old(self).job_results && final(self).current_job is None,
            },
            final(self).current_stage == old(self).current_stage,
            final(self).stage_results == old(self).stage_results,
            final(self).step_results == old(self).step_results,
            final(self).base == old(self).base,
    {
        let key = match (&self.current_stage, &self.current_job) {
            (Some(stage), Some(job)) => {
                let mut k = stage.clone();
                k.append(".");
                k.append(job.as_str());
                k
            },
            (None, Some(job)) => job.clone(),
            _ => {
                return ;
            },
        };
        let ghost before = self.job_results@;
        self.job_results.push((key, result));
        proof {
            assert(self.job_results@.drop_last() == before);
        }
        self.current_job = None;
    }

    /// Records a step result of the current job.
    pub fn record_step_result(&mut self, result: StepResult)
        ensures
            final(self).step_results@ == old(self).step_results@.push(result),
            final(self).current_stage == old(self).current_stage,
            final(self).current_job == old(self).current_job,
            final(self).stage_results == old(self).stage_results,
            final(self).job_results == old(self).job_results,
            final(self).base == old(self).base,
    {
        self.step_results.push(result);
    }

    /// Whether a result is recorded for the stage named `name`.
    pub fn has_stage_result(&self, name: &str) -> (b: bool)
        ensures
            b == stage_result_of(self.stage_results@, name@) is Some,
    {
        lookup_stage(&self.stage_results, name).is_some()
    }

    /// Whether every dependency succeeded: for stages, each named stage has
    /// a recorded result that succeeded (with or without issues); for jobs,
    /// the same of each job of the current stage, by its `stage.job` key.
    pub fn dependencies_succeeded(&self, deps: &[String], is_stage: bool) -> (b: bool)
        ensures
            b == all_succeeded(*self, deps@, is_stage),
    {
        let mut i: usize = 0;
        while i < deps.len()
            invariant
                i <= deps@.len(),
                forall|j: int| 0 <= j < i ==> #[trigger] dependency_ok(*self, deps@[j], is_stage),
            decreases deps@.len() - i,
        {
            let ok = if is_stage {
                match lookup_stage(&self.stage_results, deps[i].as_str()) {
                    Some(s) => s == StageStatus::Succeeded || s == StageStatus::SucceededWithIssues,
                    None => false,
                }
            } else {
                let key = match &self.current_stage {
                    Some(stage) => {
                        let mut k = stage.clone();
                        k.append(".");
                        k.append(deps[i].as_str());
                        k
                    },
                    None => deps[i].clone(),
                };
                match lookup_job(&self.job_results, key.as_str()) {
                    Some(s) => s == JobStatus::Succeeded || s == JobStatus::SucceededWithIssues,
                    None => false,
                }
            };
            if !ok {
                proof {
                    assert(!dependency_ok(*self, deps@[i as int], is_stage));
                }
                return false;
            }
            i = i + 1;
        }
        true
    }

    /// The status of the current job as its steps so far show it: failed if
    /// a step failed, succeeded if there are steps and none failed.
    pub fn current_job_status(&self) -> (c: JobStatusContext)
        ensures
            c.failed == exists|i: int|
                0 <= i < self.step_results@.len() && self.step_results@[i].status == StepStatus::Failed,
            c.succeeded == (!c.failed && self.step_results@.len() > 0),
            !c.canceled,
    {
        let mut statuses: Vec<StepStatus> = Vec::new();
        let mut i: usize = 0;
        while i < self.step_results.len()
            invariant
                i <= self.step_results@.len(),
                statuses@.len() == i,
                forall|j: int| 0 <= j < i ==> statuses@[j] == self.step_results@[j].status,
            decreases self.step_results@.len() - i,
        {
            statuses.push(self.step_results[i].status);
            i = i + 1;
        }
        let c = current_job_status(&statuses);
        proof {
            if c.failed {
                let k = choose|k: int| 0 <= k < statuses@.len() && statuses@[k] == StepStatus::Failed;
                assert(self.step_results@[k].status == StepStatus::Failed);
            }
            if exists|k: int|
                0 <= k < self.step_results@.len() && self.step_results@[k].status == StepStatus::Failed {
                let k = choose|k: int|
                    0 <= k < self.step_results@.len() && self.step_results@[k].status == StepStatus::Failed;
                assert(statuses@[k] == StepStatus::Failed);
            }
        }
        c
    }
}

/// A result recorded for a name is the one that name then looks up, and
/// recording it leaves the lookups of every other name as they were.
pub proof fn lemma_recorded_stage_result(results: Seq<(String, StageResult)>, name: String, r: StageResult, other: Seq<char>)
    ensures
        stage_result_of(results.push((name, r)), name@) == Some(r),
        other != name@ ==> stage_result_of(results.push((name, r)), other) == stage_result_of(results, other),
{
    assert(results.push((name, r)).drop_last() == results);
}

/// Entering a stage and leaving it with a result makes a stage that depends
/// on it run exactly when that result succeeded.
pub proof fn lemma_exit_stage_then_dependents(before: RuntimeContext, entered: RuntimeContext, after: RuntimeContext, stage: Stage, r: StageResult)
    requires
        stage.stage is Some,
        entered.current_stage == stage.stage,
        entered.stage_results == before.stage_results,
        after.current_stage is None,
        after.stage_results@ == entered.stage_results@.push((stage.stage->0, r)),
    ensures
        all_succeeded(after, seq![stage.stage->0], true) == stage_succeeded(r.status),
{
    lemma_recorded_stage_result(entered.stage_results@, stage.stage->0, r, stage.stage->0@);
    let deps = seq![stage.stage->0];
    assert(deps[0] == stage.stage->0);
    if all_succeeded(after, deps, true) {
        assert(dependency_ok(after, deps[0], true));
    }
}

} // verus!
