//! The decisions a pipeline run makes between the commands it runs: which
//! steps still run after a failure, how step, job and stage outcomes roll up
//! into statuses, what a step's action asks to be done, and which variables a
//! step's output sets through `##vso[task.setvariable ...]` logging commands.

use vstd::prelude::*;
use std::collections::HashMap;
use std::time::Duration;
use crate::models::{JobStatus, StageResult, StageStatus, Step, StepAction, StepStatus};
use crate::text::{
    chars_of, contains_seq, lines, lines_of, slice_chars, split, split_str, starts_with,
    str_contains, string_from, trim, trim_chars, find, find_exec, occurs_at_exec,
};

verus! {

broadcast use vstd::string::group_string_axioms;

// ---------------------------------------------------------------------------
// Configuration and result of a run
// ---------------------------------------------------------------------------

/// Result of pipeline execution.
#[derive(Debug, Clone)]
pub struct ExecutionResult {
    /// All stage results
    pub stages: Vec<StageResult>,
    /// Total duration
    pub duration: Duration,
    /// Overall success
    pub success: bool,
    /// Final variables state
    pub variables: HashMap<String, String>,
}

/// Configuration for pipeline execution.
#[derive(Debug, Clone)]
pub struct ExecutorConfig {
    /// Maximum parallel stages (0 = unlimited)
    pub max_parallel_stages: usize,
    /// Maximum parallel jobs within a stage (0 = unlimited)
    pub max_parallel_jobs: usize,
    /// Default timeout for steps (in minutes)
    pub default_step_timeout: u32,
    /// Whether to continue on error at pipeline level
    pub continue_on_error: bool,
    /// Task cache directory
    pub task_cache_dir: Option<std::path::PathBuf>,
    /// Whether to enable container support
    pub enable_containers: bool,
}

impl Default for ExecutorConfig {
    fn default() -> (c: Self)
        ensures
            c.max_parallel_stages == 0,
            c.max_parallel_jobs == 0,
            c.default_step_timeout == 60,
            !c.continue_on_error,
            c.task_cache_dir is None,
            !c.enable_containers,
    {
        ExecutorConfig {
            max_parallel_stages: 0,
            max_parallel_jobs: 0,
            default_step_timeout: 60,
            continue_on_error: false,
            task_cache_dir: None,
            enable_containers: false,
        }
    }
}

// ---------------------------------------------------------------------------
// Statuses as the expression context shows them
// ---------------------------------------------------------------------------

/// The name of a stage status in expressions; pending and running read
/// "InProgress".
pub open spec fn stage_status_name(s: StageStatus) -> Seq<char> {
    match s {
        StageStatus::Succeeded => "Succeeded"@,
        StageStatus::SucceededWithIssues => "SucceededWithIssues"@,
        StageStatus::Failed => "Failed"@,
        StageStatus::Canceled => "Canceled"@,
        StageStatus::Skipped => "Skipped"@,
        StageStatus::Pending | StageStatus::Running => "InProgress"@,
    }
}

/// The name of a job status in expressions; pending and running read
/// "InProgress".
pub open spec fn job_status_name(s: JobStatus) -> Seq<char> {
    match s {
        JobStatus::Succeeded => "Succeeded"@,
        JobStatus::SucceededWithIssues => "SucceededWithIssues"@,
        JobStatus::Failed => "Failed"@,
        JobStatus::Canceled => "Canceled"@,
        JobStatus::Skipped => "Skipped"@,
        JobStatus::Pending | JobStatus::Running => "InProgress"@,
    }
}

pub fn status_to_string(status: &StageStatus) -> (r: String)
    ensures
        r@ == stage_status_name(*status),
{
    match status {
        StageStatus::Succeeded => String::from_str("Succeeded"),
        StageStatus::SucceededWithIssues => String::from_str("SucceededWithIssues"),
        StageStatus::Failed => String::from_str("Failed"),
        StageStatus::Canceled => String::from_str("Canceled"),
        StageStatus::Skipped => String::from_str("Skipped"),
        StageStatus::Pending | StageStatus::Running => String::from_str("InProgress"),
    }
}

pub fn job_status_to_string(status: &JobStatus) -> (r: String)
    ensures
        r@ == job_status_name(*status),
{
    match status {
        JobStatus::Succeeded => String::from_str("Succeeded"),
        JobStatus::SucceededWithIssues => String::from_str("SucceededWithIssues"),
        JobStatus::Failed => String::from_str("Failed"),
        JobStatus::Canceled => String::from_str("Canceled"),
        JobStatus::Skipped => String::from_str("Skipped"),
        JobStatus::Pending | JobStatus::Running => String::from_str("InProgress"),
    }
}

/// Whether a finished stage lets the stages that depend on it run.
pub fn stage_dependency_met(status: &StageStatus) -> (b: bool)
    ensures
        b == (*status == StageStatus::Succeeded || *status == StageStatus::SucceededWithIssues),
{
    match status {
        StageStatus::Succeeded | StageStatus::SucceededWithIssues => true,
        _ => false,
    }
}

/// Whether a finished job lets the jobs that depend on it run.
pub fn job_dependency_met(status: &JobStatus) -> (b: bool)
    ensures
        b == (*status == JobStatus::Succeeded || *status == JobStatus::SucceededWithIssues),
{
    match status {
        JobStatus::Succeeded | JobStatus::SucceededWithIssues => true,
        _ => false,
    }
}

/// The key under which a job's result is recorded: the stage name, a dot,
/// and the job name; just the job name outside a stage.
pub open spec fn job_result_key_text(stage: Option<Seq<char>>, job: Seq<char>) -> Seq<char> {
    match stage {
        Some(s) => s + seq!['.'] + job,
        None => job,
    }
}

pub fn job_result_key(stage: Option<&str>, job: &str) -> (r: String)
    ensures
        r@ == job_result_key_text(
            match stage {
                Some(s) => Some(s@),
                None => None,
            },
            job@,
        ),
{
    match stage {
        Some(s) => {
            let mut r = String::from_str(s);
            r.push('.');
            r.append(job);
            r
        },
        None => String::from_str(job),
    }
}

// ---------------------------------------------------------------------------
// Steps of a job
// ---------------------------------------------------------------------------

/// Whether a step runs even after an earlier step failed: its condition
/// mentions `always()`.
pub open spec fn always_runs(step: Step) -> bool {
    match step.condition {
        Some(c) => contains_seq(c@, "always()"@),
        None => false,
    }
}

pub fn should_always_run(step: &Step) -> (b: bool)
    ensures
        b == always_runs(*step),
{
    match &step.condition {
        Some(c) => str_contains(c.as_str(), "always()"),
        None => false,
    }
}

/// The state of a job while its steps run: its status so far, and whether
/// the following steps still run.
#[derive(Debug, Clone, Copy, PartialEq, Eq, Structural)]
pub struct JobProgress {
    pub status: JobStatus,
    pub should_run: bool,
}

/// The job state after a step that finished with `status`.
pub open spec fn after_step(p: JobProgress, status: StepStatus, continue_on_error: bool) -> JobProgress {
    match status {
        StepStatus::Failed => if !continue_on_error {
            JobProgress { status: JobStatus::Failed, should_run: false }
        } else {
            JobProgress { status: JobStatus::SucceededWithIssues, should_run: p.should_run }
        },
        StepStatus::SucceededWithIssues => if p.status == JobStatus::Succeeded {
            JobProgress { status: JobStatus::SucceededWithIssues, should_run: p.should_run }
        } else {
            p
        },
        _ => p,
    }
}

/// The job state after a sequence of finished steps (status and whether the
/// step continues on error).
pub open spec fn after_steps(p: JobProgress, steps: Seq<(StepStatus, bool)>) -> JobProgress
    decreases steps.len(),
{
    if steps.len() == 0 {
        p
    } else {
        after_steps(after_step(p, steps[0].0, steps[0].1), steps.drop_first())
    }
}

impl JobProgress {
    /// The state before the first step.
    pub fn new() -> (p: Self)
        ensures
            p.status == JobStatus::Succeeded,
            p.should_run,
    {
        JobProgress { status: JobStatus::Succeeded, should_run: true }
    }

    /// Whether a step runs: while no earlier failure stopped the job, or, after
    /// one, if the step always runs.
    pub fn runs_step(&self, always: bool) -> (b: bool)
        ensures
            b == (self.should_run || always),
    {
        self.should_run || always
    }

    /// Records a finished step.
    pub fn record(&mut self, status: StepStatus, continue_on_error: bool)
        ensures
            *final(self) == after_step(*old(self), status, continue_on_error),
    {
        match status {
            StepStatus::Failed => {
                if !continue_on_error {
                    self.should_run = false;
                    self.status = JobStatus::Failed;
                } else {
                    self.status = JobStatus::SucceededWithIssues;
                }
            },
            StepStatus::SucceededWithIssues => {
                if self.status == JobStatus::Succeeded {
                    self.status = JobStatus::SucceededWithIssues;
                }
            },
            _ => {},
        }
    }
}

/// A job whose steps all finished without failure or issues stays
/// `Succeeded`; a job that met either does not.  Once a failure stops a job,
/// it stays stopped.
pub proof fn lemma_job_succeeds_iff_clean(p: JobProgress, steps: Seq<(StepStatus, bool)>)
    requires
        p.status == JobStatus::Succeeded,
    ensures
        (after_steps(p, steps).status == JobStatus::Succeeded) <==> (forall|i: int|
            0 <= i < steps.len() ==> (#[trigger] steps[i]).0 != StepStatus::Failed && steps[i].0
                != StepStatus::SucceededWithIssues),
        !p.should_run ==> !after_steps(p, steps).should_run,
    decreases steps.len(),
{
    if steps.len() > 0 {
        let q = after_step(p, steps[0].0, steps[0].1);
        let rest = steps.drop_first();
        if q.status == JobStatus::Succeeded {
            lemma_job_succeeds_iff_clean(q, rest);
            assert forall|i: int| 0 <= i < rest.len() implies rest[i] == steps[i + 1] by {}
            if after_steps(q, rest).status == JobStatus::Succeeded {
                assert forall|i: int| 0 <= i < steps.len() implies (#[trigger] steps[i]).0
                    != StepStatus::Failed && steps[i].0 != StepStatus::SucceededWithIssues by {
                    if i > 0 {
                        assert(steps[i] == rest[i - 1]);
                    }
                }
            } else {
                let j = choose|j: int|
                    0 <= j < rest.len() && !((#[trigger] rest[j]).0 != StepStatus::Failed
                        && rest[j].0 != StepStatus::SucceededWithIssues);
                assert(steps[j + 1] == rest[j]);
            }
        } else {
            lemma_not_succeeded_stays(q, rest);
            assert(steps[0].0 == StepStatus::Failed || steps[0].0 == StepStatus::SucceededWithIssues);
        }
        lemma_stopped_stays(q, rest);
    }
}

proof fn lemma_not_succeeded_stays(p: JobProgress, steps: Seq<(StepStatus, bool)>)
    requires
        p.status != JobStatus::Succeeded,
        p.status == JobStatus::Failed || p.status == JobStatus::SucceededWithIssues,
    ensures
        after_steps(p, steps).status != JobStatus::Succeeded,
    decreases steps.len(),
{
    if steps.len() > 0 {
        lemma_not_succeeded_stays(after_step(p, steps[0].0, steps[0].1), steps.drop_first());
    }
}

proof fn lemma_stopped_stays(p: JobProgress, steps: Seq<(StepStatus, bool)>)
    ensures
        !p.should_run ==> !after_steps(p, steps).should_run,
    decreases steps.len(),
{
    if steps.len() > 0 {
        lemma_stopped_stays(after_step(p, steps[0].0, steps[0].1), steps.drop_first());
    }
}

// ---------------------------------------------------------------------------
// Jobs of a stage, instances of a matrix job, stages of a pipeline
// ---------------------------------------------------------------------------

/// The stage status after a job that finished with `job`: a failed job fails
/// the stage, a job with issues marks a so far clean stage.
pub open spec fn stage_after_job(stage: StageStatus, job: JobStatus) -> StageStatus {
    if job == JobStatus::Failed {
        StageStatus::Failed
    } else if job == JobStatus::SucceededWithIssues && stage == StageStatus::Succeeded {
        StageStatus::SucceededWithIssues
    } else {
        stage
    }
}

/// The stage status after a sequence of finished jobs.
pub open spec fn stage_after_jobs(stage: StageStatus, jobs: Seq<JobStatus>) -> StageStatus
    decreases jobs.len(),
{
    if jobs.len() == 0 {
        stage
    } else {
        stage_after_jobs(stage_after_job(stage, jobs[0]), jobs.drop_first())
    }
}

pub fn fold_job_into_stage(stage: StageStatus, job: JobStatus) -> (r: StageStatus)
    ensures
        r == stage_after_job(stage, job),
{
    if job == JobStatus::Failed {
        StageStatus::Failed
    } else if job == JobStatus::SucceededWithIssues && stage == StageStatus::Succeeded {
        StageStatus::SucceededWithIssues
    } else {
        stage
    }
}

/// What becomes of a stage or job before it runs.
#[derive(Debug, Clone, Copy, PartialEq, Eq, Structural)]
pub enum StartDecision {
    /// It runs.
    Run,
    /// It is skipped.
    Skip,
    /// It fails without running.
    Fail,
}

/// What an evaluated condition decides: run when it holds, skip when it
/// does not, fail when it could not be evaluated.
pub open spec fn decision_of(o: Result<bool, String>) -> StartDecision {
    match o {
        Ok(true) => StartDecision::Run,
        Ok(false) => StartDecision::Skip,
        Err(_) => StartDecision::Fail,
    }
}

/// A condition lets a stage or job run exactly when it evaluates to true,
/// skips it exactly when it evaluates to false, and fails it exactly when it
/// cannot be evaluated.
pub proof fn lemma_condition_decides(o: Result<bool, String>)
    ensures
        decision_of(o) == StartDecision::Run <==> o == Ok::<bool, String>(true),
        decision_of(o) == StartDecision::Skip <==> o == Ok::<bool, String>(false),
        decision_of(o) == StartDecision::Fail <==> o is Err,
{
}

/// Whether a stage or job runs: one with dependencies of which some did not
/// succeed is skipped without its condition being looked at; otherwise it
/// runs when it has no condition or its condition holds, is skipped when the
/// condition does not hold, and fails when the condition cannot be
/// evaluated.
pub fn decide_start<F: Fn(&String) -> Result<bool, String>>(
    has_dependencies: bool,
    dependencies_met: bool,
    condition: &Option<String>,
    eval: &F,
) -> (r: StartDecision)
    requires
        forall|c: &String| call_requires(*eval, (c,)),
    ensures
        has_dependencies && !dependencies_met ==> r == StartDecision::Skip,
        !(has_dependencies && !dependencies_met) && condition is None ==> r == StartDecision::Run,
        !(has_dependencies && !dependencies_met) && condition is Some ==> exists|o: Result<bool, String>|
            call_ensures(*eval, (&condition->0,), o) && r == decision_of(o),
{
    if has_dependencies && !dependencies_met {
        return StartDecision::Skip;
    }
    match condition {
        None => {
            assert(condition is None);
            StartDecision::Run
        },
        Some(c) => {
            let o = eval(c);
            let r = match &o {
                Ok(true) => StartDecision::Run,
                Ok(false) => StartDecision::Skip,
                Err(_) => StartDecision::Fail,
            };
            proof {
                assert(r == decision_of(o));
                assert(call_ensures(*eval, (&condition->0,), o));
            }
            r
        },
    }
}

/// Whether the run goes on to the next level of jobs (or stages) after one
/// whose rolled-up status is `stage`.
pub fn continue_after(stage: StageStatus, continue_on_error: bool) -> (b: bool)
    ensures
        b == !(stage == StageStatus::Failed && !continue_on_error),
{
    !(stage == StageStatus::Failed && !continue_on_error)
}

/// Starting from `Succeeded`, a stage ends `Failed` exactly when one of its
/// jobs failed, and stays `Succeeded` exactly when every job succeeded
/// without issues (or was skipped, canceled, pending or running).
pub proof fn lemma_stage_status_rollup(jobs: Seq<JobStatus>)
    ensures
        (stage_after_jobs(StageStatus::Succeeded, jobs) == StageStatus::Failed) <==> (exists|i: int|
            0 <= i < jobs.len() && jobs[i] == JobStatus::Failed),
        (stage_after_jobs(StageStatus::Succeeded, jobs) == StageStatus::Succeeded) <==> (forall|
            i: int,
        | 0 <= i < jobs.len() ==> jobs[i] != JobStatus::Failed && jobs[i]
            != JobStatus::SucceededWithIssues),
    decreases jobs.len(),
{
    lemma_rollup_from(StageStatus::Succeeded, jobs);
}

proof fn lemma_rollup_from(s: StageStatus, jobs: Seq<JobStatus>)
    requires
        s == StageStatus::Succeeded || s == StageStatus::SucceededWithIssues || s
            == StageStatus::Failed,
    ensures
        (stage_after_jobs(s, jobs) == StageStatus::Failed) <==> (s == StageStatus::Failed
            || exists|i: int| 0 <= i < jobs.len() && jobs[i] == JobStatus::Failed),
        (stage_after_jobs(s, jobs) == StageStatus::Succeeded) <==> (s == StageStatus::Succeeded
            && forall|i: int|
            0 <= i < jobs.len() ==> jobs[i] != JobStatus::Failed && jobs[i]
                != JobStatus::SucceededWithIssues),
    decreases jobs.len(),
{
    if jobs.len() > 0 {
        let t = stage_after_job(s, jobs[0]);
        let rest = jobs.drop_first();
        lemma_rollup_from(t, rest);
        assert forall|i: int| 0 <= i < rest.len() implies rest[i] == jobs[i + 1] by {}
        if exists|i: int| 0 <= i < jobs.len() && jobs[i] == JobStatus::Failed {
            let i = choose|i: int| 0 <= i < jobs.len() && jobs[i] == JobStatus::Failed;
            if i > 0 {
                assert(rest[i - 1] == JobStatus::Failed);
            }
        }
        if exists|i: int| 0 <= i < rest.len() && rest[i] == JobStatus::Failed {
            let i = choose|i: int| 0 <= i < rest.len() && rest[i] == JobStatus::Failed;
            assert(jobs[i + 1] == JobStatus::Failed);
        }
        if !(forall|i: int|
            0 <= i < jobs.len() ==> jobs[i] != JobStatus::Failed && jobs[i]
                != JobStatus::SucceededWithIssues) {
            let i = choose|i: int|
                0 <= i < jobs.len() && !(jobs[i] != JobStatus::Failed && jobs[i]
                    != JobStatus::SucceededWithIssues);
            if i > 0 {
                assert(rest[i - 1] == jobs[i]);
            }
        }
    }
}

/// A matrix job's status after one of its instances finished with
/// `instance`, and whether the remaining instances still run (a failure
/// stops them unless the job continues on error).
pub open spec fn matrix_after_instance(
    overall: JobStatus,
    instance: JobStatus,
    continue_on_error: bool,
) -> (JobStatus, bool) {
    if instance == JobStatus::Failed {
        (JobStatus::Failed, continue_on_error)
    } else if instance == JobStatus::SucceededWithIssues && overall == JobStatus::Succeeded {
        (JobStatus::SucceededWithIssues, true)
    } else {
        (overall, true)
    }
}

/// A matrix job fails exactly when it had failed already or the instance
/// failed; the remaining instances stop exactly when an instance failed and
/// the job does not continue on error; a failed job never becomes
/// successful again.
pub proof fn lemma_matrix_instance(overall: JobStatus, instance: JobStatus, continue_on_error: bool)
    ensures
        (matrix_after_instance(overall, instance, continue_on_error).0 == JobStatus::Failed) <==> (overall
            == JobStatus::Failed || instance == JobStatus::Failed),
        !matrix_after_instance(overall, instance, continue_on_error).1 <==> (instance == JobStatus::Failed
            && !continue_on_error),
        instance != JobStatus::Failed && instance != JobStatus::SucceededWithIssues ==> matrix_after_instance(
            overall,
            instance,
            continue_on_error,
        ).0 == overall,
        instance == JobStatus::SucceededWithIssues && overall == JobStatus::Succeeded ==> matrix_after_instance(
            overall,
            instance,
            continue_on_error,
        ).0 == JobStatus::SucceededWithIssues,
{
}

/// A run stays successful exactly while no stage failed, and goes on after
/// a stage exactly when the stage did not fail or failures are tolerated.
pub proof fn lemma_pipeline_after_stage(success: bool, stage: StageStatus, continue_on_error: bool)
    ensures
        pipeline_after_stage(success, stage, continue_on_error).0 <==> (success && stage != StageStatus::Failed),
        pipeline_after_stage(success, stage, continue_on_error).1 <==> (stage != StageStatus::Failed
            || continue_on_error),
{
}

/// A job or stage fails a stage that contains it exactly when it failed;
/// issues only mark a stage that was clean.
pub proof fn lemma_stage_after_job(stage: StageStatus, job: JobStatus)
    ensures
        job == JobStatus::Failed ==> stage_after_job(stage, job) == StageStatus::Failed,
        job != JobStatus::Failed && stage != StageStatus::Failed ==> stage_after_job(stage, job)
            != StageStatus::Failed,
        job == JobStatus::Succeeded ==> stage_after_job(stage, job) == stage,
        job == JobStatus::SucceededWithIssues && stage == StageStatus::Succeeded ==> stage_after_job(stage, job)
            == StageStatus::SucceededWithIssues,
{
}

pub fn fold_matrix_instance(overall: JobStatus, instance: JobStatus, continue_on_error: bool) -> (r: (
    JobStatus,
    bool,
))
    ensures
        r == matrix_after_instance(overall, instance, continue_on_error),
{
    if instance == JobStatus::Failed {
        (JobStatus::Failed, continue_on_error)
    } else if instance == JobStatus::SucceededWithIssues && overall == JobStatus::Succeeded {
        (JobStatus::SucceededWithIssues, true)
    } else {
        (overall, true)
    }
}

/// Whether a whole run succeeded so far, after a stage finished with
/// `stage`, and whether it goes on.
pub open spec fn pipeline_after_stage(success: bool, stage: StageStatus, continue_on_error: bool) -> (
    bool,
    bool,
) {
    if stage == StageStatus::Failed {
        (false, continue_on_error)
    } else {
        (success, true)
    }
}

pub fn fold_stage_into_pipeline(success: bool, stage: StageStatus, continue_on_error: bool) -> (r: (
    bool,
    bool,
))
    ensures
        r == pipeline_after_stage(success, stage, continue_on_error),
{
    if stage == StageStatus::Failed {
        (false, continue_on_error)
    } else {
        (success, true)
    }
}

// ---------------------------------------------------------------------------
// What a step's action asks for
// ---------------------------------------------------------------------------

/// How a step is carried out.
#[derive(Debug, Clone)]
pub enum StepPlan {
    /// Run `script` with `program flag script` in `working_directory` (the
    /// run's directory if none).
    Shell {
        program: String,
        flag: String,
        script: String,
        working_directory: Option<String>,
        fail_on_stderr: bool,
    },
    /// Run the named task.
    Task { task: String },
    /// Nothing to run: the step finishes at once with this outcome.
    Finished { status: StepStatus, output: String, exit_code: Option<i32> },
}

/// The plan for a shell step, as character sequences.
pub open spec fn shell_plan(
    p: StepPlan,
    program: Seq<char>,
    flag: Seq<char>,
    script: String,
    working_directory: Option<String>,
    fail_on_stderr: bool,
) -> bool {
    p matches StepPlan::Shell { program: pr, flag: f, script: s, working_directory: w, fail_on_stderr: e }
        && pr@ == program && f@ == flag && s == script && w == working_directory && e
        == fail_on_stderr
}

/// The plan for a step that finishes at once.
pub open spec fn finished_plan(p: StepPlan, status: StepStatus, output: Seq<char>, exit_code: Option<i32>) -> bool {
    p matches StepPlan::Finished { status: s, output: o, exit_code: c } && s == status && o@
        == output && c == exit_code
}

fn finished(status: StepStatus, output: &str, exit_code: Option<i32>) -> (p: StepPlan)
    ensures
        finished_plan(p, status, output@, exit_code),
{
    StepPlan::Finished { status, output: String::from_str(output), exit_code }
}

fn shell(
    program: &str,
    flag: &str,
    script: &String,
    working_directory: &Option<String>,
    fail_on_stderr: bool,
) -> (p: StepPlan)
    ensures
        shell_plan(p, program@, flag@, *script, *working_directory, fail_on_stderr),
{
    StepPlan::Shell {
        program: String::from_str(program),
        flag: String::from_str(flag),
        script: script.clone(),
        working_directory: match working_directory {
            Some(w) => Some(w.clone()),
            None => None,
        },
        fail_on_stderr,
    }
}

/// What a step's action asks for: scripts run under `sh -c`, `bash -c` or
/// `pwsh -Command` (Windows PowerShell as `powershell.exe -Command` on
/// Windows, `pwsh -Command` elsewhere); tasks run through the task runner;
/// checkout, artifact steps and the rest finish at once.
pub fn plan_step_action(action: &StepAction, on_windows: bool) -> (p: StepPlan)
    ensures
        match *action {
            StepAction::Script(s) => shell_plan(p, "sh"@, "-c"@, s.script, s.working_directory, s.fail_on_stderr),
            StepAction::Bash(s) => shell_plan(p, "bash"@, "-c"@, s.bash, s.working_directory, s.fail_on_stderr),
            StepAction::Pwsh(s) => shell_plan(p, "pwsh"@, "-Command"@, s.pwsh, s.working_directory, s.fail_on_stderr),
            StepAction::PowerShell(s) => shell_plan(
                p,
                if on_windows { "powershell.exe"@ } else { "pwsh"@ },
                "-Command"@,
                s.powershell,
                s.working_directory,
                s.fail_on_stderr,
            ),
            StepAction::Task(t) => p matches StepPlan::Task { task } && task == t.task,
            StepAction::Checkout(_) => finished_plan(
                p,
                StepStatus::Succeeded,
                "Checkout: Using existing working directory"@,
                Some(0i32),
            ),
            StepAction::Template(_) => finished_plan(
                p,
                StepStatus::Skipped,
                "Template step (should be expanded)"@,
                None,
            ),
            StepAction::Download(_) | StepAction::Publish(_) => finished_plan(
                p,
                StepStatus::Succeeded,
                "Artifact operation (placeholder)"@,
                Some(0i32),
            ),
            StepAction::GetPackage(_) | StepAction::ReviewApp(_) => finished_plan(
                p,
                StepStatus::Skipped,
                "Step type not implemented"@,
                None,
            ),
        },
{
    match action {
        StepAction::Script(s) => shell("sh", "-c", &s.script, &s.working_directory, s.fail_on_stderr),
        StepAction::Bash(s) => shell("bash", "-c", &s.bash, &s.working_directory, s.fail_on_stderr),
        StepAction::Pwsh(s) => shell("pwsh", "-Command", &s.pwsh, &s.working_directory, s.fail_on_stderr),
        StepAction::PowerShell(s) => {
            let program = if on_windows {
                "powershell.exe"
            } else {
                "pwsh"
            };
            shell(program, "-Command", &s.powershell, &s.working_directory, s.fail_on_stderr)
        },
        StepAction::Task(t) => StepPlan::Task { task: t.task.clone() },
        StepAction::Checkout(_) => finished(
            StepStatus::Succeeded,
            "Checkout: Using existing working directory",
            Some(0),
        ),
        StepAction::Template(_) => finished(StepStatus::Skipped, "Template step (should be expanded)", None),
        StepAction::Download(_) | StepAction::Publish(_) => finished(
            StepStatus::Succeeded,
            "Artifact operation (placeholder)",
            Some(0),
        ),
        StepAction::GetPackage(_) | StepAction::ReviewApp(_) => finished(
            StepStatus::Skipped,
            "Step type not implemented",
            None,
        ),
    }
}

/// The status of a finished shell command: failed if it exited
/// unsuccessfully, or wrote to standard error under `failOnStderr`.
pub fn shell_step_status(exited_ok: bool, fail_on_stderr: bool, stderr_empty: bool) -> (s: StepStatus)
    ensures
        s == if !exited_ok || (fail_on_stderr && !stderr_empty) {
            StepStatus::Failed
        } else {
            StepStatus::Succeeded
        },
{
    if !exited_ok {
        StepStatus::Failed
    } else if fail_on_stderr && !stderr_empty {
        StepStatus::Failed
    } else {
        StepStatus::Succeeded
    }
}


// ---------------------------------------------------------------------------
// Logging commands in a step's output
// ---------------------------------------------------------------------------

/// A `##vso[task.setvariable ...]value` command found in a step's output.
#[derive(Debug, Clone)]
pub struct SetVariable {
    pub name: String,
    pub value: String,
    pub is_output: bool,
    pub is_secret: bool,
}

/// What the `;`-separated properties of a set-variable command say: the
/// variable's name (the last `variable=` wins), and whether it is an output
/// and whether it is a secret.
pub open spec fn prop_flags(props: Seq<Seq<char>>) -> (Option<Seq<char>>, bool, bool)
    decreases props.len(),
{
    if props.len() == 0 {
        (None, false, false)
    } else {
        let (v, o, s) = prop_flags(props.drop_last());
        let p = trim(props.last());
        if starts_with(p, "variable="@) {
            (Some(p.subrange("variable="@.len() as int, p.len() as int)), o, s)
        } else if p == "isoutput=true"@ || p == "isOutput=true"@ {
            (v, true, s)
        } else if p == "issecret=true"@ || p == "isSecret=true"@ {
            (v, o, true)
        } else {
            (v, o, s)
        }
    }
}

/// The property `p` (trimmed) marks the variable an output.
pub open spec fn output_prop(p: Seq<char>) -> bool {
    trim(p) == "isoutput=true"@ || trim(p) == "isOutput=true"@
}

/// The property `p` (trimmed) marks the variable a secret.
pub open spec fn secret_prop(p: Seq<char>) -> bool {
    trim(p) == "issecret=true"@ || trim(p) == "isSecret=true"@
}

/// The property `p` (trimmed) names the variable.
pub open spec fn name_prop(p: Seq<char>) -> bool {
    starts_with(trim(p), "variable="@)
}

proof fn lemma_flag_props_do_not_name(p: Seq<char>)
    ensures
        output_prop(p) ==> !name_prop(p),
        secret_prop(p) ==> !name_prop(p),
        output_prop(p) ==> !secret_prop(p),
{
    reveal_strlit("variable=");
    reveal_strlit("isoutput=true");
    reveal_strlit("isOutput=true");
    reveal_strlit("issecret=true");
    reveal_strlit("isSecret=true");
    let t = trim(p);
    if name_prop(p) {
        assert(t.subrange(0, 9)[0] == 'v');
        assert(t[0] == 'v');
    }
    if output_prop(p) {
        assert(t[2] == 'o' || t[2] == 'O');
    }
}

/// What the properties of a set-variable command say: the variable is an
/// output exactly when some property reads `isoutput=true` or
/// `isOutput=true`, a secret exactly when some property reads
/// `issecret=true` or `isSecret=true`, and its name is what follows
/// `variable=` in the last property that names it (none without one).
pub proof fn lemma_set_variable_properties(props: Seq<Seq<char>>)
    ensures
        prop_flags(props).1 <==> exists|i: int| 0 <= i < props.len() && output_prop(#[trigger] props[i]),
        prop_flags(props).2 <==> exists|i: int| 0 <= i < props.len() && secret_prop(#[trigger] props[i]),
        prop_flags(props).0 is None <==> forall|i: int| 0 <= i < props.len() ==> !name_prop(#[trigger] props[i]),
        prop_flags(props).0 matches Some(n) ==> exists|i: int|
            0 <= i < props.len() && name_prop(#[trigger] props[i]) && n == trim(props[i]).subrange(
                9,
                trim(props[i]).len() as int,
            ) && forall|j: int| i < j < props.len() ==> !name_prop(#[trigger] props[j]),
    decreases props.len(),
{
    reveal_strlit("variable=");
    if props.len() > 0 {
        let rest = props.drop_last();
        lemma_set_variable_properties(rest);
        let last = props.last();
        lemma_flag_props_do_not_name(last);
        let li = props.len() - 1;
        assert(props[li] == last);
        assert forall|i: int| 0 <= i < rest.len() implies #[trigger] props[i] == rest[i] by {}
        if prop_flags(props).1 && !(exists|i: int| 0 <= i < rest.len() && output_prop(#[trigger] rest[i])) {
            assert(output_prop(props[li]));
        }
        if exists|i: int| 0 <= i < props.len() && output_prop(#[trigger] props[i]) {
            let i = choose|i: int| 0 <= i < props.len() && output_prop(#[trigger] props[i]);
            if i < li {
                assert(output_prop(rest[i]));
            }
        }
        if prop_flags(props).2 && !(exists|i: int| 0 <= i < rest.len() && secret_prop(#[trigger] rest[i])) {
            assert(secret_prop(props[li]));
        }
        if exists|i: int| 0 <= i < props.len() && secret_prop(#[trigger] props[i]) {
            let i = choose|i: int| 0 <= i < props.len() && secret_prop(#[trigger] props[i]);
            if i < li {
                assert(secret_prop(rest[i]));
            }
        }
        if name_prop(last) {
            assert(name_prop(props[li]));
        } else {
            if prop_flags(rest).0 is None {
                assert forall|i: int| 0 <= i < props.len() implies !name_prop(#[trigger] props[i]) by {
                    if i < li {
                        assert(!name_prop(rest[i]));
                    }
                }
            } else {
                let i = choose|i: int|
                    0 <= i < rest.len() && name_prop(#[trigger] rest[i]) && prop_flags(rest).0 == Some(
                        trim(rest[i]).subrange(9, trim(rest[i]).len() as int),
                    ) && forall|j: int| i < j < rest.len() ==> !name_prop(#[trigger] rest[j]);
                assert(name_prop(props[i]));
                assert forall|j: int| i < j < props.len() implies !name_prop(#[trigger] props[j]) by {
                    if j < li {
                        assert(!name_prop(rest[j]));
                    }
                }
            }
        }
    }
}

/// The set-variable command that an output line holds, if any: name, value,
/// output flag, secret flag.
pub open spec fn line_command(line: Seq<char>) -> Option<(Seq<char>, Seq<char>, bool, bool)> {
    let prefix = "##vso[task.setvariable"@;
    if starts_with(line, prefix) {
        let rest = line.subrange(prefix.len() as int, line.len() as int);
        match find(rest, "]"@) {
            Some(p) => {
                let props = rest.subrange(0, p);
                let value = rest.subrange(p + 1, rest.len() as int);
                let (v, o, s) = prop_flags(split(props, ";"@));
                match v {
                    Some(name) => Some((name, value, o, s)),
                    None => None,
                }
            },
            None => None,
        }
    } else {
        None
    }
}

/// A set-variable line read back: `##vso[task.setvariable <props>]<value>`,
/// with no `]` in the properties, holds the command that the properties
/// describe (see [`lemma_set_variable_properties`]) with exactly that value,
/// and none where no property names the variable.
pub proof fn lemma_set_variable_line(props: Seq<char>, value: Seq<char>)
    requires
        !props.contains(']'),
    ensures
        ({
            let (v, o, s) = prop_flags(split(props, ";"@));
            line_command("##vso[task.setvariable"@ + props + "]"@ + value) == match v {
                Some(n) => Some((n, value, o, s)),
                None => None,
            }
        }),
{
    reveal_strlit("]");
    let prefix = "##vso[task.setvariable"@;
    let line = prefix + props + "]"@ + value;
    let rest = props + "]"@ + value;
    assert(line == prefix + rest);
    crate::text::lemma_starts_with_prefix(prefix, rest, prefix, 0);
    assert(line.subrange(prefix.len() as int, line.len() as int) =~= rest);
    assert forall|k: int| 0 <= k < props.len() implies rest[k] != ']' by {
        assert(rest[k] == props[k]);
        if props[k] == ']' {
            assert(props.contains(']'));
        }
    }
    assert(rest[props.len() as int] == ']');
    crate::text::lemma_find_char(rest, ']', props.len() as int);
    assert("]"@ =~= seq![']']);
    assert(find(rest, "]"@) == Some(props.len() as int));
    assert(starts_with(line, prefix));
    assert(rest.subrange(0, props.len() as int) =~= props);
    assert(rest.subrange(props.len() as int + 1, rest.len() as int) =~= value);
}

/// The set-variable commands of a list of lines, in order.
pub open spec fn line_commands(ls: Seq<Seq<char>>) -> Seq<(Seq<char>, Seq<char>, bool, bool)>
    decreases ls.len(),
{
    if ls.len() == 0 {
        Seq::empty()
    } else {
        line_commands(ls.drop_last()) + match line_command(ls.last()) {
            Some(c) => seq![c],
            None => Seq::empty(),
        }
    }
}

impl SetVariable {
    pub open spec fn view(self) -> (Seq<char>, Seq<char>, bool, bool) {
        (self.name@, self.value@, self.is_output, self.is_secret)
    }
}

fn begins_with(v: &[char], lit: &str) -> (b: bool)
    ensures
        b == starts_with(v@, lit@),
{
    let p = chars_of(lit);
    let b = occurs_at_exec(v, p.as_slice(), 0);
    b
}

/// The set-variable command on one output line, if it holds one.
pub fn parse_logging_line(line: &str) -> (r: Option<SetVariable>)
    ensures
        match r {
            Some(c) => line_command(line@) == Some(c.view()),
            None => line_command(line@) is None,
        },
{
    let v = chars_of(line);
    if !begins_with(v.as_slice(), "##vso[task.setvariable") {
        return None;
    }
    proof {
        reveal_strlit("##vso[task.setvariable");
        reveal_strlit("]");
        reveal_strlit(";");
        reveal_strlit("variable=");
    }
    let rest = slice_chars(v.as_slice(), 22, v.len());
    let close = chars_of("]");
    let p = match find_exec(rest.as_slice(), close.as_slice()) {
        Some(p) => p,
        None => {
            return None;
        },
    };
    let props = string_from(slice_chars(rest.as_slice(), 0, p).as_slice());
    let value = string_from(slice_chars(rest.as_slice(), p + 1, rest.len()).as_slice());
    let pieces = split_str(props.as_str(), ";");
    let ghost pv = pieces@.map_values(|q: String| q@);
    let mut name: Option<String> = None;
    let mut is_output = false;
    let mut is_secret = false;
    let mut k: usize = 0;
    while k < pieces.len()
        invariant
            k <= pieces@.len(),
            pv == pieces@.map_values(|q: String| q@),
            prop_flags(pv.subrange(0, k as int)) == (
                match name {
                    Some(n) => Some(n@),
                    None => None::<Seq<char>>,
                },
                is_output,
                is_secret,
            ),
        decreases pieces@.len() - k,
    {
        let prop = trim_chars(chars_of(pieces[k].as_str()).as_slice());
        proof {
            reveal_strlit("variable=");
            let pre = pv.subrange(0, k + 1);
            assert(pre.drop_last() == pv.subrange(0, k as int));
            assert(pre.last() == pieces@[k as int]@);
        }
        if begins_with(prop.as_slice(), "variable=") {
            name = Some(string_from(slice_chars(prop.as_slice(), 9, prop.len()).as_slice()));
        } else if crate::text::chars_eq_str(prop.as_slice(), "isoutput=true")
            || crate::text::chars_eq_str(prop.as_slice(), "isOutput=true") {
            is_output = true;
        } else if crate::text::chars_eq_str(prop.as_slice(), "issecret=true")
            || crate::text::chars_eq_str(prop.as_slice(), "isSecret=true") {
            is_secret = true;
        }
        k = k + 1;
    }
    assert(pv.subrange(0, pieces@.len() as int) == pv);
    match name {
        Some(n) => Some(SetVariable { name: n, value, is_output, is_secret }),
        None => None,
    }
}

/// The set-variable commands in a step's output, line by line in order.
/// Those marked as outputs become the step's outputs; those not marked secret
/// set run variables.
pub fn parse_logging_commands(output: &str) -> (r: Vec<SetVariable>)
    ensures
        r@.map_values(|c: SetVariable| c.view()) == line_commands(lines(output@)),
{
    let ls = lines_of(output);
    let ghost lv = ls@.map_values(|l: String| l@);
    let mut out: Vec<SetVariable> = Vec::new();
    let mut i: usize = 0;
    while i < ls.len()
        invariant
            i <= ls@.len(),
            lv == ls@.map_values(|l: String| l@),
            lv == lines(output@),
            out@.map_values(|c: SetVariable| c.view()) == line_commands(lv.subrange(0, i as int)),
        decreases ls@.len() - i,
    {
        let ghost before = out@.map_values(|c: SetVariable| c.view());
        proof {
            let pre = lv.subrange(0, i + 1);
            assert(pre.drop_last() == lv.subrange(0, i as int));
            assert(pre.last() == ls@[i as int]@);
        }
        match parse_logging_line(ls[i].as_str()) {
            Some(c) => {
                out.push(c);
                assert(out@.map_values(|c: SetVariable| c.view()) == before.push(c.view()));
            },
            None => {
                assert(before + Seq::<(Seq<char>, Seq<char>, bool, bool)>::empty() == before);
            },
        }
        i = i + 1;
    }
    assert(lv.subrange(0, ls@.len() as int) == lv);
    out
}

} // verus!
