//! The model of the simple pipeline format: a named pipeline of stages, jobs
//! and steps (or, in the older form, of steps alone), and its run results.

use vstd::prelude::*;
use std::collections::HashMap;
use std::time::Duration;

verus! {

broadcast use vstd::string::group_string_axioms;

#[derive(Debug, Clone)]
pub struct Pipeline {
    pub name: String,
    pub description: Option<String>,
    pub env: HashMap<String, String>,
    /// Older form: steps directly under the pipeline.
    pub steps: Vec<Step>,
    /// Stages-based structure.
    pub stages: Vec<Stage>,
}

#[derive(Debug, Clone)]
pub struct Stage {
    pub stage: String,
    pub display_name: Option<String>,
    pub depends_on: Vec<String>,
    pub condition: Option<String>,
    pub jobs: Vec<Job>,
}

#[derive(Debug, Clone)]
pub struct Job {
    pub job: String,
    pub display_name: Option<String>,
    pub depends_on: Vec<String>,
    pub condition: Option<String>,
    pub strategy: Option<Strategy>,
    pub pool: Option<Pool>,
    pub env: HashMap<String, String>,
    pub steps: Vec<Step>,
}

#[derive(Debug, Clone)]
pub struct Strategy {
    pub matrix: Option<HashMap<String, HashMap<String, String>>>,
    pub max_parallel: Option<usize>,
}

#[derive(Debug, Clone)]
pub struct Pool {
    pub name: Option<String>,
    pub vm_image: Option<String>,
}

#[derive(Debug, Clone)]
pub struct Step {
    pub name: String,
    pub action: StepAction,
    pub env: HashMap<String, String>,
    pub continue_on_error: bool,
}

#[derive(Debug, Clone)]
pub enum StepAction {
    Command(String),
    Shell { shell: Option<String>, script: String },
}

#[derive(Debug, Clone)]
pub struct StepResult {
    pub step_name: String,
    pub status: StepStatus,
    pub output: String,
    pub error: Option<String>,
    pub duration: Duration,
    pub exit_code: Option<i32>,
}

#[derive(Debug, Clone)]
pub struct JobResult {
    pub job_name: String,
    pub status: JobStatus,
    pub steps: Vec<StepResult>,
    pub duration: Duration,
}

#[derive(Debug, Clone)]
pub struct StageResult {
    pub stage_name: String,
    pub status: StageStatus,
    pub jobs: Vec<JobResult>,
    pub duration: Duration,
}

#[derive(Debug, Clone, Copy, PartialEq, Eq, Structural)]
pub enum JobStatus {
    Pending,
    Running,
    Success,
    Failed,
    Skipped,
}

#[derive(Debug, Clone, Copy, PartialEq, Eq, Structural)]
pub enum StageStatus {
    Pending,
    Running,
    Success,
    Failed,
    Skipped,
}

#[derive(Debug, Clone, Copy, PartialEq, Eq, Structural)]
pub enum StepStatus {
    Pending,
    Running,
    Success,
    Failed,
    Skipped,
}

#[derive(Debug, Clone)]
pub struct ExecutionContext {
    pub pipeline_name: String,
    pub env: HashMap<String, String>,
    pub working_dir: String,
    pub stage_name: Option<String>,
    pub job_name: Option<String>,
}

/// Progress events of a run of a simple-format pipeline.
#[derive(Debug, Clone)]
pub enum ExecutionEvent {
    PipelineStarted {
        name: String,
    },
    StageStarted {
        stage_name: String,
        stage_index: usize,
    },
    StageCompleted {
        result: StageResult,
        stage_index: usize,
    },
    JobStarted {
        job_name: String,
        job_index: usize,
    },
    JobCompleted {
        result: JobResult,
        job_index: usize,
    },
    StepStarted {
        step_name: String,
        step_index: usize,
    },
    StepOutput {
        step_name: String,
        output: String,
    },
    StepCompleted {
        result: StepResult,
        step_index: usize,
    },
    PipelineCompleted {
        success: bool,
        total_steps: usize,
        failed_steps: usize,
    },
}

impl ExecutionContext {
    pub fn new(pipeline_name: String, working_dir: String) -> (c: Self)
        ensures
            c.pipeline_name == pipeline_name,
            c.working_dir == working_dir,
            c.env@ == Map::<String, String>::empty(),
            c.stage_name is None,
            c.job_name is None,
    {
        ExecutionContext {
            pipeline_name,
            env: HashMap::new(),
            working_dir,
            stage_name: None,
            job_name: None,
        }
    }

    pub fn with_env(self, env: HashMap<String, String>) -> (c: Self)
        ensures
            c.env == env,
            c.pipeline_name == self.pipeline_name,
            c.working_dir == self.working_dir,
            c.stage_name == self.stage_name,
            c.job_name == self.job_name,
    {
        let mut c = self;
        c.env = env;
        c
    }

    pub fn with_stage(self, stage_name: String) -> (c: Self)
        ensures
            c.stage_name == Some(stage_name),
            c.pipeline_name == self.pipeline_name,
            c.working_dir == self.working_dir,
            c.env == self.env,
            c.job_name == self.job_name,
    {
        let mut c = self;
        c.stage_name = Some(stage_name);
        c
    }

    pub fn with_job(self, job_name: String) -> (c: Self)
        ensures
            c.job_name == Some(job_name),
            c.pipeline_name == self.pipeline_name,
            c.working_dir == self.working_dir,
            c.env == self.env,
            c.stage_name == self.stage_name,
    {
        let mut c = self;
        c.job_name = Some(job_name);
        c
    }
}

impl Pipeline {
    /// Older form: steps directly under the pipeline and no stages.
    pub open spec fn legacy(&self) -> bool {
        self.steps@.len() > 0 && self.stages@.len() == 0
    }

    /// Check if this is a legacy pipeline (direct steps) or new format (stages).
    pub fn is_legacy(&self) -> (b: bool)
        ensures
            b == self.legacy(),
    {
        self.steps.len() > 0 && self.stages.len() == 0
    }

    /// The pipeline in stages form: an older-form pipeline becomes one stage
    /// "default" holding one job "default" with all the steps; any other
    /// pipeline is returned as it is.
    pub fn to_stages_format(self) -> (p: Self)
        ensures
            !self.legacy() ==> p == self,
            self.legacy() ==> {
                &&& p.name == self.name
                &&& p.description == self.description
                &&& p.env == self.env
                &&& p.steps@.len() == 0
                &&& p.stages@.len() == 1
                &&& p.stages@[0].stage@ == "default"@
                &&& p.stages@[0].display_name matches Some(d) && d@ == "Default Stage"@
                &&& p.stages@[0].depends_on@.len() == 0
                &&& p.stages@[0].condition is None
                &&& p.stages@[0].jobs@.len() == 1
                &&& p.stages@[0].jobs@[0].job@ == "default"@
                &&& p.stages@[0].jobs@[0].display_name matches Some(d) && d@ == "Default Job"@
                &&& p.stages@[0].jobs@[0].depends_on@.len() == 0
                &&& p.stages@[0].jobs@[0].condition is None
                &&& p.stages@[0].jobs@[0].strategy is None
                &&& p.stages@[0].jobs@[0].pool is None
                &&& p.stages@[0].jobs@[0].env@ == Map::<String, String>::empty()
                &&& p.stages@[0].jobs@[0].steps == self.steps
            },
    {
        if !self.is_legacy() {
            return self;
        }
        let job = Job {
            job: String::from_str("default"),
            display_name: Some(String::from_str("Default Job")),
            depends_on: Vec::new(),
            condition: None,
            strategy: None,
            pool: None,
            env: HashMap::new(),
            steps: self.steps,
        };
        let mut jobs = Vec::new();
        jobs.push(job);
        let stage = Stage {
            stage: String::from_str("default"),
            display_name: Some(String::from_str("Default Stage")),
            depends_on: Vec::new(),
            condition: None,
            jobs,
        };
        let mut stages = Vec::new();
        stages.push(stage);
        Pipeline {
            name: self.name,
            description: self.description,
            env: self.env,
            steps: Vec::new(),
            stages,
        }
    }
}

} // verus!
