//! Events emitted while a pipeline runs, for progress reporting.

use vstd::prelude::*;
use std::time::Duration;
use crate::models::{JobStatus, StageStatus, StepStatus};

verus! {

broadcast use vstd::string::group_string_axioms;

/// Events emitted during pipeline execution
#[derive(Debug, Clone)]
pub enum ExecutionEvent {
    /// Pipeline execution started
    PipelineStarted {
        pipeline_name: String,
        total_stages: usize,
    },

    /// Pipeline execution completed
    PipelineCompleted {
        pipeline_name: String,
        success: bool,
        duration: Duration,
    },

    /// Stage execution started
    StageStarted {
        stage_name: String,
        display_name: Option<String>,
        total_jobs: usize,
    },

    /// Stage execution completed
    StageCompleted {
        stage_name: String,
        status: StageStatus,
        duration: Duration,
    },

    /// Stage was skipped (condition evaluated to false)
    StageSkipped { stage_name: String, reason: String },

    /// Job execution started
    JobStarted {
        stage_name: String,
        job_name: String,
        display_name: Option<String>,
        matrix_instance: Option<String>,
        total_steps: usize,
    },

    /// Job execution completed
    JobCompleted {
        stage_name: String,
        job_name: String,
        matrix_instance: Option<String>,
        status: JobStatus,
        duration: Duration,
    },

    /// Job was skipped (condition evaluated to false)
    JobSkipped {
        stage_name: String,
        job_name: String,
        reason: String,
    },

    /// Step execution started
    StepStarted {
        stage_name: String,
        job_name: String,
        step_name: Option<String>,
        display_name: Option<String>,
        step_index: usize,
    },

    /// Step output (stdout/stderr)
    StepOutput {
        stage_name: String,
        job_name: String,
        step_name: Option<String>,
        step_index: usize,
        output: String,
        is_error: bool,
    },

    /// Step execution completed
    StepCompleted {
        stage_name: String,
        job_name: String,
        step_name: Option<String>,
        step_index: usize,
        status: StepStatus,
        duration: Duration,
        exit_code: Option<i32>,
    },

    /// Step was skipped (condition evaluated to false or disabled)
    StepSkipped {
        stage_name: String,
        job_name: String,
        step_name: Option<String>,
        step_index: usize,
        reason: String,
    },

    /// Variable was set during execution
    VariableSet {
        stage_name: String,
        job_name: String,
        name: String,
        value: String,
        is_output: bool,
        is_secret: bool,
    },

    /// Log message (info, warning, error)
    Log {
        level: LogLevel,
        message: String,
        stage_name: Option<String>,
        job_name: Option<String>,
    },

    /// Execution error occurred
    Error {
        message: String,
        stage_name: Option<String>,
        job_name: Option<String>,
        step_index: Option<usize>,
    },
}

/// Log level for log events
#[derive(Debug, Clone, Copy, PartialEq, Eq, Structural)]
pub enum LogLevel {
    Debug,
    Info,
    Warning,
    Error,
}

impl ExecutionEvent {
    /// Create a pipeline started event
    pub fn pipeline_started(name: &str, total_stages: usize) -> (e: Self)
        ensures
            e matches ExecutionEvent::PipelineStarted { pipeline_name: n, total_stages: t }
                && n@ == name@ && t == total_stages,
    {
        ExecutionEvent::PipelineStarted { pipeline_name: String::from_str(name), total_stages }
    }

    /// Create a pipeline completed event
    pub fn pipeline_completed(name: &str, success: bool, duration: Duration) -> (e: Self)
        ensures
            e matches ExecutionEvent::PipelineCompleted { pipeline_name: n, success: s, duration: d }
                && n@ == name@ && s == success && d == duration,
    {
        ExecutionEvent::PipelineCompleted { pipeline_name: String::from_str(name), success, duration }
    }

    /// Create a stage started event
    pub fn stage_started(name: &str, display_name: Option<String>, total_jobs: usize) -> (e: Self)
        ensures
            e matches ExecutionEvent::StageStarted { stage_name: n, display_name: dn, total_jobs: t }
                && n@ == name@ && dn == display_name && t == total_jobs,
    {
        ExecutionEvent::StageStarted { stage_name: String::from_str(name), display_name, total_jobs }
    }

    /// Create a stage completed event
    pub fn stage_completed(name: &str, status: StageStatus, duration: Duration) -> (e: Self)
        ensures
            e matches ExecutionEvent::StageCompleted { stage_name: n, status: s, duration: d }
                && n@ == name@ && s == status && d == duration,
    {
        ExecutionEvent::StageCompleted { stage_name: String::from_str(name), status, duration }
    }

    /// Create a job started event
    pub fn job_started(
        stage_name: &str,
        job_name: &str,
        display_name: Option<String>,
        matrix_instance: Option<String>,
        total_steps: usize,
    ) -> (e: Self)
        ensures
            e matches ExecutionEvent::JobStarted {
                stage_name: s,
                job_name: j,
                display_name: dn,
                matrix_instance: m,
                total_steps: t,
            } && s@ == stage_name@ && j@ == job_name@ && dn == display_name && m == matrix_instance
                && t == total_steps,
    {
        ExecutionEvent::JobStarted {
            stage_name: String::from_str(stage_name),
            job_name: String::from_str(job_name),
            display_name,
            matrix_instance,
            total_steps,
        }
    }

    /// Create a job completed event
    pub fn job_completed(
        stage_name: &str,
        job_name: &str,
        matrix_instance: Option<String>,
        status: JobStatus,
        duration: Duration,
    ) -> (e: Self)
        ensures
            e matches ExecutionEvent::JobCompleted {
                stage_name: s,
                job_name: j,
                matrix_instance: m,
                status: st,
                duration: d,
            } && s@ == stage_name@ && j@ == job_name@ && m == matrix_instance && st == status && d
                == duration,
    {
        ExecutionEvent::JobCompleted {
            stage_name: String::from_str(stage_name),
            job_name: String::from_str(job_name),
            matrix_instance,
            status,
            duration,
        }
    }

    /// Create a step started event
    pub fn step_started(
        stage_name: &str,
        job_name: &str,
        step_name: Option<String>,
        display_name: Option<String>,
        step_index: usize,
    ) -> (e: Self)
        ensures
            e matches ExecutionEvent::StepStarted {
                stage_name: s,
                job_name: j,
                step_name: sn,
                display_name: dn,
                step_index: i,
            } && s@ == stage_name@ && j@ == job_name@ && sn == step_name && dn == display_name && i
                == step_index,
    {
        ExecutionEvent::StepStarted {
            stage_name: String::from_str(stage_name),
            job_name: String::from_str(job_name),
            step_name,
            display_name,
            step_index,
        }
    }

    /// Create a step output event
    pub fn step_output(
        stage_name: &str,
        job_name: &str,
        step_name: Option<String>,
        step_index: usize,
        output: &str,
        is_error: bool,
    ) -> (e: Self)
        ensures
            e matches ExecutionEvent::StepOutput {
                stage_name: s,
                job_name: j,
                step_name: sn,
                step_index: i,
                output: o,
                is_error: err,
            } && s@ == stage_name@ && j@ == job_name@ && sn == step_name && i == step_index && o@
                == output@ && err == is_error,
    {
        ExecutionEvent::StepOutput {
            stage_name: String::from_str(stage_name),
            job_name: String::from_str(job_name),
            step_name,
            step_index,
            output: String::from_str(output),
            is_error,
        }
    }

    /// Create a step completed event
    pub fn step_completed(
        stage_name: &str,
        job_name: &str,
        step_name: Option<String>,
        step_index: usize,
        status: StepStatus,
        duration: Duration,
        exit_code: Option<i32>,
    ) -> (e: Self)
        ensures
            e matches ExecutionEvent::StepCompleted {
                stage_name: s,
                job_name: j,
                step_name: sn,
                step_index: i,
                status: st,
                duration: d,
                exit_code: c,
            } && s@ == stage_name@ && j@ == job_name@ && sn == step_name && i == step_index && st
                == status && d == duration && c == exit_code,
    {
        ExecutionEvent::StepCompleted {
            stage_name: String::from_str(stage_name),
            job_name: String::from_str(job_name),
            step_name,
            step_index,
            status,
            duration,
            exit_code,
        }
    }

    /// A log event of the given level.
    fn log(level: LogLevel, message: &str, stage_name: Option<String>, job_name: Option<String>) -> (e:
        Self)
        ensures
            e matches ExecutionEvent::Log { level: l, message: m, stage_name: s, job_name: j } && l
                == level && m@ == message@ && s == stage_name && j == job_name,
    {
        ExecutionEvent::Log { level, message: String::from_str(message), stage_name, job_name }
    }

    /// Create an info log event
    pub fn info(message: &str, stage_name: Option<String>, job_name: Option<String>) -> (e: Self)
        ensures
            e matches ExecutionEvent::Log { level: l, message: m, stage_name: s, job_name: j } && l
                == LogLevel::Info && m@ == message@ && s == stage_name && j == job_name,
    {
        ExecutionEvent::log(LogLevel::Info, message, stage_name, job_name)
    }

    /// Create a warning log event
    pub fn warning(message: &str, stage_name: Option<String>, job_name: Option<String>) -> (e: Self)
        ensures
            e matches ExecutionEvent::Log { level: l, message: m, stage_name: s, job_name: j } && l
                == LogLevel::Warning && m@ == message@ && s == stage_name && j == job_name,
    {
        ExecutionEvent::log(LogLevel::Warning, message, stage_name, job_name)
    }

    /// Create an error log event
    pub fn error(message: &str, stage_name: Option<String>, job_name: Option<String>) -> (e: Self)
        ensures
            e matches ExecutionEvent::Log { level: l, message: m, stage_name: s, job_name: j } && l
                == LogLevel::Error && m@ == message@ && s == stage_name && j == job_name,
    {
        ExecutionEvent::log(LogLevel::Error, message, stage_name, job_name)
    }

    /// Create an execution error event
    pub fn execution_error(
        message: &str,
        stage_name: Option<String>,
        job_name: Option<String>,
        step_index: Option<usize>,
    ) -> (e: Self)
        ensures
            e matches ExecutionEvent::Error {
                message: m,
                stage_name: s,
                job_name: j,
                step_index: i,
            } && m@ == message@ && s == stage_name && j == job_name && i == step_index,
    {
        ExecutionEvent::Error { message: String::from_str(message), stage_name, job_name, step_index }
    }
}

/// Something that progress events can be sent to; sending never fails from
/// the sender's side (a closed receiver drops the event).
pub trait EventSender {
    fn send_event(&self, event: ExecutionEvent);
}

} // verus!
