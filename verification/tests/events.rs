use pipeline_service::events::{ExecutionEvent, LogLevel};
use pipeline_service::models::JobStatus;
use std::time::Duration;

#[test]
fn test_event_construction() {
    let event = ExecutionEvent::job_completed(
        "Build",
        "Compile",
        Some("linux".to_string()),
        JobStatus::Succeeded,
        Duration::from_secs(30),
    );

    if let ExecutionEvent::JobCompleted {
        stage_name,
        job_name,
        matrix_instance,
        status,
        duration,
    } = event
    {
        assert_eq!(stage_name, "Build");
        assert_eq!(job_name, "Compile");
        assert_eq!(matrix_instance, Some("linux".to_string()));
        assert_eq!(status, JobStatus::Succeeded);
        assert_eq!(duration, Duration::from_secs(30));
    } else {
        panic!("wrong event type");
    }
}

#[test]
fn log_events_carry_their_level() {
    match ExecutionEvent::warning("careful", Some("Build".to_string()), None) {
        ExecutionEvent::Log { level, message, stage_name, job_name } => {
            assert_eq!(level, LogLevel::Warning);
            assert_eq!(message, "careful");
            assert_eq!(stage_name, Some("Build".to_string()));
            assert_eq!(job_name, None);
        }
        _ => panic!("wrong event type"),
    }
    assert!(matches!(
        ExecutionEvent::error("x", None, None),
        ExecutionEvent::Log { level: LogLevel::Error, .. }
    ));
    assert!(matches!(
        ExecutionEvent::info("x", None, None),
        ExecutionEvent::Log { level: LogLevel::Info, .. }
    ));
}

#[test]
fn pipeline_started_counts_stages() {
    match ExecutionEvent::pipeline_started("test", 2) {
        ExecutionEvent::PipelineStarted { pipeline_name, total_stages } => {
            assert_eq!(pipeline_name, "test");
            assert_eq!(total_stages, 2);
        }
        _ => panic!("wrong event type"),
    }
}
