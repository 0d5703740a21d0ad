use pipeline_service::containers::{
    container_name, create_container_args, exec_args, fold_container_step,
    service_container_args, split_whitespace_str, ContainerRunner, ImagePullPolicy, PullPlan,
};
use pipeline_service::models::{ContainerRef, ContainerSpec, JobStatus, StepStatus};
use std::collections::HashMap;

#[test]
fn test_parse_container_ref_image() {
    let runner = ContainerRunner::new();
    let container = ContainerRef::Image("ubuntu:22.04".to_string());
    let spec = runner.parse_container_ref(&container).unwrap();

    assert_eq!(spec.image, "ubuntu:22.04");
    assert!(spec.env.is_empty());
}

#[test]
fn test_parse_container_ref_spec() {
    let runner = ContainerRunner::new();
    let mut env = HashMap::new();
    env.insert("MY_VAR".to_string(), "value".to_string());

    let container = ContainerRef::Spec(ContainerSpec {
        image: "node:18".to_string(),
        endpoint: None,
        env,
        ports: vec!["3000:3000".to_string()],
        volumes: vec!["/data:/data".to_string()],
        options: None,
        map_docker_socket: Some(true),
        mount_read_only: None,
    });

    let spec = runner.parse_container_ref(&container).unwrap();

    assert_eq!(spec.image, "node:18");
    assert_eq!(spec.env.get("MY_VAR"), Some(&"value".to_string()));
    assert!(spec.map_docker_socket.unwrap_or(false));
}

#[test]
fn default_runner_pulls_missing_images() {
    let runner = ContainerRunner::new();
    assert_eq!(runner.config().pull_policy, ImagePullPolicy::IfNotPresent);
    assert_eq!(runner.pull_plan(), PullPlan::PullIfMissing);
    assert!(runner.config().auto_remove);
}

#[test]
fn create_args_follow_the_spec() {
    let spec = ContainerSpec {
        image: "node:18".to_string(),
        endpoint: None,
        env: HashMap::new(),
        ports: vec!["3000:3000".to_string()],
        volumes: vec!["/data:/data".to_string()],
        options: Some("  --cpus 2   --rm ".to_string()),
        map_docker_socket: Some(true),
        mount_read_only: None,
    };
    let env = vec![("A".to_string(), "1".to_string())];
    let args = create_container_args("roxid-build-1", "/src", &env, &Vec::new(), &spec);
    let expected: Vec<String> = [
        "create", "--name", "roxid-build-1", "-w", "/workspace", "-v", "/src:/workspace", "-e",
        "A=1", "-v", "/data:/data", "-p", "3000:3000", "-v",
        "/var/run/docker.sock:/var/run/docker.sock", "--cpus", "2", "--rm", "node:18", "tail",
        "-f", "/dev/null",
    ]
    .iter()
    .map(|s| s.to_string())
    .collect();
    assert_eq!(args, expected);
}

#[test]
fn service_and_exec_args() {
    let spec = ContainerSpec {
        image: "redis".to_string(),
        endpoint: None,
        env: HashMap::new(),
        ports: vec!["6379:6379".to_string()],
        volumes: Vec::new(),
        options: None,
        map_docker_socket: None,
        mount_read_only: None,
    };
    let args = service_container_args("roxid-svc-cache-1", &Vec::new(), &vec![("K".to_string(), "V".to_string())], &spec);
    assert_eq!(args, vec!["run", "-d", "--name", "roxid-svc-cache-1", "-e", "K=V", "-p", "6379:6379", "redis"]);
    assert_eq!(exec_args("c1", "echo hi"), vec!["exec", "-w", "/workspace", "c1", "sh", "-c", "echo hi"]);
    assert_eq!(container_name("build", "abc"), "roxid-build-abc");
}

#[test]
fn whitespace_words() {
    assert_eq!(split_whitespace_str(" a  b\tc \n"), vec!["a", "b", "c"]);
    assert!(split_whitespace_str("   ").is_empty());
}

#[test]
fn containerised_job_status() {
    assert_eq!(fold_container_step(JobStatus::Succeeded, StepStatus::Failed, false), (JobStatus::Failed, false));
    assert_eq!(fold_container_step(JobStatus::Succeeded, StepStatus::Failed, true), (JobStatus::Failed, true));
    assert_eq!(
        fold_container_step(JobStatus::Succeeded, StepStatus::SucceededWithIssues, false),
        (JobStatus::SucceededWithIssues, true)
    );
}
