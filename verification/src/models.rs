//! The Azure DevOps pipeline model: triggers, resources, variables,
//! parameters, pools, stages, jobs, steps and the run results, as plain data.

use vstd::prelude::*;
use std::collections::HashMap;
use std::time::Duration;
use crate::expansion::YamlNode;
use crate::model_copy::{copy_job, copy_stage, same_job, same_stage};
use crate::text::{chars_of, starts_with, ws_forward, is_whitespace};

verus! {

broadcast use vstd::string::group_string_axioms;

/// A YAML value as the YAML library represents it, carried through opaquely.
#[verifier::external_type_specification]
#[verifier::external_body]
pub struct ExYamlValue(serde_yaml::Value);

/// `Duration` is `Copy`: cloning it gives the same duration.
pub assume_specification[ <Duration as Clone>::clone ](d: &Duration) -> (r: Duration)
    ensures
        r == *d,
;

/// A value that can be either a boolean literal or a runtime expression string.
/// Azure DevOps allows fields like `continueOnError` to use runtime expressions
/// such as `$[eq(variables.rustToolchain, 'nightly')]`.
#[derive(Debug, Clone)]
pub enum BoolOrExpression {
    Bool(bool),
    Expression(String),
}



/// Root pipeline structure supporting all Azure DevOps formats
#[derive(Debug, Clone, Default)]
pub struct Pipeline {
    /// Pipeline name
    pub name: Option<String>,

    /// CI trigger configuration
    pub trigger: Option<Trigger>,

    /// PR trigger configuration
    pub pr: Option<PrTrigger>,

    /// Scheduled triggers
    pub schedules: Option<Vec<Schedule>>,

    /// Resource definitions (repositories, containers, pipelines, packages)
    pub resources: Option<Resources>,

    /// Pipeline-level variables
    pub variables: Vec<Variable>,

    /// Pipeline parameters (template inputs)
    pub parameters: Vec<Parameter>,

    /// Full pipeline structure with stages
    pub stages: Vec<Stage>,

    /// Shorthand: jobs without stages
    pub jobs: Vec<Job>,

    /// Shorthand: steps without stages/jobs
    pub steps: Vec<Step>,

    /// Default pool for all jobs
    pub pool: Option<Pool>,

    /// Template extension
    pub extends: Option<Extends>,

    /// Lock behavior for resources
    pub lock_behavior: Option<LockBehavior>,

    /// Whether stages/jobs/steps lists contained compile-time template directives
    /// (${{ if }}, ${{ each }}) that were dropped during deserialization.
    pub has_template_directives: bool,
}

// =============================================================================
// Triggers
// =============================================================================

/// CI trigger configuration
#[derive(Debug, Clone)]
pub enum Trigger {
    /// Simple: trigger: none
    Disabled,
    /// Branches list
    Branches(Vec<String>),
    /// Full configuration
    Full(TriggerConfig),
}

#[derive(Debug, Clone, Default)]
pub struct TriggerConfig {
    pub batch: Option<bool>,
    pub branches: Option<BranchFilter>,
    pub paths: Option<PathFilter>,
    pub tags: Option<TagFilter>,
}

#[derive(Debug, Clone, Default)]
pub struct BranchFilter {
    pub included: Vec<String>,
    pub exclude: Vec<String>,
}

#[derive(Debug, Clone, Default)]
pub struct PathFilter {
    pub included: Vec<String>,
    pub exclude: Vec<String>,
}

#[derive(Debug, Clone, Default)]
pub struct TagFilter {
    pub included: Vec<String>,
    pub exclude: Vec<String>,
}

/// PR trigger configuration
#[derive(Debug, Clone)]
pub enum PrTrigger {
    /// Simple: pr: none
    Disabled,
    /// Branches list
    Branches(Vec<String>),
    /// Full configuration
    Full(PrTriggerConfig),
}

#[derive(Debug, Clone, Default)]
pub struct PrTriggerConfig {
    pub auto_cancel: Option<bool>,
    pub branches: Option<BranchFilter>,
    pub paths: Option<PathFilter>,
    pub drafts: Option<bool>,
}

/// Scheduled trigger
#[derive(Debug, Clone)]
pub struct Schedule {
    pub cron: String,
    pub display_name: Option<String>,
    pub branches: Option<BranchFilter>,
    pub always: bool,
    pub batch: bool,
}



// =============================================================================
// Resources
// =============================================================================

#[derive(Debug, Clone, Default)]
pub struct Resources {
    pub repositories: Vec<RepositoryResource>,
    pub containers: Vec<ContainerResource>,
    pub pipelines: Vec<PipelineResource>,
    pub packages: Vec<PackageResource>,
    pub webhooks: Vec<WebhookResource>,
}

#[derive(Debug, Clone)]
pub struct RepositoryResource {
    pub repository: String,
    pub repo_type: Option<String>,
    pub name: Option<String>,
    pub git_ref: Option<String>,
    pub endpoint: Option<String>,
    pub trigger: Option<Trigger>,
}

#[derive(Debug, Clone)]
pub struct ContainerResource {
    pub container: String,
    pub image: String,
    pub endpoint: Option<String>,
    pub env: HashMap<String, String>,
    pub ports: Vec<String>,
    pub volumes: Vec<String>,
    pub options: Option<String>,
    pub map_docker_socket: Option<bool>,
}

#[derive(Debug, Clone)]
pub struct PipelineResource {
    pub pipeline: String,
    pub source: String,
    pub project: Option<String>,
    pub trigger: Option<PipelineResourceTrigger>,
    pub version: Option<String>,
    pub branch: Option<String>,
    pub tags: Option<Vec<String>>,
}

#[derive(Debug, Clone)]
pub struct PipelineResourceTrigger {
    pub enabled: Option<bool>,
    pub branches: Option<BranchFilter>,
    pub stages: Option<Vec<String>>,
    pub tags: Option<Vec<String>>,
}

#[derive(Debug, Clone)]
pub struct PackageResource {
    pub package: String,
    pub package_type: String,
    pub connection: String,
    pub name: String,
    pub version: Option<String>,
    pub tag: Option<String>,
    pub trigger: Option<bool>,
}

#[derive(Debug, Clone)]
pub struct WebhookResource {
    pub webhook: String,
    pub connection: String,
    pub webhook_type: Option<String>,
    pub filters: Option<Vec<WebhookFilter>>,
}

#[derive(Debug, Clone)]
pub struct WebhookFilter {
    pub path: String,
    pub value: String,
}

// =============================================================================
// Variables
// =============================================================================

/// Variable can be a simple key-value, a group reference, or a template
#[derive(Debug, Clone)]
pub enum Variable {
    /// Simple variable: { name: foo, value: bar }
    KeyValue {
        name: String,
        value: String,
        readonly: bool,
    },
    /// Variable group reference: { group: my-group }
    Group { group: String },
    /// Template reference: { template: vars.yml }
    Template {
        template: String,
        parameters: Vec<(String, YamlNode)>,
    },
}


// =============================================================================
// Parameters
// =============================================================================

#[derive(Debug, Clone)]
pub struct Parameter {
    pub name: String,
    pub display_name: Option<String>,
    pub param_type: ParameterType,
    pub default: Option<YamlNode>,
    pub values: Option<Vec<YamlNode>>,
}

#[derive(Debug, Clone, Default)]
pub enum ParameterType {
    #[default]
    String,
    Number,
    Boolean,
    Object,
    Step,
    StepList,
    Job,
    JobList,
    Stage,
    StageList,
}

// =============================================================================
// Pool
// =============================================================================

#[derive(Debug, Clone)]
pub enum Pool {
    /// Named pool: pool: my-pool
    Name(String),
    /// Full pool spec
    Full(PoolSpec),
}

#[derive(Debug, Clone)]
pub struct PoolSpec {
    pub name: Option<String>,
    pub vm_image: Option<String>,
    pub demands: Option<PoolDemands>,
}

#[derive(Debug, Clone)]
pub enum PoolDemands {
    List(Vec<String>),
    Pairs(HashMap<String, String>),
}

// =============================================================================
// Stage
// =============================================================================

#[derive(Debug, Default)]
pub struct Stage {
    /// Stage identifier
    pub stage: Option<String>,

    /// Display name in UI
    pub display_name: Option<String>,

    /// Dependency on other stages
    pub depends_on: DependsOn,

    /// Condition for running this stage
    pub condition: Option<String>,

    /// Stage-level variables
    pub variables: Vec<Variable>,

    /// Jobs in this stage
    pub jobs: Vec<Job>,

    /// Lock behavior
    pub lock_behavior: Option<LockBehavior>,

    /// Template reference
    pub template: Option<String>,

    /// Template parameters
    pub parameters: Vec<(String, YamlNode)>,

    /// Pool override for all jobs
    pub pool: Option<Pool>,

    /// Whether the jobs list contained compile-time template directives
    /// (${{ if }}, ${{ each }}) that were dropped during deserialization.
    /// When true, the validator should not require jobs to be non-empty.
    pub has_template_directives: bool,
}

// =============================================================================
// Job
// =============================================================================

#[derive(Debug, Default)]
pub struct Job {
    /// Job identifier (mutually exclusive with deployment)
    pub job: Option<String>,

    /// Deployment job identifier
    pub deployment: Option<String>,

    /// Display name in UI
    pub display_name: Option<String>,

    /// Dependency on other jobs
    pub depends_on: DependsOn,

    /// Condition for running this job
    pub condition: Option<String>,

    /// Execution strategy (matrix, parallel)
    pub strategy: Option<Strategy>,

    /// Agent pool for this job
    pub pool: Option<Pool>,

    /// Container to run the job in
    pub container: Option<ContainerRef>,

    /// Service containers
    pub services: HashMap<String, ContainerRef>,

    /// Job-level variables
    pub variables: Vec<Variable>,

    /// Steps to execute
    pub steps: Vec<Step>,

    /// Job timeout
    pub timeout_in_minutes: Option<u32>,

    /// Cancel timeout
    pub cancel_timeout_in_minutes: Option<u32>,

    /// Continue pipeline on error
    pub continue_on_error: BoolOrExpression,

    /// Workspace settings
    pub workspace: Option<Workspace>,

    /// Uses statement (template reference)
    pub uses: Option<UsesSpec>,

    /// Template reference
    pub template: Option<String>,

    /// Template parameters
    pub parameters: Vec<(String, YamlNode)>,

    /// Deployment environment (for deployment jobs)
    pub environment: Option<Environment>,

    /// Whether the steps list contained compile-time template directives
    /// (${{ if }}, ${{ each }}) that were dropped during deserialization.
    /// When true, the validator should not require steps to be non-empty.
    pub has_template_directives: bool,
}



#[derive(Debug, Clone)]
pub enum ContainerRef {
    /// Simple image reference
    Image(String),
    /// Full container spec
    Spec(ContainerSpec),
}

#[derive(Debug, Clone)]
pub struct ContainerSpec {
    pub image: String,
    pub endpoint: Option<String>,
    pub env: HashMap<String, String>,
    pub ports: Vec<String>,
    pub volumes: Vec<String>,
    pub options: Option<String>,
    pub map_docker_socket: Option<bool>,
    pub mount_read_only: Option<MountReadOnly>,
}

#[derive(Debug, Clone, Default)]
pub struct MountReadOnly {
    pub work: Option<bool>,
    pub externals: Option<bool>,
    pub tools: Option<bool>,
    pub tasks: Option<bool>,
}

#[derive(Debug, Clone)]
pub struct Workspace {
    pub clean: Option<WorkspaceClean>,
}

#[derive(Debug, Clone)]
pub enum WorkspaceClean {
    Outputs,
    Resources,
    All,
}

#[derive(Debug, Clone)]
pub struct UsesSpec {
    pub repositories: Option<Vec<String>>,
    pub pools: Option<Vec<String>>,
}

#[derive(Debug, Clone)]
pub enum Environment {
    Name(String),
    Full(EnvironmentSpec),
}

#[derive(Debug, Clone)]
pub struct EnvironmentSpec {
    pub name: String,
    pub resource_name: Option<String>,
    pub resource_id: Option<u64>,
    pub resource_type: Option<String>,
    pub tags: Option<Vec<String>>,
}

// =============================================================================
// Strategy
// =============================================================================

#[derive(Debug, Clone)]
pub struct Strategy {
    /// Matrix strategy
    pub matrix: Option<MatrixStrategy>,

    /// Parallel jobs count
    pub parallel: Option<u32>,

    /// Maximum parallel jobs
    pub max_parallel: Option<u32>,

    /// Deployment strategy (runOnce, rolling, canary)
    pub run_once: Option<DeploymentHooks>,
    pub rolling: Option<RollingStrategy>,
    pub canary: Option<CanaryStrategy>,
}

#[derive(Debug, Clone)]
pub enum MatrixStrategy {
    /// Inline matrix definition
    Inline(HashMap<String, HashMap<String, serde_yaml::Value>>),
    /// Expression reference
    Expression(String),
}

#[derive(Debug, Clone)]
pub struct DeploymentHooks {
    pub pre_deploy: Option<HookSteps>,
    pub deploy: Option<HookSteps>,
    pub route_traffic: Option<HookSteps>,
    pub post_route_traffic: Option<HookSteps>,
    pub on_failure: Option<HookSteps>,
    pub on_success: Option<HookSteps>,
}

#[derive(Debug, Clone)]
pub struct HookSteps {
    pub pool: Option<Pool>,
    pub steps: Vec<Step>,
}

#[derive(Debug, Clone)]
pub struct RollingStrategy {
    pub max_parallel: Option<u32>,
    pub hooks: DeploymentHooks,
}

#[derive(Debug, Clone)]
pub struct CanaryStrategy {
    pub increments: Vec<u32>,
    pub hooks: DeploymentHooks,
}

// =============================================================================
// DependsOn
// =============================================================================

#[derive(Debug, Clone, Default)]
pub enum DependsOn {
    /// No dependencies (default: depends on previous)
    #[default]
    Default,
    /// Explicitly no dependencies
    Nothing,
    /// Single dependency
    Single(String),
    /// Multiple dependencies
    Multiple(Vec<String>),
}



// =============================================================================
// Step
// =============================================================================

#[derive(Debug, Clone)]
pub struct Step {
    /// Step name for output references
    pub name: Option<String>,

    /// Display name in UI
    pub display_name: Option<String>,

    /// Condition for running this step
    pub condition: Option<String>,

    /// Continue job on step failure
    pub continue_on_error: BoolOrExpression,

    /// Enable/disable step
    pub enabled: bool,

    /// Step timeout
    pub timeout_in_minutes: Option<u32>,

    /// Retry count on failure
    pub retry_count_on_task_failure: Option<u32>,

    /// Step-level environment variables
    pub env: Vec<(String, String)>,

    /// The action to perform (flattened from different step types)
    pub action: StepAction,
}

/// The specific action a step performs
#[derive(Debug, Clone)]
pub enum StepAction {
    /// Script step: - script: echo hello
    Script(ScriptStep),
    /// Bash step: - bash: echo hello
    Bash(BashStep),
    /// PowerShell Core step: - pwsh: Write-Host hello
    Pwsh(PwshStep),
    /// Windows PowerShell step: - powershell: Write-Host hello
    PowerShell(PowerShellStep),
    /// Checkout step: - checkout: self
    Checkout(CheckoutStep),
    /// Task step: - task: Bash@3
    Task(TaskStep),
    /// Template step: - template: steps.yml
    Template(TemplateStep),
    /// Download step: - download: current
    Download(DownloadStep),
    /// Publish step: - publish: $(Build.ArtifactStagingDirectory)
    Publish(PublishStep),
    /// Get package step
    GetPackage(GetPackageStep),
    /// Review app step (deployment)
    ReviewApp(ReviewAppStep),
}

#[derive(Debug, Clone)]
pub struct ScriptStep {
    pub script: String,
    pub working_directory: Option<String>,
    pub fail_on_stderr: bool,
}

#[derive(Debug, Clone)]
pub struct BashStep {
    pub bash: String,
    pub working_directory: Option<String>,
    pub fail_on_stderr: bool,
}

#[derive(Debug, Clone)]
pub struct PwshStep {
    pub pwsh: String,
    pub working_directory: Option<String>,
    pub fail_on_stderr: bool,
    pub error_action_preference: Option<String>,
}

#[derive(Debug, Clone)]
pub struct PowerShellStep {
    pub powershell: String,
    pub working_directory: Option<String>,
    pub fail_on_stderr: bool,
    pub error_action_preference: Option<String>,
}

#[derive(Debug, Clone)]
pub struct CheckoutStep {
    pub checkout: CheckoutSource,
    pub clean: bool,
    pub fetch_depth: Option<u32>,
    pub fetch_tags: Option<bool>,
    pub lfs: bool,
    pub submodules: SubmoduleOption,
    pub path: Option<String>,
    pub persistent_credentials: Option<bool>,
}

#[derive(Debug, Clone)]
pub enum CheckoutSource {
    /// checkout: self
    SelfRepo(CheckoutSelf),
    /// checkout: none
    Disabled(CheckoutNone),
    /// checkout: repository-name
    Repository(String),
}

#[derive(Debug, Clone)]
pub enum CheckoutSelf {
    SelfRepo,
}

#[derive(Debug, Clone)]
pub enum CheckoutNone {
    Disabled,
}

#[derive(Debug, Clone, Default)]
pub enum SubmoduleOption {
    #[default]
    False,
    True,
    Recursive,
}

#[derive(Debug, Clone)]
pub struct TaskStep {
    pub task: String,
    pub inputs: Vec<(String, String)>,
}

#[derive(Debug, Clone)]
pub struct TemplateStep {
    pub template: String,
    pub parameters: Vec<(String, YamlNode)>,
}

#[derive(Debug, Clone)]
pub struct DownloadStep {
    pub download: DownloadSource,
    pub artifact: Option<String>,
    pub patterns: Option<String>,
    pub path: Option<String>,
}

#[derive(Debug, Clone)]
pub enum DownloadSource {
    Current(DownloadCurrent),
    Disabled(DownloadNone),
    Pipeline(String),
}

#[derive(Debug, Clone)]
pub enum DownloadCurrent {
    Current,
}

#[derive(Debug, Clone)]
pub enum DownloadNone {
    Disabled,
}

#[derive(Debug, Clone)]
pub struct PublishStep {
    pub publish: String,
    pub artifact: Option<String>,
}

#[derive(Debug, Clone)]
pub struct GetPackageStep {
    pub get_package: String,
    pub path: Option<String>,
}

#[derive(Debug, Clone)]
pub struct ReviewAppStep {
    pub review_app: String,
}

// =============================================================================
// Extends
// =============================================================================

#[derive(Debug, Clone)]
pub struct Extends {
    pub template: String,
    pub parameters: Vec<(String, YamlNode)>,
}

// =============================================================================
// Lock Behavior
// =============================================================================

#[derive(Debug, Clone)]
pub enum LockBehavior {
    RunLatest,
    Sequential,
}

// =============================================================================
// Execution Results (for runtime)
// =============================================================================

#[derive(Debug, Clone)]
pub struct StepResult {
    pub step_name: Option<String>,
    pub display_name: Option<String>,
    pub status: StepStatus,
    pub output: String,
    pub error: Option<String>,
    pub duration: Duration,
    pub exit_code: Option<i32>,
    pub outputs: HashMap<String, String>,
}

#[derive(Debug, Clone, Copy, PartialEq, Eq, Structural)]
pub enum StepStatus {
    Pending,
    Running,
    Succeeded,
    SucceededWithIssues,
    Failed,
    Canceled,
    Skipped,
}

#[derive(Debug, Clone)]
pub struct JobResult {
    pub job_name: String,
    pub display_name: Option<String>,
    pub status: JobStatus,
    pub steps: Vec<StepResult>,
    pub duration: Duration,
    pub outputs: HashMap<String, String>,
}

#[derive(Debug, Clone, Copy, PartialEq, Eq, Structural)]
pub enum JobStatus {
    Pending,
    Running,
    Succeeded,
    SucceededWithIssues,
    Failed,
    Canceled,
    Skipped,
}

#[derive(Debug, Clone)]
pub struct StageResult {
    pub stage_name: String,
    pub display_name: Option<String>,
    pub status: StageStatus,
    pub jobs: Vec<JobResult>,
    pub duration: Duration,
}

#[derive(Debug, Clone, Copy, PartialEq, Eq, Structural)]
pub enum StageStatus {
    Pending,
    Running,
    Succeeded,
    SucceededWithIssues,
    Failed,
    Canceled,
    Skipped,
}


// =============================================================================
// Behaviour of the model types
// =============================================================================

impl Default for BoolOrExpression {
    fn default() -> (r: Self)
        ensures
            r == BoolOrExpression::Bool(false),
    {
        BoolOrExpression::Bool(false)
    }
}

impl BoolOrExpression {
    /// Returns the boolean value if this is a literal bool, or false for
    /// expressions (expressions must be evaluated at runtime).
    pub fn as_bool(&self) -> (b: bool)
        ensures
            b == match self {
                BoolOrExpression::Bool(v) => *v,
                BoolOrExpression::Expression(_) => false,
            },
    {
        match self {
            BoolOrExpression::Bool(b) => *b,
            BoolOrExpression::Expression(_) => false,
        }
    }
}

/// The value a missing `enabled`/`always` flag takes.
pub fn default_true() -> (b: bool)
    ensures
        b,
{
    true
}

impl Job {
    /// Returns the job identifier (either job or deployment name).
    pub fn identifier(&self) -> (r: Option<&str>)
        ensures
            match self.job {
                Some(j) => r matches Some(s) && s@ == j@,
                None => match self.deployment {
                    Some(d) => r matches Some(s) && s@ == d@,
                    None => r is None,
                },
            },
    {
        match &self.job {
            Some(j) => Some(j.as_str()),
            None => match &self.deployment {
                Some(d) => Some(d.as_str()),
                None => None,
            },
        }
    }
}

impl DependsOn {
    /// The names listed, in order: none for the default and for an explicit
    /// `none`.
    pub open spec fn names(self) -> Seq<String> {
        match self {
            DependsOn::Default => Seq::empty(),
            DependsOn::Nothing => Seq::empty(),
            DependsOn::Single(s) => seq![s],
            DependsOn::Multiple(v) => v@,
        }
    }

    pub fn as_vec(&self) -> (r: Vec<String>)
        ensures
            r@ == self.names(),
    {
        match self {
            DependsOn::Default => Vec::new(),
            DependsOn::Nothing => Vec::new(),
            DependsOn::Single(s) => {
                let mut r = Vec::new();
                r.push(s.clone());
                r
            },
            DependsOn::Multiple(v) => {
                let mut r: Vec<String> = Vec::new();
                let mut i: usize = 0;
                while i < v.len()
                    invariant
                        i <= v@.len(),
                        r@ == v@.subrange(0, i as int),
                    decreases v@.len() - i,
                {
                    r.push(v[i].clone());
                    assert(v@.subrange(0, i + 1) == v@.subrange(0, i as int).push(v@[i as int]));
                    i = i + 1;
                }
                assert(v@.subrange(0, v@.len() as int) == v@);
                r
            },
        }
    }

    pub fn is_explicit_none(&self) -> (b: bool)
        ensures
            b == (self is Nothing),
    {
        match self {
            DependsOn::Nothing => true,
            _ => false,
        }
    }
}

/// Whether a mapping key marks a compile-time template directive: after
/// leading whitespace it begins with `${{`.
pub open spec fn directive_key(key: Seq<char>) -> bool {
    starts_with(key.subrange(ws_forward(key, 0), key.len() as int), "${{"@)
}

proof fn lemma_ws_forward_bounds(s: Seq<char>, i: int)
    requires
        0 <= i <= s.len(),
    ensures
        i <= ws_forward(s, i) <= s.len(),
    decreases s.len() - i,
{
    if i < s.len() && crate::text::char_is_whitespace(s[i]) {
        lemma_ws_forward_bounds(s, i + 1);
    }
}

/// Whether a mapping key marks a compile-time template directive.
pub fn is_directive_key(key: &str) -> (b: bool)
    ensures
        b == directive_key(key@),
{
    let v = chars_of(key);
    let mut a: usize = 0;
    while a < v.len() && is_whitespace(v[a])
        invariant
            a <= v@.len(),
            ws_forward(v@, 0) == ws_forward(v@, a as int),
        decreases v@.len() - a,
    {
        a = a + 1;
    }
    proof {
        lemma_ws_forward_bounds(v@, a as int);
    }
    let rest = crate::text::slice_chars(v.as_slice(), a, v.len());
    let p = chars_of("${{");
    crate::text::occurs_at_exec(rest.as_slice(), p.as_slice(), 0)
}

/// Whether a mapping key (`None` for one that is not a string) marks a
/// template directive.
pub open spec fn key_marks_directive(key: Option<String>) -> bool {
    match key {
        Some(k) => directive_key(k@),
        None => false,
    }
}

/// Whether any of the keys of a mapping (`None` for a key that is not a
/// string) marks a template directive.
pub fn keys_mark_directive(keys: &Vec<Option<String>>) -> (b: bool)
    ensures
        b == exists|i: int| 0 <= i < keys@.len() && key_marks_directive(#[trigger] keys@[i]),
{
    let mut i: usize = 0;
    while i < keys.len()
        invariant
            i <= keys@.len(),
            forall|j: int| 0 <= j < i ==> !key_marks_directive(#[trigger] keys@[j]),
        decreases keys@.len() - i,
    {
        match &keys[i] {
            Some(k) => {
                if is_directive_key(k.as_str()) {
                    return true;
                }
            },
            None => {},
        }
        i = i + 1;
    }
    false
}

/// The keys of a YAML value that is a mapping, in order, each as its
/// characters where it is a string and `None` where it is not; `None` for a
/// value that is not a mapping.
pub uninterp spec fn mapping_keys(value: serde_yaml::Value) -> Option<Seq<Option<Seq<char>>>>;

/// Keys as their characters.
pub open spec fn keys_view(keys: Seq<Option<String>>) -> Seq<Option<Seq<char>>> {
    keys.map_values(|k: Option<String>| match k {
        Some(s) => Some(s@),
        None => None,
    })
}

/// Whether a key, as characters, marks a template directive.
pub open spec fn key_view_marks_directive(key: Option<Seq<char>>) -> bool {
    match key {
        Some(k) => directive_key(k),
        None => false,
    }
}

/// `Value::as_mapping` and the mapping's keys, each read with
/// `Value::as_str`: the keys named `mapping_keys`, or `None` for a value
/// that is not a mapping.
#[verifier::external_body]
fn yaml_mapping_keys(value: &serde_yaml::Value) -> (r: Option<Vec<Option<String>>>)
    ensures
        match r {
            Some(ks) => mapping_keys(*value) == Some(keys_view(ks@)),
            None => mapping_keys(*value) is None,
        },
{
    match value.as_mapping() {
        Some(mapping) => Some(mapping.keys().map(|k| k.as_str().map(|s| s.to_string())).collect()),
        None => None,
    }
}

/// Whether a YAML value is a compile-time template directive: a mapping with
/// a key that starts with `${{`.
pub fn is_template_directive(value: &serde_yaml::Value) -> (b: bool)
    ensures
        b == match mapping_keys(*value) {
            Some(ks) => exists|i: int| 0 <= i < ks.len() && key_view_marks_directive(#[trigger] ks[i]),
            None => false,
        },
{
    match yaml_mapping_keys(value) {
        Some(keys) => {
            let b = keys_mark_directive(&keys);
            proof {
                let kv = keys_view(keys@);
                assert forall|i: int| 0 <= i < keys@.len() implies key_view_marks_directive(#[trigger] kv[i])
                    == key_marks_directive(keys@[i]) by {}
                if b {
                    let i = choose|i: int| 0 <= i < keys@.len() && key_marks_directive(#[trigger] keys@[i]);
                    assert(key_view_marks_directive(kv[i]));
                }
            }
            b
        },
        None => false,
    }
}

/// Runtime context of a pipeline run.
#[derive(Debug, Clone)]
pub struct ExecutionContext {
    pub pipeline_name: String,
    pub env: HashMap<String, String>,
    pub working_dir: String,
    pub variables: HashMap<String, String>,
    pub parameters: HashMap<String, serde_yaml::Value>,
}

impl ExecutionContext {
    pub fn new(pipeline_name: String, working_dir: String) -> (c: Self)
        ensures
            c.pipeline_name == pipeline_name,
            c.working_dir == working_dir,
            c.env@ == Map::<String, String>::empty(),
            c.variables@ == Map::<String, String>::empty(),
            c.parameters@ == Map::<String, serde_yaml::Value>::empty(),
    {
        ExecutionContext {
            pipeline_name,
            env: HashMap::new(),
            working_dir,
            variables: HashMap::new(),
            parameters: HashMap::new(),
        }
    }

    pub fn with_env(self, env: HashMap<String, String>) -> (c: Self)
        ensures
            c.env == env,
            c.pipeline_name == self.pipeline_name,
            c.working_dir == self.working_dir,
            c.variables == self.variables,
            c.parameters == self.parameters,
    {
        let mut c = self;
        c.env = env;
        c
    }

    pub fn with_variables(self, variables: HashMap<String, String>) -> (c: Self)
        ensures
            c.variables == variables,
            c.pipeline_name == self.pipeline_name,
            c.working_dir == self.working_dir,
            c.env == self.env,
            c.parameters == self.parameters,
    {
        let mut c = self;
        c.variables = variables;
        c
    }

    pub fn with_parameters(self, parameters: HashMap<String, serde_yaml::Value>) -> (c: Self)
        ensures
            c.parameters == parameters,
            c.pipeline_name == self.pipeline_name,
            c.working_dir == self.working_dir,
            c.env == self.env,
            c.variables == self.variables,
    {
        let mut c = self;
        c.parameters = parameters;
        c
    }
}


/// A copy of an optional string.
pub fn clone_opt_string(s: &Option<String>) -> (r: Option<String>)
    ensures
        r == *s,
{
    match s {
        Some(v) => Some(v.clone()),
        None => None,
    }
}

/// `a` and `b` are the same dependency declaration.
pub open spec fn same_depends(a: DependsOn, b: DependsOn) -> bool {
    &&& (a is Default) == (b is Default)
    &&& (a is Nothing) == (b is Nothing)
    &&& (a is Single) == (b is Single)
    &&& a.names() == b.names()
}

impl Clone for Job {
    /// A copy that holds the same job (see [`same_job`]).
    fn clone(&self) -> (r: Self)
        ensures
            same_job(r, *self),
    {
        copy_job(self)
    }
}

impl Clone for Stage {
    /// A copy that holds the same stage (see [`same_stage`]).
    fn clone(&self) -> (r: Self)
        ensures
            same_stage(r, *self),
    {
        copy_stage(self)
    }
}

} // verus!
