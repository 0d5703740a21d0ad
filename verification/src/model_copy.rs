//! What a stage, a job and a step hold, as mathematical values, and copies
//! that keep all of it.  Two models hold the same when their contents are
//! equal; lists are compared entry by entry and maps by their contents.

use vstd::prelude::*;
use crate::expansion::{clone_node, NodeView, YamlNode};
use crate::models::{
    BashStep, BoolOrExpression, CanaryStrategy, CheckoutNone, CheckoutSelf, CheckoutSource, CheckoutStep,
    ContainerRef, ContainerSpec, DependsOn, DeploymentHooks, DownloadCurrent, DownloadNone, DownloadSource,
    DownloadStep, Environment, EnvironmentSpec, GetPackageStep, HookSteps, Job, LockBehavior, MatrixStrategy,
    MountReadOnly, Pool, PoolDemands, PoolSpec, PowerShellStep, PublishStep, PwshStep, ReviewAppStep,
    RollingStrategy, ScriptStep, Stage, Step, StepAction, Strategy, SubmoduleOption, TaskStep, TemplateStep,
    UsesSpec, Variable, Workspace, WorkspaceClean, clone_opt_string,
};
use std::collections::HashMap;

verus! {

broadcast use vstd::string::group_string_axioms;

// ---------------------------------------------------------------------------
// Contents
// ---------------------------------------------------------------------------

/// Template parameters: names with their values.
pub open spec fn params_content(p: Seq<(String, YamlNode)>) -> Seq<(String, NodeView)> {
    p.map_values(|e: (String, YamlNode)| (e.0, e.1@))
}

/// A dependency declaration: which form it has, and the names it gives.
pub open spec fn depends_content(d: DependsOn) -> (bool, bool, bool, Seq<String>) {
    (d is Default, d is Nothing, d is Single, d.names())
}

pub enum VariableContent {
    KeyValue(String, String, bool),
    Group(String),
    Template(String, Seq<(String, NodeView)>),
}

pub open spec fn variable_content(v: Variable) -> VariableContent {
    match v {
        Variable::KeyValue { name, value, readonly } => VariableContent::KeyValue(name, value, readonly),
        Variable::Group { group } => VariableContent::Group(group),
        Variable::Template { template, parameters } => VariableContent::Template(
            template,
            params_content(parameters@),
        ),
    }
}

pub open spec fn variables_content(v: Seq<Variable>) -> Seq<VariableContent> {
    v.map_values(|x: Variable| variable_content(x))
}

pub enum ActionContent {
    Script(ScriptStep),
    Bash(BashStep),
    Pwsh(PwshStep),
    PowerShell(PowerShellStep),
    Checkout(CheckoutStep),
    Task(String, Seq<(String, String)>),
    Template(String, Seq<(String, NodeView)>),
    Download(DownloadStep),
    Publish(PublishStep),
    GetPackage(GetPackageStep),
    ReviewApp(ReviewAppStep),
}

pub open spec fn action_content(a: StepAction) -> ActionContent {
    match a {
        StepAction::Script(s) => ActionContent::Script(s),
        StepAction::Bash(s) => ActionContent::Bash(s),
        StepAction::Pwsh(s) => ActionContent::Pwsh(s),
        StepAction::PowerShell(s) => ActionContent::PowerShell(s),
        StepAction::Checkout(s) => ActionContent::Checkout(s),
        StepAction::Task(t) => ActionContent::Task(t.task, t.inputs@),
        StepAction::Template(t) => ActionContent::Template(t.template, params_content(t.parameters@)),
        StepAction::Download(s) => ActionContent::Download(s),
        StepAction::Publish(s) => ActionContent::Publish(s),
        StepAction::GetPackage(s) => ActionContent::GetPackage(s),
        StepAction::ReviewApp(s) => ActionContent::ReviewApp(s),
    }
}

pub struct StepContent {
    pub name: Option<String>,
    pub display_name: Option<String>,
    pub condition: Option<String>,
    pub continue_on_error: BoolOrExpression,
    pub enabled: bool,
    pub timeout_in_minutes: Option<u32>,
    pub retry_count_on_task_failure: Option<u32>,
    pub env: Seq<(String, String)>,
    pub action: ActionContent,
}

pub open spec fn step_content(s: Step) -> StepContent {
    StepContent {
        name: s.name,
        display_name: s.display_name,
        condition: s.condition,
        continue_on_error: s.continue_on_error,
        enabled: s.enabled,
        timeout_in_minutes: s.timeout_in_minutes,
        retry_count_on_task_failure: s.retry_count_on_task_failure,
        env: s.env@,
        action: action_content(s.action),
    }
}

pub open spec fn steps_content(s: Seq<Step>) -> Seq<StepContent> {
    s.map_values(|x: Step| step_content(x))
}

pub enum DemandsContent {
    List(Seq<String>),
    Pairs(Map<String, String>),
}

pub enum PoolContent {
    Name(String),
    Full(Option<String>, Option<String>, Option<DemandsContent>),
}

pub open spec fn pool_content(p: Pool) -> PoolContent {
    match p {
        Pool::Name(n) => PoolContent::Name(n),
        Pool::Full(s) => PoolContent::Full(
            s.name,
            s.vm_image,
            match s.demands {
                Some(PoolDemands::List(v)) => Some(DemandsContent::List(v@)),
                Some(PoolDemands::Pairs(m)) => Some(DemandsContent::Pairs(m@)),
                None => None,
            },
        ),
    }
}

pub open spec fn opt_pool_content(p: Option<Pool>) -> Option<PoolContent> {
    match p {
        Some(x) => Some(pool_content(x)),
        None => None,
    }
}

pub enum ContainerContent {
    Image(String),
    Spec(
        String,
        Option<String>,
        Map<String, String>,
        Seq<String>,
        Seq<String>,
        Option<String>,
        Option<bool>,
        Option<MountReadOnly>,
    ),
}

pub open spec fn container_content(c: ContainerRef) -> ContainerContent {
    match c {
        ContainerRef::Image(i) => ContainerContent::Image(i),
        ContainerRef::Spec(s) => ContainerContent::Spec(
            s.image,
            s.endpoint,
            s.env@,
            s.ports@,
            s.volumes@,
            s.options,
            s.map_docker_socket,
            s.mount_read_only,
        ),
    }
}

pub enum MatrixContent {
    Inline(Map<String, HashMap<String, serde_yaml::Value>>),
    Expression(String),
}

pub struct HooksContent {
    pub pre_deploy: Option<(Option<PoolContent>, Seq<StepContent>)>,
    pub deploy: Option<(Option<PoolContent>, Seq<StepContent>)>,
    pub route_traffic: Option<(Option<PoolContent>, Seq<StepContent>)>,
    pub post_route_traffic: Option<(Option<PoolContent>, Seq<StepContent>)>,
    pub on_failure: Option<(Option<PoolContent>, Seq<StepContent>)>,
    pub on_success: Option<(Option<PoolContent>, Seq<StepContent>)>,
}

pub open spec fn hook_content(h: Option<HookSteps>) -> Option<(Option<PoolContent>, Seq<StepContent>)> {
    match h {
        Some(x) => Some((opt_pool_content(x.pool), steps_content(x.steps@))),
        None => None,
    }
}

pub open spec fn hooks_content(h: DeploymentHooks) -> HooksContent {
    HooksContent {
        pre_deploy: hook_content(h.pre_deploy),
        deploy: hook_content(h.deploy),
        route_traffic: hook_content(h.route_traffic),
        post_route_traffic: hook_content(h.post_route_traffic),
        on_failure: hook_content(h.on_failure),
        on_success: hook_content(h.on_success),
    }
}

pub struct StrategyContent {
    pub matrix: Option<MatrixContent>,
    pub parallel: Option<u32>,
    pub max_parallel: Option<u32>,
    pub run_once: Option<HooksContent>,
    pub rolling: Option<(Option<u32>, HooksContent)>,
    pub canary: Option<(Seq<u32>, HooksContent)>,
}

pub open spec fn strategy_content(s: Strategy) -> StrategyContent {
    StrategyContent {
        matrix: match s.matrix {
            Some(MatrixStrategy::Inline(m)) => Some(MatrixContent::Inline(m@)),
            Some(MatrixStrategy::Expression(e)) => Some(MatrixContent::Expression(e)),
            None => None,
        },
        parallel: s.parallel,
        max_parallel: s.max_parallel,
        run_once: match s.run_once {
            Some(h) => Some(hooks_content(h)),
            None => None,
        },
        rolling: match s.rolling {
            Some(r) => Some((r.max_parallel, hooks_content(r.hooks))),
            None => None,
        },
        canary: match s.canary {
            Some(c) => Some((c.increments@, hooks_content(c.hooks))),
            None => None,
        },
    }
}

pub enum EnvironmentContent {
    Name(String),
    Full(String, Option<String>, Option<u64>, Option<String>, Option<Seq<String>>),
}

pub open spec fn environment_content(e: Environment) -> EnvironmentContent {
    match e {
        Environment::Name(n) => EnvironmentContent::Name(n),
        Environment::Full(s) => EnvironmentContent::Full(
            s.name,
            s.resource_name,
            s.resource_id,
            s.resource_type,
            match s.tags {
                Some(t) => Some(t@),
                None => None,
            },
        ),
    }
}

pub open spec fn opt_strs(v: Option<Vec<String>>) -> Option<Seq<String>> {
    match v {
        Some(x) => Some(x@),
        None => None,
    }
}

pub struct JobContent {
    pub job: Option<String>,
    pub deployment: Option<String>,
    pub display_name: Option<String>,
    pub depends_on: (bool, bool, bool, Seq<String>),
    pub condition: Option<String>,
    pub strategy: Option<StrategyContent>,
    pub pool: Option<PoolContent>,
    pub container: Option<ContainerContent>,
    pub services: Map<String, ContainerRef>,
    pub variables: Seq<VariableContent>,
    pub steps: Seq<StepContent>,
    pub timeout_in_minutes: Option<u32>,
    pub cancel_timeout_in_minutes: Option<u32>,
    pub continue_on_error: BoolOrExpression,
    pub workspace: Option<Workspace>,
    pub uses: Option<(Option<Seq<String>>, Option<Seq<String>>)>,
    pub template: Option<String>,
    pub parameters: Seq<(String, NodeView)>,
    pub environment: Option<EnvironmentContent>,
    pub has_template_directives: bool,
}

pub open spec fn job_content(j: Job) -> JobContent {
    JobContent {
        job: j.job,
        deployment: j.deployment,
        display_name: j.display_name,
        depends_on: depends_content(j.depends_on),
        condition: j.condition,
        strategy: match j.strategy {
            Some(s) => Some(strategy_content(s)),
            None => None,
        },
        pool: opt_pool_content(j.pool),
        container: match j.container {
            Some(c) => Some(container_content(c)),
            None => None,
        },
        services: j.services@,
        variables: variables_content(j.variables@),
        steps: steps_content(j.steps@),
        timeout_in_minutes: j.timeout_in_minutes,
        cancel_timeout_in_minutes: j.cancel_timeout_in_minutes,
        continue_on_error: j.continue_on_error,
        workspace: j.workspace,
        uses: match j.uses {
            Some(u) => Some((opt_strs(u.repositories), opt_strs(u.pools))),
            None => None,
        },
        template: j.template,
        parameters: params_content(j.parameters@),
        environment: match j.environment {
            Some(e) => Some(environment_content(e)),
            None => None,
        },
        has_template_directives: j.has_template_directives,
    }
}

pub open spec fn jobs_content(s: Seq<Job>) -> Seq<JobContent> {
    s.map_values(|x: Job| job_content(x))
}

pub struct StageContent {
    pub stage: Option<String>,
    pub display_name: Option<String>,
    pub depends_on: (bool, bool, bool, Seq<String>),
    pub condition: Option<String>,
    pub variables: Seq<VariableContent>,
    pub jobs: Seq<JobContent>,
    pub lock_behavior: Option<LockBehavior>,
    pub template: Option<String>,
    pub parameters: Seq<(String, NodeView)>,
    pub pool: Option<PoolContent>,
    pub has_template_directives: bool,
}

pub open spec fn stage_content(s: Stage) -> StageContent {
    StageContent {
        stage: s.stage,
        display_name: s.display_name,
        depends_on: depends_content(s.depends_on),
        condition: s.condition,
        variables: variables_content(s.variables@),
        jobs: jobs_content(s.jobs@),
        lock_behavior: s.lock_behavior,
        template: s.template,
        parameters: params_content(s.parameters@),
        pool: opt_pool_content(s.pool),
        has_template_directives: s.has_template_directives,
    }
}

pub open spec fn stages_content(s: Seq<Stage>) -> Seq<StageContent> {
    s.map_values(|x: Stage| stage_content(x))
}

/// `a` and `b` hold the same job: every field, step by step.
pub open spec fn same_job(a: Job, b: Job) -> bool {
    job_content(a) == job_content(b)
}

/// `a` and `b` hold the same stage: every field, job by job.
pub open spec fn same_stage(a: Stage, b: Stage) -> bool {
    stage_content(a) == stage_content(b)
}

// ---------------------------------------------------------------------------
// Copies of lists of plain values
// ---------------------------------------------------------------------------

pub fn copy_strings(v: &Vec<String>) -> (r: Vec<String>)
    ensures
        r@ == v@,
{
    let mut out: Vec<String> = Vec::new();
    let mut i: usize = 0;
    while i < v.len()
        invariant
            i <= v@.len(),
            out@.len() == i,
            forall|k: int| 0 <= k < i ==> #[trigger] out@[k] == v@[k],
        decreases v@.len() - i,
    {
        out.push(v[i].clone());
        i = i + 1;
    }
    assert(out@ =~= v@);
    out
}

pub fn copy_opt_strings(v: &Option<Vec<String>>) -> (r: Option<Vec<String>>)
    ensures
        opt_strs(r) == opt_strs(*v),
{
    match v {
        Some(x) => Some(copy_strings(x)),
        None => None,
    }
}

pub fn copy_pairs(v: &Vec<(String, String)>) -> (r: Vec<(String, String)>)
    ensures
        r@ == v@,
{
    let mut out: Vec<(String, String)> = Vec::new();
    let mut i: usize = 0;
    while i < v.len()
        invariant
            i <= v@.len(),
            out@.len() == i,
            forall|k: int| 0 <= k < i ==> #[trigger] out@[k] == v@[k],
        decreases v@.len() - i,
    {
        let (a, b) = &v[i];
        out.push((a.clone(), b.clone()));
        i = i + 1;
    }
    assert(out@ =~= v@);
    out
}

pub fn copy_numbers(v: &Vec<u32>) -> (r: Vec<u32>)
    ensures
        r@ == v@,
{
    let mut out: Vec<u32> = Vec::new();
    let mut i: usize = 0;
    while i < v.len()
        invariant
            i <= v@.len(),
            out@.len() == i,
            forall|k: int| 0 <= k < i ==> #[trigger] out@[k] == v@[k],
        decreases v@.len() - i,
    {
        out.push(v[i]);
        i = i + 1;
    }
    assert(out@ =~= v@);
    out
}

pub fn copy_params(v: &Vec<(String, YamlNode)>) -> (r: Vec<(String, YamlNode)>)
    ensures
        params_content(r@) == params_content(v@),
{
    let mut out: Vec<(String, YamlNode)> = Vec::new();
    let mut i: usize = 0;
    while i < v.len()
        invariant
            i <= v@.len(),
            out@.len() == i,
            forall|k: int| 0 <= k < i ==> (#[trigger] out@[k]).0 == v@[k].0 && out@[k].1@ == v@[k].1@,
        decreases v@.len() - i,
    {
        let (a, b) = &v[i];
        out.push((a.clone(), clone_node(b)));
        i = i + 1;
    }
    assert(params_content(out@) =~= params_content(v@));
    out
}

pub fn copy_depends(d: &DependsOn) -> (r: DependsOn)
    ensures
        depends_content(r) == depends_content(*d),
{
    match d {
        DependsOn::Default => DependsOn::Default,
        DependsOn::Nothing => DependsOn::Nothing,
        DependsOn::Single(s) => DependsOn::Single(s.clone()),
        DependsOn::Multiple(v) => DependsOn::Multiple(copy_strings(v)),
    }
}

pub fn copy_variable(v: &Variable) -> (r: Variable)
    ensures
        variable_content(r) == variable_content(*v),
{
    match v {
        Variable::KeyValue { name, value, readonly } => Variable::KeyValue {
            name: name.clone(),
            value: value.clone(),
            readonly: *readonly,
        },
        Variable::Group { group } => Variable::Group { group: group.clone() },
        Variable::Template { template, parameters } => Variable::Template {
            template: template.clone(),
            parameters: copy_params(parameters),
        },
    }
}

pub fn copy_variables(v: &Vec<Variable>) -> (r: Vec<Variable>)
    ensures
        variables_content(r@) == variables_content(v@),
{
    let mut out: Vec<Variable> = Vec::new();
    let mut i: usize = 0;
    while i < v.len()
        invariant
            i <= v@.len(),
            out@.len() == i,
            forall|k: int| 0 <= k < i ==> variable_content(#[trigger] out@[k]) == variable_content(v@[k]),
        decreases v@.len() - i,
    {
        out.push(copy_variable(&v[i]));
        i = i + 1;
    }
    assert(variables_content(out@) =~= variables_content(v@));
    out
}

// ---------------------------------------------------------------------------
// Copies of steps
// ---------------------------------------------------------------------------

pub fn copy_bool_or_expression(b: &BoolOrExpression) -> (r: BoolOrExpression)
    ensures
        r == *b,
{
    match b {
        BoolOrExpression::Bool(x) => BoolOrExpression::Bool(*x),
        BoolOrExpression::Expression(e) => BoolOrExpression::Expression(e.clone()),
    }
}

fn copy_checkout_source(c: &CheckoutSource) -> (r: CheckoutSource)
    ensures
        r == *c,
{
    match c {
        CheckoutSource::SelfRepo(_) => CheckoutSource::SelfRepo(CheckoutSelf::SelfRepo),
        CheckoutSource::Disabled(_) => CheckoutSource::Disabled(CheckoutNone::Disabled),
        CheckoutSource::Repository(n) => CheckoutSource::Repository(n.clone()),
    }
}

fn copy_submodules(s: &SubmoduleOption) -> (r: SubmoduleOption)
    ensures
        r == *s,
{
    match s {
        SubmoduleOption::False => SubmoduleOption::False,
        SubmoduleOption::True => SubmoduleOption::True,
        SubmoduleOption::Recursive => SubmoduleOption::Recursive,
    }
}

fn copy_download_source(d: &DownloadSource) -> (r: DownloadSource)
    ensures
        r == *d,
{
    match d {
        DownloadSource::Current(_) => DownloadSource::Current(DownloadCurrent::Current),
        DownloadSource::Disabled(_) => DownloadSource::Disabled(DownloadNone::Disabled),
        DownloadSource::Pipeline(n) => DownloadSource::Pipeline(n.clone()),
    }
}

pub fn copy_action(a: &StepAction) -> (r: StepAction)
    ensures
        action_content(r) == action_content(*a),
{
    match a {
        StepAction::Script(s) => StepAction::Script(
            ScriptStep {
                script: s.script.clone(),
                working_directory: clone_opt_string(&s.working_directory),
                fail_on_stderr: s.fail_on_stderr,
            },
        ),
        StepAction::Bash(s) => StepAction::Bash(
            BashStep {
                bash: s.bash.clone(),
                working_directory: clone_opt_string(&s.working_directory),
                fail_on_stderr: s.fail_on_stderr,
            },
        ),
        StepAction::Pwsh(s) => StepAction::Pwsh(
            PwshStep {
                pwsh: s.pwsh.clone(),
                working_directory: clone_opt_string(&s.working_directory),
                fail_on_stderr: s.fail_on_stderr,
                error_action_preference: clone_opt_string(&s.error_action_preference),
            },
        ),
        StepAction::PowerShell(s) => StepAction::PowerShell(
            PowerShellStep {
                powershell: s.powershell.clone(),
                working_directory: clone_opt_string(&s.working_directory),
                fail_on_stderr: s.fail_on_stderr,
                error_action_preference: clone_opt_string(&s.error_action_preference),
            },
        ),
        StepAction::Checkout(s) => StepAction::Checkout(
            CheckoutStep {
                checkout: copy_checkout_source(&s.checkout),
                clean: s.clean,
                fetch_depth: s.fetch_depth,
                fetch_tags: s.fetch_tags,
                lfs: s.lfs,
                submodules: copy_submodules(&s.submodules),
                path: clone_opt_string(&s.path),
                persistent_credentials: s.persistent_credentials,
            },
        ),
        StepAction::Task(t) => StepAction::Task(
            TaskStep { task: t.task.clone(), inputs: copy_pairs(&t.inputs) },
        ),
        StepAction::Template(t) => StepAction::Template(
            TemplateStep { template: t.template.clone(), parameters: copy_params(&t.parameters) },
        ),
        StepAction::Download(d) => StepAction::Download(
            DownloadStep {
                download: copy_download_source(&d.download),
                artifact: clone_opt_string(&d.artifact),
                patterns: clone_opt_string(&d.patterns),
                path: clone_opt_string(&d.path),
            },
        ),
        StepAction::Publish(p) => StepAction::Publish(
            PublishStep { publish: p.publish.clone(), artifact: clone_opt_string(&p.artifact) },
        ),
        StepAction::GetPackage(g) => StepAction::GetPackage(
            GetPackageStep { get_package: g.get_package.clone(), path: clone_opt_string(&g.path) },
        ),
        StepAction::ReviewApp(r) => StepAction::ReviewApp(ReviewAppStep { review_app: r.review_app.clone() }),
    }
}

pub fn copy_step(s: &Step) -> (r: Step)
    ensures
        step_content(r) == step_content(*s),
{
    Step {
        name: clone_opt_string(&s.name),
        display_name: clone_opt_string(&s.display_name),
        condition: clone_opt_string(&s.condition),
        continue_on_error: copy_bool_or_expression(&s.continue_on_error),
        enabled: s.enabled,
        timeout_in_minutes: s.timeout_in_minutes,
        retry_count_on_task_failure: s.retry_count_on_task_failure,
        env: copy_pairs(&s.env),
        action: copy_action(&s.action),
    }
}

pub fn copy_steps(v: &Vec<Step>) -> (r: Vec<Step>)
    ensures
        steps_content(r@) == steps_content(v@),
{
    let mut out: Vec<Step> = Vec::new();
    let mut i: usize = 0;
    while i < v.len()
        invariant
            i <= v@.len(),
            out@.len() == i,
            forall|k: int| 0 <= k < i ==> step_content(#[trigger] out@[k]) == step_content(v@[k]),
        decreases v@.len() - i,
    {
        out.push(copy_step(&v[i]));
        i = i + 1;
    }
    assert(steps_content(out@) =~= steps_content(v@));
    out
}

// ---------------------------------------------------------------------------
// Copies of pools, containers, strategies and environments
// ---------------------------------------------------------------------------

pub fn copy_pool(p: &Pool) -> (r: Pool)
    ensures
        pool_content(r) == pool_content(*p),
{
    match p {
        Pool::Name(n) => Pool::Name(n.clone()),
        Pool::Full(s) => Pool::Full(
            PoolSpec {
                name: clone_opt_string(&s.name),
                vm_image: clone_opt_string(&s.vm_image),
                demands: match &s.demands {
                    Some(PoolDemands::List(v)) => Some(PoolDemands::List(copy_strings(v))),
                    Some(PoolDemands::Pairs(m)) => Some(PoolDemands::Pairs(m.clone())),
                    None => None,
                },
            },
        ),
    }
}

pub fn copy_opt_pool(p: &Option<Pool>) -> (r: Option<Pool>)
    ensures
        opt_pool_content(r) == opt_pool_content(*p),
{
    match p {
        Some(x) => Some(copy_pool(x)),
        None => None,
    }
}

pub fn copy_container(c: &ContainerRef) -> (r: ContainerRef)
    ensures
        container_content(r) == container_content(*c),
{
    match c {
        ContainerRef::Image(i) => ContainerRef::Image(i.clone()),
        ContainerRef::Spec(s) => ContainerRef::Spec(
            ContainerSpec {
                image: s.image.clone(),
                endpoint: clone_opt_string(&s.endpoint),
                env: s.env.clone(),
                ports: copy_strings(&s.ports),
                volumes: copy_strings(&s.volumes),
                options: clone_opt_string(&s.options),
                map_docker_socket: s.map_docker_socket,
                mount_read_only: match &s.mount_read_only {
                    Some(m) => Some(
                        MountReadOnly { work: m.work, externals: m.externals, tools: m.tools, tasks: m.tasks },
                    ),
                    None => None,
                },
            },
        ),
    }
}

fn copy_hook(h: &Option<HookSteps>) -> (r: Option<HookSteps>)
    ensures
        hook_content(r) == hook_content(*h),
{
    match h {
        Some(x) => Some(HookSteps { pool: copy_opt_pool(&x.pool), steps: copy_steps(&x.steps) }),
        None => None,
    }
}

fn copy_hooks(h: &DeploymentHooks) -> (r: DeploymentHooks)
    ensures
        hooks_content(r) == hooks_content(*h),
{
    DeploymentHooks {
        pre_deploy: copy_hook(&h.pre_deploy),
        deploy: copy_hook(&h.deploy),
        route_traffic: copy_hook(&h.route_traffic),
        post_route_traffic: copy_hook(&h.post_route_traffic),
        on_failure: copy_hook(&h.on_failure),
        on_success: copy_hook(&h.on_success),
    }
}

pub fn copy_strategy(s: &Strategy) -> (r: Strategy)
    ensures
        strategy_content(r) == strategy_content(*s),
{
    Strategy {
        matrix: match &s.matrix {
            Some(MatrixStrategy::Inline(m)) => Some(MatrixStrategy::Inline(m.clone())),
            Some(MatrixStrategy::Expression(e)) => Some(MatrixStrategy::Expression(e.clone())),
            None => None,
        },
        parallel: s.parallel,
        max_parallel: s.max_parallel,
        run_once: match &s.run_once {
            Some(h) => Some(copy_hooks(h)),
            None => None,
        },
        rolling: match &s.rolling {
            Some(r) => Some(RollingStrategy { max_parallel: r.max_parallel, hooks: copy_hooks(&r.hooks) }),
            None => None,
        },
        canary: match &s.canary {
            Some(c) => Some(CanaryStrategy { increments: copy_numbers(&c.increments), hooks: copy_hooks(&c.hooks) }),
            None => None,
        },
    }
}

pub fn copy_environment(e: &Environment) -> (r: Environment)
    ensures
        environment_content(r) == environment_content(*e),
{
    match e {
        Environment::Name(n) => Environment::Name(n.clone()),
        Environment::Full(s) => Environment::Full(
            EnvironmentSpec {
                name: s.name.clone(),
                resource_name: clone_opt_string(&s.resource_name),
                resource_id: s.resource_id,
                resource_type: clone_opt_string(&s.resource_type),
                tags: copy_opt_strings(&s.tags),
            },
        ),
    }
}

// ---------------------------------------------------------------------------
// Copies of jobs and stages
// ---------------------------------------------------------------------------

pub fn copy_job(j: &Job) -> (r: Job)
    ensures
        same_job(r, *j),
{
    Job {
        job: clone_opt_string(&j.job),
        deployment: clone_opt_string(&j.deployment),
        display_name: clone_opt_string(&j.display_name),
        depends_on: copy_depends(&j.depends_on),
        condition: clone_opt_string(&j.condition),
        strategy: match &j.strategy {
            Some(s) => Some(copy_strategy(s)),
            None => None,
        },
        pool: copy_opt_pool(&j.pool),
        container: match &j.container {
            Some(c) => Some(copy_container(c)),
            None => None,
        },
        services: j.services.clone(),
        variables: copy_variables(&j.variables),
        steps: copy_steps(&j.steps),
        timeout_in_minutes: j.timeout_in_minutes,
        cancel_timeout_in_minutes: j.cancel_timeout_in_minutes,
        continue_on_error: copy_bool_or_expression(&j.continue_on_error),
        workspace: match &j.workspace {
            Some(w) => Some(
                Workspace {
                    clean: match &w.clean {
                        Some(WorkspaceClean::Outputs) => Some(WorkspaceClean::Outputs),
                        Some(WorkspaceClean::Resources) => Some(WorkspaceClean::Resources),
                        Some(WorkspaceClean::All) => Some(WorkspaceClean::All),
                        None => None,
                    },
                },
            ),
            None => None,
        },
        uses: match &j.uses {
            Some(u) => Some(
                UsesSpec { repositories: copy_opt_strings(&u.repositories), pools: copy_opt_strings(&u.pools) },
            ),
            None => None,
        },
        template: clone_opt_string(&j.template),
        parameters: copy_params(&j.parameters),
        environment: match &j.environment {
            Some(e) => Some(copy_environment(e)),
            None => None,
        },
        has_template_directives: j.has_template_directives,
    }
}

pub fn copy_jobs(v: &Vec<Job>) -> (r: Vec<Job>)
    ensures
        jobs_content(r@) == jobs_content(v@),
{
    let mut out: Vec<Job> = Vec::new();
    let mut i: usize = 0;
    while i < v.len()
        invariant
            i <= v@.len(),
            out@.len() == i,
            forall|k: int| 0 <= k < i ==> job_content(#[trigger] out@[k]) == job_content(v@[k]),
        decreases v@.len() - i,
    {
        out.push(copy_job(&v[i]));
        i = i + 1;
    }
    assert(jobs_content(out@) =~= jobs_content(v@));
    out
}

pub fn copy_stage(s: &Stage) -> (r: Stage)
    ensures
        same_stage(r, *s),
{
    Stage {
        stage: clone_opt_string(&s.stage),
        display_name: clone_opt_string(&s.display_name),
        depends_on: copy_depends(&s.depends_on),
        condition: clone_opt_string(&s.condition),
        variables: copy_variables(&s.variables),
        jobs: copy_jobs(&s.jobs),
        lock_behavior: match &s.lock_behavior {
            Some(LockBehavior::RunLatest) => Some(LockBehavior::RunLatest),
            Some(LockBehavior::Sequential) => Some(LockBehavior::Sequential),
            None => None,
        },
        template: clone_opt_string(&s.template),
        parameters: copy_params(&s.parameters),
        pool: copy_opt_pool(&s.pool),
        has_template_directives: s.has_template_directives,
    }
}

pub fn copy_stages(v: &Vec<Stage>) -> (r: Vec<Stage>)
    ensures
        stages_content(r@) == stages_content(v@),
{
    let mut out: Vec<Stage> = Vec::new();
    let mut i: usize = 0;
    while i < v.len()
        invariant
            i <= v@.len(),
            out@.len() == i,
            forall|k: int| 0 <= k < i ==> stage_content(#[trigger] out@[k]) == stage_content(v@[k]),
        decreases v@.len() - i,
    {
        out.push(copy_stage(&v[i]));
        i = i + 1;
    }
    assert(stages_content(out@) =~= stages_content(v@));
    out
}

} // verus!
