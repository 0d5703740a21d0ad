//! Substituting a template's parameters into pipeline items that were read
//! already: the names, display names, conditions, scripts, task inputs,
//! template arguments and environments of variables, stages, jobs and
//! steps.  Each string goes through the caller's substitution of
//! compile-time expressions, in the scope of the template's parameters; the
//! first failure stops the walk.

use vstd::prelude::*;
use crate::expansion::{clone_node, lemma_substitute_out, substitute_out, NodeView, YamlNode};
use crate::models::{
    BashStep, Job, Pipeline, PowerShellStep, PwshStep, ScriptStep, Stage, Step, StepAction, TaskStep,
    TemplateStep, Variable,
};
use crate::parameters::{param_insert, params_view, set_param};
use crate::parse_error::ParseError;
use crate::task_runner::{pair_insert, pairs_view, set_input};
use crate::template::TemplateEngine;

verus! {

broadcast use vstd::string::group_string_axioms;

/// `substitute` gives one outcome per input, as a function of the text and
/// the scope.
pub open spec fn substitute_deterministic<S, T: Fn(&S, &String) -> Result<String, ParseError>>(f: T) -> bool {
    forall|s: S, a1: String, a2: String, o1: Result<String, ParseError>, o2: Result<String, ParseError>|
        #![trigger call_ensures(f, (&s, &a1), o1), call_ensures(f, (&s, &a2), o2)]
        a1@ == a2@ && call_ensures(f, (&s, &a1), o1) && call_ensures(f, (&s, &a2), o2) ==> match (o1, o2) {
            (Ok(x), Ok(y)) => x@ == y@,
            (Err(x), Err(y)) => x == y,
            _ => false,
        }
}

// ---------------------------------------------------------------------------
// Texts
// ---------------------------------------------------------------------------

/// The first of two failures.
pub open spec fn first_failure(a: Option<ParseError>, b: Option<ParseError>) -> Option<ParseError> {
    if a is Some {
        a
    } else {
        b
    }
}

/// The first failure among the items of `xs`, in order.
pub open spec fn failures<A>(xs: Seq<A>, fail: spec_fn(A) -> Option<ParseError>) -> Option<ParseError>
    decreases xs.len(),
{
    if xs.len() == 0 {
        None
    } else {
        first_failure(failures(xs.drop_last(), fail), fail(xs.last()))
    }
}

/// The failure of substituting into `t`, if any.
pub open spec fn text_failure<S, T: Fn(&S, &String) -> Result<String, ParseError>>(f: T, s: S, t: String) -> Option<
    ParseError,
> {
    match substitute_out(f, s, t@) {
        Err(e) => Some(e),
        Ok(_) => None,
    }
}

/// `new` is `old` substituted.
pub open spec fn text_done<S, T: Fn(&S, &String) -> Result<String, ParseError>>(f: T, s: S, old: String, new: String) -> bool {
    substitute_out(f, s, old@) == Ok::<Seq<char>, ParseError>(new@)
}

pub open spec fn opt_failure<S, T: Fn(&S, &String) -> Result<String, ParseError>>(f: T, s: S, t: Option<String>) -> Option<
    ParseError,
> {
    match t {
        Some(x) => text_failure(f, s, x),
        None => None,
    }
}

pub open spec fn opt_done<S, T: Fn(&S, &String) -> Result<String, ParseError>>(
    f: T,
    s: S,
    old: Option<String>,
    new: Option<String>,
) -> bool {
    match (old, new) {
        (Some(x), Some(y)) => text_done(f, s, x, y),
        (None, None) => true,
        _ => false,
    }
}

/// The failure of substituting into the keys and values of `ps`, in order.
pub open spec fn pairs_failure<S, T: Fn(&S, &String) -> Result<String, ParseError>>(f: T, s: S, ps: Seq<(String, String)>) -> Option<
    ParseError,
> {
    failures(ps, |p: (String, String)| first_failure(text_failure(f, s, p.0), text_failure(f, s, p.1)))
}

/// The pairs with keys and values substituted, each set in turn.
pub open spec fn pairs_substituted<S, T: Fn(&S, &String) -> Result<String, ParseError>>(f: T, s: S, ps: Seq<(String, String)>) -> Seq<
    (Seq<char>, Seq<char>),
>
    decreases ps.len(),
{
    if ps.len() == 0 {
        Seq::empty()
    } else {
        pair_insert(
            pairs_substituted(f, s, ps.drop_last()),
            substitute_out(f, s, ps.last().0@)->Ok_0,
            substitute_out(f, s, ps.last().1@)->Ok_0,
        )
    }
}

/// The failure of substituting into the string arguments of a template call.
pub open spec fn args_failure<S, T: Fn(&S, &String) -> Result<String, ParseError>>(f: T, s: S, ps: Seq<(String, YamlNode)>) -> Option<
    ParseError,
> {
    failures(ps, |p: (String, YamlNode)| arg_failure(f, s, p.1))
}

/// The failure of substituting into one template argument: only a string
/// is substituted.
pub open spec fn arg_failure<S, T: Fn(&S, &String) -> Result<String, ParseError>>(f: T, s: S, v: YamlNode) -> Option<
    ParseError,
> {
    match v {
        YamlNode::String(t) => text_failure(f, s, t),
        _ => None,
    }
}

/// A template call's arguments with string values substituted, each set in
/// turn under its name.
pub open spec fn args_substituted<S, T: Fn(&S, &String) -> Result<String, ParseError>>(f: T, s: S, ps: Seq<(String, YamlNode)>) -> Seq<
    (Seq<char>, NodeView),
>
    decreases ps.len(),
{
    if ps.len() == 0 {
        Seq::empty()
    } else {
        param_insert(
            args_substituted(f, s, ps.drop_last()),
            ps.last().0@,
            match ps.last().1 {
                YamlNode::String(t) => NodeView::Str(substitute_out(f, s, t@)->Ok_0),
                v => v@,
            },
        )
    }
}

// ---------------------------------------------------------------------------
// Items
// ---------------------------------------------------------------------------

pub open spec fn variable_failure<S, T: Fn(&S, &String) -> Result<String, ParseError>>(f: T, s: S, v: Variable) -> Option<
    ParseError,
> {
    match v {
        Variable::KeyValue { name, value, .. } => first_failure(text_failure(f, s, name), text_failure(f, s, value)),
        _ => None,
    }
}

pub open spec fn variable_done<S, T: Fn(&S, &String) -> Result<String, ParseError>>(f: T, s: S, old: Variable, new: Variable) -> bool {
    match old {
        Variable::KeyValue { name, value, readonly } => new matches Variable::KeyValue {
            name: n2,
            value: v2,
            readonly: r2,
        } && text_done(f, s, name, n2) && text_done(f, s, value, v2) && r2 == readonly,
        _ => new == old,
    }
}

pub open spec fn action_failure<S, T: Fn(&S, &String) -> Result<String, ParseError>>(f: T, s: S, a: StepAction) -> Option<
    ParseError,
> {
    match a {
        StepAction::Script(x) => first_failure(text_failure(f, s, x.script), opt_failure(f, s, x.working_directory)),
        StepAction::Bash(x) => first_failure(text_failure(f, s, x.bash), opt_failure(f, s, x.working_directory)),
        StepAction::Pwsh(x) => first_failure(text_failure(f, s, x.pwsh), opt_failure(f, s, x.working_directory)),
        StepAction::PowerShell(x) => first_failure(
            text_failure(f, s, x.powershell),
            opt_failure(f, s, x.working_directory),
        ),
        StepAction::Task(x) => first_failure(text_failure(f, s, x.task), pairs_failure(f, s, x.inputs@)),
        StepAction::Template(x) => first_failure(text_failure(f, s, x.template), args_failure(f, s, x.parameters@)),
        _ => None,
    }
}

pub open spec fn action_done<S, T: Fn(&S, &String) -> Result<String, ParseError>>(f: T, s: S, old: StepAction, new: StepAction) -> bool {
    match old {
        StepAction::Script(x) => new matches StepAction::Script(y) && text_done(f, s, x.script, y.script)
            && opt_done(f, s, x.working_directory, y.working_directory) && y.fail_on_stderr == x.fail_on_stderr,
        StepAction::Bash(x) => new matches StepAction::Bash(y) && text_done(f, s, x.bash, y.bash) && opt_done(
            f,
            s,
            x.working_directory,
            y.working_directory,
        ) && y.fail_on_stderr == x.fail_on_stderr,
        StepAction::Pwsh(x) => new matches StepAction::Pwsh(y) && text_done(f, s, x.pwsh, y.pwsh) && opt_done(
            f,
            s,
            x.working_directory,
            y.working_directory,
        ) && y.fail_on_stderr == x.fail_on_stderr && y.error_action_preference == x.error_action_preference,
        StepAction::PowerShell(x) => new matches StepAction::PowerShell(y) && text_done(
            f,
            s,
            x.powershell,
            y.powershell,
        ) && opt_done(f, s, x.working_directory, y.working_directory) && y.fail_on_stderr == x.fail_on_stderr
            && y.error_action_preference == x.error_action_preference,
        StepAction::Task(x) => new matches StepAction::Task(y) && text_done(f, s, x.task, y.task) && pairs_view(
            y.inputs@,
        ) == pairs_substituted(f, s, x.inputs@),
        StepAction::Template(x) => new matches StepAction::Template(y) && text_done(f, s, x.template, y.template)
            && params_view(y.parameters@) == args_substituted(f, s, x.parameters@),
        _ => new == old,
    }
}

pub open spec fn step_failure<S, T: Fn(&S, &String) -> Result<String, ParseError>>(f: T, s: S, st: Step) -> Option<
    ParseError,
> {
    first_failure(
        opt_failure(f, s, st.display_name),
        first_failure(
            opt_failure(f, s, st.condition),
            first_failure(action_failure(f, s, st.action), pairs_failure(f, s, st.env@)),
        ),
    )
}

pub open spec fn step_done<S, T: Fn(&S, &String) -> Result<String, ParseError>>(f: T, s: S, old: Step, new: Step) -> bool {
    &&& opt_done(f, s, old.display_name, new.display_name)
    &&& opt_done(f, s, old.condition, new.condition)
    &&& action_done(f, s, old.action, new.action)
    &&& pairs_view(new.env@) == pairs_substituted(f, s, old.env@)
    &&& new.name == old.name
    &&& new.continue_on_error == old.continue_on_error
    &&& new.enabled == old.enabled
    &&& new.timeout_in_minutes == old.timeout_in_minutes
    &&& new.retry_count_on_task_failure == old.retry_count_on_task_failure
}

pub open spec fn variables_failure<S, T: Fn(&S, &String) -> Result<String, ParseError>>(f: T, s: S, vs: Seq<Variable>) -> Option<
    ParseError,
> {
    failures(vs, |v: Variable| variable_failure(f, s, v))
}

pub open spec fn variables_done<S, T: Fn(&S, &String) -> Result<String, ParseError>>(
    f: T,
    s: S,
    old: Seq<Variable>,
    new: Seq<Variable>,
) -> bool {
    old.len() == new.len() && forall|i: int| 0 <= i < old.len() ==> #[trigger] variable_done(f, s, old[i], new[i])
}

pub open spec fn steps_failure<S, T: Fn(&S, &String) -> Result<String, ParseError>>(f: T, s: S, vs: Seq<Step>) -> Option<
    ParseError,
> {
    failures(vs, |v: Step| step_failure(f, s, v))
}

pub open spec fn steps_done<S, T: Fn(&S, &String) -> Result<String, ParseError>>(f: T, s: S, old: Seq<Step>, new: Seq<Step>) -> bool {
    old.len() == new.len() && forall|i: int| 0 <= i < old.len() ==> #[trigger] step_done(f, s, old[i], new[i])
}

pub open spec fn job_failure<S, T: Fn(&S, &String) -> Result<String, ParseError>>(f: T, s: S, j: Job) -> Option<
    ParseError,
> {
    first_failure(
        opt_failure(f, s, j.job),
        first_failure(
            opt_failure(f, s, j.display_name),
            first_failure(
                opt_failure(f, s, j.condition),
                first_failure(variables_failure(f, s, j.variables@), steps_failure(f, s, j.steps@)),
            ),
        ),
    )
}

/// `new` is job `old` with its name, display name, condition, variables and
/// steps substituted, the rest as it was.
pub open spec fn job_done<S, T: Fn(&S, &String) -> Result<String, ParseError>>(f: T, s: S, old: Job, new: Job) -> bool {
    &&& opt_done(f, s, old.job, new.job)
    &&& opt_done(f, s, old.display_name, new.display_name)
    &&& opt_done(f, s, old.condition, new.condition)
    &&& variables_done(f, s, old.variables@, new.variables@)
    &&& steps_done(f, s, old.steps@, new.steps@)
    &&& new == Job {
        job: new.job,
        display_name: new.display_name,
        condition: new.condition,
        variables: new.variables,
        steps: new.steps,
        ..old
    }
}

pub open spec fn jobs_failure<S, T: Fn(&S, &String) -> Result<String, ParseError>>(f: T, s: S, vs: Seq<Job>) -> Option<
    ParseError,
> {
    failures(vs, |v: Job| job_failure(f, s, v))
}

pub open spec fn jobs_done<S, T: Fn(&S, &String) -> Result<String, ParseError>>(f: T, s: S, old: Seq<Job>, new: Seq<Job>) -> bool {
    old.len() == new.len() && forall|i: int| 0 <= i < old.len() ==> #[trigger] job_done(f, s, old[i], new[i])
}

pub open spec fn stage_failure<S, T: Fn(&S, &String) -> Result<String, ParseError>>(f: T, s: S, st: Stage) -> Option<
    ParseError,
> {
    first_failure(
        opt_failure(f, s, st.stage),
        first_failure(
            opt_failure(f, s, st.display_name),
            first_failure(
                opt_failure(f, s, st.condition),
                first_failure(variables_failure(f, s, st.variables@), jobs_failure(f, s, st.jobs@)),
            ),
        ),
    )
}

/// `new` is stage `old` with its name, display name, condition, variables
/// and jobs substituted, the rest as it was.
pub open spec fn stage_done<S, T: Fn(&S, &String) -> Result<String, ParseError>>(f: T, s: S, old: Stage, new: Stage) -> bool {
    &&& opt_done(f, s, old.stage, new.stage)
    &&& opt_done(f, s, old.display_name, new.display_name)
    &&& opt_done(f, s, old.condition, new.condition)
    &&& variables_done(f, s, old.variables@, new.variables@)
    &&& jobs_done(f, s, old.jobs@, new.jobs@)
    &&& new == Stage {
        stage: new.stage,
        display_name: new.display_name,
        condition: new.condition,
        variables: new.variables,
        jobs: new.jobs,
        ..old
    }
}

pub open spec fn stages_failure<S, T: Fn(&S, &String) -> Result<String, ParseError>>(f: T, s: S, vs: Seq<Stage>) -> Option<
    ParseError,
> {
    failures(vs, |v: Stage| stage_failure(f, s, v))
}

pub open spec fn stages_done<S, T: Fn(&S, &String) -> Result<String, ParseError>>(f: T, s: S, old: Seq<Stage>, new: Seq<Stage>) -> bool {
    old.len() == new.len() && forall|i: int| 0 <= i < old.len() ==> #[trigger] stage_done(f, s, old[i], new[i])
}


pub open spec fn pipeline_failure<S, T: Fn(&S, &String) -> Result<String, ParseError>>(f: T, s: S, p: Pipeline) -> Option<
    ParseError,
> {
    first_failure(
        variables_failure(f, s, p.variables@),
        first_failure(
            stages_failure(f, s, p.stages@),
            first_failure(jobs_failure(f, s, p.jobs@), steps_failure(f, s, p.steps@)),
        ),
    )
}

/// `new` is pipeline `old` with its variables, stages, jobs and steps
/// substituted, the rest as it was.
pub open spec fn pipeline_done<S, T: Fn(&S, &String) -> Result<String, ParseError>>(f: T, s: S, old: Pipeline, new: Pipeline) -> bool {
    &&& variables_done(f, s, old.variables@, new.variables@)
    &&& stages_done(f, s, old.stages@, new.stages@)
    &&& jobs_done(f, s, old.jobs@, new.jobs@)
    &&& steps_done(f, s, old.steps@, new.steps@)
    &&& new == Pipeline {
        variables: new.variables,
        stages: new.stages,
        jobs: new.jobs,
        steps: new.steps,
        ..old
    }
}

/// `substitute` may be called on every scope and text.
pub open spec fn substitute_ready<S, T: Fn(&S, &String) -> Result<String, ParseError>>(f: T) -> bool {
    forall|s: &S, a: &String| call_requires(f, (s, a))
}

// ---------------------------------------------------------------------------
// The first failure of a prefix is the first failure of the whole
// ---------------------------------------------------------------------------

proof fn lemma_failures_step<A>(xs: Seq<A>, fail: spec_fn(A) -> Option<ParseError>, i: int)
    requires
        0 <= i < xs.len(),
    ensures
        failures(xs.take(i + 1), fail) == first_failure(failures(xs.take(i), fail), fail(xs[i])),
{
    assert(xs.take(i + 1).drop_last() =~= xs.take(i));
}

proof fn lemma_failures_prefix<A>(xs: Seq<A>, fail: spec_fn(A) -> Option<ParseError>, i: int)
    requires
        0 <= i <= xs.len(),
        failures(xs.take(i), fail) is Some,
    ensures
        failures(xs, fail) == failures(xs.take(i), fail),
    decreases xs.len() - i,
{
    if i < xs.len() {
        lemma_failures_step(xs, fail, i);
        lemma_failures_prefix(xs, fail, i + 1);
    } else {
        assert(xs.take(i) =~= xs);
    }
}

proof fn lemma_failures_whole<A>(xs: Seq<A>, fail: spec_fn(A) -> Option<ParseError>)
    ensures
        failures(xs.take(xs.len() as int), fail) == failures(xs, fail),
{
    assert(xs.take(xs.len() as int) =~= xs);
}

// ---------------------------------------------------------------------------
// Substituting texts
// ---------------------------------------------------------------------------

fn subst_text<S, T: Fn(&S, &String) -> Result<String, ParseError>>(t: &String, scope: &S, subst: &T) -> (r: Result<
    String,
    ParseError,
>)
    requires
        substitute_ready::<S, T>(*subst),
    ensures
        substitute_deterministic::<S, T>(*subst) ==> substitute_out(*subst, *scope, t@) == match r {
            Ok(x) => Ok::<Seq<char>, ParseError>(x@),
            Err(e) => Err(e),
        },
{
    let o = subst(scope, t);
    proof {
        if substitute_deterministic::<S, T>(*subst) {
            lemma_substitute_out(*subst, *scope, *t, o);
        }
    }
    o
}

fn subst_opt<S, T: Fn(&S, &String) -> Result<String, ParseError>>(t: &Option<String>, scope: &S, subst: &T) -> (r: Result<
    Option<String>,
    ParseError,
>)
    requires
        substitute_ready::<S, T>(*subst),
    ensures
        substitute_deterministic::<S, T>(*subst) ==> match opt_failure(*subst, *scope, *t) {
            Some(e) => r == Err::<Option<String>, ParseError>(e),
            None => (r matches Ok(n) && opt_done(*subst, *scope, *t, n)),
        },
{
    match t {
        Some(x) => match subst_text(x, scope, subst) {
            Ok(y) => Ok(Some(y)),
            Err(e) => Err(e),
        },
        None => Ok(None),
    }
}

fn subst_pairs<S, T: Fn(&S, &String) -> Result<String, ParseError>>(ps: &Vec<(String, String)>, scope: &S, subst: &T) -> (r: Result<
    Vec<(String, String)>,
    ParseError,
>)
    requires
        substitute_ready::<S, T>(*subst),
    ensures
        substitute_deterministic::<S, T>(*subst) ==> match pairs_failure(*subst, *scope, ps@) {
            Some(e) => r == Err::<Vec<(String, String)>, ParseError>(e),
            None => (r matches Ok(n) && pairs_view(n@) == pairs_substituted(*subst, *scope, ps@)),
        },
{
    let ghost f = *subst;
    let ghost sc = *scope;
    let ghost fail = |p: (String, String)| first_failure(text_failure(f, sc, p.0), text_failure(f, sc, p.1));
    let mut out: Vec<(String, String)> = Vec::new();
    let mut i: usize = 0;
    while i < ps.len()
        invariant
            i <= ps@.len(),
            f == *subst,
            sc == *scope,
            fail == (|p: (String, String)| first_failure(text_failure(f, sc, p.0), text_failure(f, sc, p.1))),
            substitute_ready::<S, T>(*subst),
            substitute_deterministic::<S, T>(f) ==> failures(ps@.take(i as int), fail) is None,
            substitute_deterministic::<S, T>(f) ==> pairs_view(out@) == pairs_substituted(f, sc, ps@.take(i as int)),
        decreases ps@.len() - i,
    {
        proof {
            if substitute_deterministic::<S, T>(f) {
                lemma_failures_step(ps@, fail, i as int);
                assert(ps@.take(i + 1).drop_last() =~= ps@.take(i as int));
            }
        }
        let k = match subst_text(&ps[i].0, scope, subst) {
            Ok(k) => k,
            Err(e) => {
                proof {
                    if substitute_deterministic::<S, T>(f) {
                        lemma_failures_prefix(ps@, fail, i + 1);
                    }
                }
                return Err(e);
            },
        };
        let v = match subst_text(&ps[i].1, scope, subst) {
            Ok(v) => v,
            Err(e) => {
                proof {
                    if substitute_deterministic::<S, T>(f) {
                        lemma_failures_prefix(ps@, fail, i + 1);
                    }
                }
                return Err(e);
            },
        };
        set_input(&mut out, k, v);
        i = i + 1;
    }
    proof {
        lemma_failures_whole(ps@, fail);
        assert(ps@.take(i as int) =~= ps@);
    }
    Ok(out)
}


fn subst_args<S, T: Fn(&S, &String) -> Result<String, ParseError>>(ps: &Vec<(String, YamlNode)>, scope: &S, subst: &T) -> (r: Result<
    Vec<(String, YamlNode)>,
    ParseError,
>)
    requires
        substitute_ready::<S, T>(*subst),
    ensures
        substitute_deterministic::<S, T>(*subst) ==> match args_failure(*subst, *scope, ps@) {
            Some(e) => r == Err::<Vec<(String, YamlNode)>, ParseError>(e),
            None => (r matches Ok(n) && params_view(n@) == args_substituted(*subst, *scope, ps@)),
        },
{
    let ghost f = *subst;
    let ghost sc = *scope;
    let ghost fail = |p: (String, YamlNode)| arg_failure(f, sc, p.1);
    let mut out: Vec<(String, YamlNode)> = Vec::new();
    let mut i: usize = 0;
    while i < ps.len()
        invariant
            i <= ps@.len(),
            f == *subst,
            sc == *scope,
            fail == (|p: (String, YamlNode)| arg_failure(f, sc, p.1)),
            substitute_ready::<S, T>(*subst),
            substitute_deterministic::<S, T>(f) ==> failures(ps@.take(i as int), fail) is None,
            substitute_deterministic::<S, T>(f) ==> params_view(out@) == args_substituted(f, sc, ps@.take(i as int)),
        decreases ps@.len() - i,
    {
        proof {
            if substitute_deterministic::<S, T>(f) {
                lemma_failures_step(ps@, fail, i as int);
                assert(ps@.take(i + 1).drop_last() =~= ps@.take(i as int));
            }
        }
        let v = match &ps[i].1 {
            YamlNode::String(t) => match subst_text(t, scope, subst) {
                Ok(x) => YamlNode::String(x),
                Err(e) => {
                    proof {
                        if substitute_deterministic::<S, T>(f) {
                            lemma_failures_prefix(ps@, fail, i + 1);
                        }
                    }
                    return Err(e);
                },
            },
            other => clone_node(other),
        };
        set_param(&mut out, ps[i].0.clone(), v);
        i = i + 1;
    }
    proof {
        lemma_failures_whole(ps@, fail);
        assert(ps@.take(i as int) =~= ps@);
    }
    Ok(out)
}

impl TemplateEngine {
    /// A variable with the compile-time expressions in the name and value of
    /// a key-value definition substituted; a group or template reference is
    /// kept.
    pub fn substitute_variable_params<S, T: Fn(&S, &String) -> Result<String, ParseError>>(
        &self,
        var: Variable,
        scope: &S,
        subst: &T,
    ) -> (r: Result<Variable, ParseError>)
        requires
            substitute_ready::<S, T>(*subst),
        ensures
            substitute_deterministic::<S, T>(*subst) ==> match variable_failure(*subst, *scope, var) {
                Some(e) => r == Err::<Variable, ParseError>(e),
                None => (r matches Ok(n) && variable_done(*subst, *scope, var, n)),
            },
    {
        match var {
            Variable::KeyValue { name, value, readonly } => {
                let n = match subst_text(&name, scope, subst) {
                    Ok(n) => n,
                    Err(e) => return Err(e),
                };
                let v = match subst_text(&value, scope, subst) {
                    Ok(v) => v,
                    Err(e) => return Err(e),
                };
                Ok(Variable::KeyValue { name: n, value: v, readonly })
            },
            other => Ok(other),
        }
    }

    /// A step's action with the compile-time expressions substituted: the
    /// script and working directory of a script step, the task name and
    /// inputs of a task step, the template path and string arguments of a
    /// template step; any other action is kept.
    pub fn substitute_step_action_params<S, T: Fn(&S, &String) -> Result<String, ParseError>>(
        &self,
        action: StepAction,
        scope: &S,
        subst: &T,
    ) -> (r: Result<StepAction, ParseError>)
        requires
            substitute_ready::<S, T>(*subst),
        ensures
            substitute_deterministic::<S, T>(*subst) ==> match action_failure(*subst, *scope, action) {
                Some(e) => r == Err::<StepAction, ParseError>(e),
                None => (r matches Ok(n) && action_done(*subst, *scope, action, n)),
            },
    {
        match action {
            StepAction::Script(x) => {
                let script = match subst_text(&x.script, scope, subst) {
                    Ok(v) => v,
                    Err(e) => return Err(e),
                };
                let wd = match subst_opt(&x.working_directory, scope, subst) {
                    Ok(v) => v,
                    Err(e) => return Err(e),
                };
                Ok(StepAction::Script(ScriptStep { script, working_directory: wd, fail_on_stderr: x.fail_on_stderr }))
            },
            StepAction::Bash(x) => {
                let bash = match subst_text(&x.bash, scope, subst) {
                    Ok(v) => v,
                    Err(e) => return Err(e),
                };
                let wd = match subst_opt(&x.working_directory, scope, subst) {
                    Ok(v) => v,
                    Err(e) => return Err(e),
                };
                Ok(StepAction::Bash(BashStep { bash, working_directory: wd, fail_on_stderr: x.fail_on_stderr }))
            },
            StepAction::Pwsh(x) => {
                let pwsh = match subst_text(&x.pwsh, scope, subst) {
                    Ok(v) => v,
                    Err(e) => return Err(e),
                };
                let wd = match subst_opt(&x.working_directory, scope, subst) {
                    Ok(v) => v,
                    Err(e) => return Err(e),
                };
                Ok(
                    StepAction::Pwsh(
                        PwshStep {
                            pwsh,
                            working_directory: wd,
                            fail_on_stderr: x.fail_on_stderr,
                            error_action_preference: x.error_action_preference,
                        },
                    ),
                )
            },
            StepAction::PowerShell(x) => {
                let powershell = match subst_text(&x.powershell, scope, subst) {
                    Ok(v) => v,
                    Err(e) => return Err(e),
                };
                let wd = match subst_opt(&x.working_directory, scope, subst) {
                    Ok(v) => v,
                    Err(e) => return Err(e),
                };
                Ok(
                    StepAction::PowerShell(
                        PowerShellStep {
                            powershell,
                            working_directory: wd,
                            fail_on_stderr: x.fail_on_stderr,
                            error_action_preference: x.error_action_preference,
                        },
                    ),
                )
            },
            StepAction::Task(x) => {
                let task = match subst_text(&x.task, scope, subst) {
                    Ok(v) => v,
                    Err(e) => return Err(e),
                };
                let inputs = match subst_pairs(&x.inputs, scope, subst) {
                    Ok(v) => v,
                    Err(e) => return Err(e),
                };
                Ok(StepAction::Task(TaskStep { task, inputs }))
            },
            StepAction::Template(x) => {
                let template = match subst_text(&x.template, scope, subst) {
                    Ok(v) => v,
                    Err(e) => return Err(e),
                };
                let parameters = match subst_args(&x.parameters, scope, subst) {
                    Ok(v) => v,
                    Err(e) => return Err(e),
                };
                Ok(StepAction::Template(TemplateStep { template, parameters }))
            },
            other => Ok(other),
        }
    }

    /// A step with the compile-time expressions in its display name,
    /// condition, action and environment substituted; the rest is kept.
    pub fn substitute_step_params<S, T: Fn(&S, &String) -> Result<String, ParseError>>(
        &self,
        step: Step,
        scope: &S,
        subst: &T,
    ) -> (r: Result<Step, ParseError>)
        requires
            substitute_ready::<S, T>(*subst),
        ensures
            substitute_deterministic::<S, T>(*subst) ==> match step_failure(*subst, *scope, step) {
                Some(e) => r == Err::<Step, ParseError>(e),
                None => (r matches Ok(n) && step_done(*subst, *scope, step, n)),
            },
    {
        let Step {
            name,
            display_name,
            condition,
            continue_on_error,
            enabled,
            timeout_in_minutes,
            retry_count_on_task_failure,
            env,
            action,
        } = step;
        let display_name = match subst_opt(&display_name, scope, subst) {
            Ok(v) => v,
            Err(e) => return Err(e),
        };
        let condition = match subst_opt(&condition, scope, subst) {
            Ok(v) => v,
            Err(e) => return Err(e),
        };
        let action = match self.substitute_step_action_params(action, scope, subst) {
            Ok(v) => v,
            Err(e) => return Err(e),
        };
        let env = match subst_pairs(&env, scope, subst) {
            Ok(v) => v,
            Err(e) => return Err(e),
        };
        Ok(
            Step {
                name,
                display_name,
                condition,
                continue_on_error,
                enabled,
                timeout_in_minutes,
                retry_count_on_task_failure,
                env,
                action,
            },
        )
    }
}


impl TemplateEngine {
    #[verifier::loop_isolation(false)]
    fn substitute_variables<S, T: Fn(&S, &String) -> Result<String, ParseError>>(
        &self,
        items: Vec<Variable>,
        scope: &S,
        subst: &T,
    ) -> (r: Result<Vec<Variable>, ParseError>)
        requires
            substitute_ready::<S, T>(*subst),
        ensures
            substitute_deterministic::<S, T>(*subst) ==> match variables_failure(*subst, *scope, items@) {
                Some(e) => r == Err::<Vec<Variable>, ParseError>(e),
                None => (r matches Ok(n) && variables_done(*subst, *scope, items@, n@)),
            },
    {
        let ghost f = *subst;
        let ghost sc = *scope;
        let ghost all = items@;
        let ghost fail = |v: Variable| variable_failure(f, sc, v);
        let mut rest = items;
        let mut out: Vec<Variable> = Vec::new();
        while rest.len() > 0
            invariant
                f == *subst,
                sc == *scope,
                fail == (|v: Variable| variable_failure(f, sc, v)),
                substitute_ready::<S, T>(*subst),
                out@.len() + rest@.len() == all.len(),
                rest@ == all.subrange(out@.len() as int, all.len() as int),
                substitute_deterministic::<S, T>(f) ==> failures(all.take(out@.len() as int), fail) is None,
                substitute_deterministic::<S, T>(f) ==> forall|j: int|
                    0 <= j < out@.len() ==> #[trigger] variable_done(f, sc, all[j], out@[j]),
            decreases rest@.len(),
        {
            let ghost i = out@.len() as int;
            proof {
                if substitute_deterministic::<S, T>(f) {
                    lemma_failures_step(all, fail, i);
                }
            }
            let item = rest.remove(0);
            proof {
                assert(rest@ =~= all.subrange(i + 1, all.len() as int));
                assert(item == all[i]);
            }
            match self.substitute_variable_params(item, scope, subst) {
                Ok(n) => {
                    out.push(n);
                },
                Err(e) => {
                    proof {
                        if substitute_deterministic::<S, T>(f) {
                            lemma_failures_prefix(all, fail, i + 1);
                        }
                    }
                    return Err(e);
                },
            }
        }
        proof {
            lemma_failures_whole(all, fail);
        }
        Ok(out)
    }

    #[verifier::loop_isolation(false)]
    fn substitute_steps<S, T: Fn(&S, &String) -> Result<String, ParseError>>(
        &self,
        items: Vec<Step>,
        scope: &S,
        subst: &T,
    ) -> (r: Result<Vec<Step>, ParseError>)
        requires
            substitute_ready::<S, T>(*subst),
        ensures
            substitute_deterministic::<S, T>(*subst) ==> match steps_failure(*subst, *scope, items@) {
                Some(e) => r == Err::<Vec<Step>, ParseError>(e),
                None => (r matches Ok(n) && steps_done(*subst, *scope, items@, n@)),
            },
    {
        let ghost f = *subst;
        let ghost sc = *scope;
        let ghost all = items@;
        let ghost fail = |v: Step| step_failure(f, sc, v);
        let mut rest = items;
        let mut out: Vec<Step> = Vec::new();
        while rest.len() > 0
            invariant
                f == *subst,
                sc == *scope,
                fail == (|v: Step| step_failure(f, sc, v)),
                substitute_ready::<S, T>(*subst),
                out@.len() + rest@.len() == all.len(),
                rest@ == all.subrange(out@.len() as int, all.len() as int),
                substitute_deterministic::<S, T>(f) ==> failures(all.take(out@.len() as int), fail) is None,
                substitute_deterministic::<S, T>(f) ==> forall|j: int|
                    0 <= j < out@.len() ==> #[trigger] step_done(f, sc, all[j], out@[j]),
            decreases rest@.len(),
        {
            let ghost i = out@.len() as int;
            proof {
                if substitute_deterministic::<S, T>(f) {
                    lemma_failures_step(all, fail, i);
                }
            }
            let item = rest.remove(0);
            proof {
                assert(rest@ =~= all.subrange(i + 1, all.len() as int));
                assert(item == all[i]);
            }
            match self.substitute_step_params(item, scope, subst) {
                Ok(n) => {
                    out.push(n);
                },
                Err(e) => {
                    proof {
                        if substitute_deterministic::<S, T>(f) {
                            lemma_failures_prefix(all, fail, i + 1);
                        }
                    }
                    return Err(e);
                },
            }
        }
        proof {
            lemma_failures_whole(all, fail);
        }
        Ok(out)
    }

    #[verifier::loop_isolation(false)]
    fn substitute_jobs<S, T: Fn(&S, &String) -> Result<String, ParseError>>(
        &self,
        items: Vec<Job>,
        scope: &S,
        subst: &T,
    ) -> (r: Result<Vec<Job>, ParseError>)
        requires
            substitute_ready::<S, T>(*subst),
        ensures
            substitute_deterministic::<S, T>(*subst) ==> match jobs_failure(*subst, *scope, items@) {
                Some(e) => r == Err::<Vec<Job>, ParseError>(e),
                None => (r matches Ok(n) && jobs_done(*subst, *scope, items@, n@)),
            },
    {
        let ghost f = *subst;
        let ghost sc = *scope;
        let ghost all = items@;
        let ghost fail = |v: Job| job_failure(f, sc, v);
        let mut rest = items;
        let mut out: Vec<Job> = Vec::new();
        while rest.len() > 0
            invariant
                f == *subst,
                sc == *scope,
                fail == (|v: Job| job_failure(f, sc, v)),
                substitute_ready::<S, T>(*subst),
                out@.len() + rest@.len() == all.len(),
                rest@ == all.subrange(out@.len() as int, all.len() as int),
                substitute_deterministic::<S, T>(f) ==> failures(all.take(out@.len() as int), fail) is None,
                substitute_deterministic::<S, T>(f) ==> forall|j: int|
                    0 <= j < out@.len() ==> #[trigger] job_done(f, sc, all[j], out@[j]),
            decreases rest@.len(),
        {
            let ghost i = out@.len() as int;
            proof {
                if substitute_deterministic::<S, T>(f) {
                    lemma_failures_step(all, fail, i);
                }
            }
            let item = rest.remove(0);
            proof {
                assert(rest@ =~= all.subrange(i + 1, all.len() as int));
                assert(item == all[i]);
            }
            match self.substitute_job_params(item, scope, subst) {
                Ok(n) => {
                    out.push(n);
                },
                Err(e) => {
                    proof {
                        if substitute_deterministic::<S, T>(f) {
                            lemma_failures_prefix(all, fail, i + 1);
                        }
                    }
                    return Err(e);
                },
            }
        }
        proof {
            lemma_failures_whole(all, fail);
        }
        Ok(out)
    }

    #[verifier::loop_isolation(false)]
    fn substitute_stages<S, T: Fn(&S, &String) -> Result<String, ParseError>>(
        &self,
        items: Vec<Stage>,
        scope: &S,
        subst: &T,
    ) -> (r: Result<Vec<Stage>, ParseError>)
        requires
            substitute_ready::<S, T>(*subst),
        ensures
            substitute_deterministic::<S, T>(*subst) ==> match stages_failure(*subst, *scope, items@) {
                Some(e) => r == Err::<Vec<Stage>, ParseError>(e),
                None => (r matches Ok(n) && stages_done(*subst, *scope, items@, n@)),
            },
    {
        let ghost f = *subst;
        let ghost sc = *scope;
        let ghost all = items@;
        let ghost fail = |v: Stage| stage_failure(f, sc, v);
        let mut rest = items;
        let mut out: Vec<Stage> = Vec::new();
        while rest.len() > 0
            invariant
                f == *subst,
                sc == *scope,
                fail == (|v: Stage| stage_failure(f, sc, v)),
                substitute_ready::<S, T>(*subst),
                out@.len() + rest@.len() == all.len(),
                rest@ == all.subrange(out@.len() as int, all.len() as int),
                substitute_deterministic::<S, T>(f) ==> failures(all.take(out@.len() as int), fail) is None,
                substitute_deterministic::<S, T>(f) ==> forall|j: int|
                    0 <= j < out@.len() ==> #[trigger] stage_done(f, sc, all[j], out@[j]),
            decreases rest@.len(),
        {
            let ghost i = out@.len() as int;
            proof {
                if substitute_deterministic::<S, T>(f) {
                    lemma_failures_step(all, fail, i);
                }
            }
            let item = rest.remove(0);
            proof {
                assert(rest@ =~= all.subrange(i + 1, all.len() as int));
                assert(item == all[i]);
            }
            match self.substitute_stage_params(item, scope, subst) {
                Ok(n) => {
                    out.push(n);
                },
                Err(e) => {
                    proof {
                        if substitute_deterministic::<S, T>(f) {
                            lemma_failures_prefix(all, fail, i + 1);
                        }
                    }
                    return Err(e);
                },
            }
        }
        proof {
            lemma_failures_whole(all, fail);
        }
        Ok(out)
    }

    /// A job with the compile-time expressions in its name, display name,
    /// condition, variables and steps substituted; the rest is kept.
    pub fn substitute_job_params<S, T: Fn(&S, &String) -> Result<String, ParseError>>(
        &self,
        job: Job,
        scope: &S,
        subst: &T,
    ) -> (r: Result<Job, ParseError>)
        requires
            substitute_ready::<S, T>(*subst),
        ensures
            substitute_deterministic::<S, T>(*subst) ==> match job_failure(*subst, *scope, job) {
                Some(e) => r == Err::<Job, ParseError>(e),
                None => (r matches Ok(n) && job_done(*subst, *scope, job, n)),
            },
    {
        let mut j = job;
        let name = match subst_opt(&j.job, scope, subst) {
            Ok(v) => v,
            Err(e) => return Err(e),
        };
        let display_name = match subst_opt(&j.display_name, scope, subst) {
            Ok(v) => v,
            Err(e) => return Err(e),
        };
        let condition = match subst_opt(&j.condition, scope, subst) {
            Ok(v) => v,
            Err(e) => return Err(e),
        };
        let mut variables: Vec<Variable> = Vec::new();
        core::mem::swap(&mut variables, &mut j.variables);
        let variables = match self.substitute_variables(variables, scope, subst) {
            Ok(v) => v,
            Err(e) => return Err(e),
        };
        let mut steps: Vec<Step> = Vec::new();
        core::mem::swap(&mut steps, &mut j.steps);
        let steps = match self.substitute_steps(steps, scope, subst) {
            Ok(v) => v,
            Err(e) => return Err(e),
        };
        j.job = name;
        j.display_name = display_name;
        j.condition = condition;
        j.variables = variables;
        j.steps = steps;
        Ok(j)
    }

    /// A stage with the compile-time expressions in its name, display name,
    /// condition, variables and jobs substituted; the rest is kept.
    pub fn substitute_stage_params<S, T: Fn(&S, &String) -> Result<String, ParseError>>(
        &self,
        stage: Stage,
        scope: &S,
        subst: &T,
    ) -> (r: Result<Stage, ParseError>)
        requires
            substitute_ready::<S, T>(*subst),
        ensures
            substitute_deterministic::<S, T>(*subst) ==> match stage_failure(*subst, *scope, stage) {
                Some(e) => r == Err::<Stage, ParseError>(e),
                None => (r matches Ok(n) && stage_done(*subst, *scope, stage, n)),
            },
    {
        let mut st = stage;
        let name = match subst_opt(&st.stage, scope, subst) {
            Ok(v) => v,
            Err(e) => return Err(e),
        };
        let display_name = match subst_opt(&st.display_name, scope, subst) {
            Ok(v) => v,
            Err(e) => return Err(e),
        };
        let condition = match subst_opt(&st.condition, scope, subst) {
            Ok(v) => v,
            Err(e) => return Err(e),
        };
        let mut variables: Vec<Variable> = Vec::new();
        core::mem::swap(&mut variables, &mut st.variables);
        let variables = match self.substitute_variables(variables, scope, subst) {
            Ok(v) => v,
            Err(e) => return Err(e),
        };
        let mut jobs: Vec<Job> = Vec::new();
        core::mem::swap(&mut jobs, &mut st.jobs);
        let jobs = match self.substitute_jobs(jobs, scope, subst) {
            Ok(v) => v,
            Err(e) => return Err(e),
        };
        st.stage = name;
        st.display_name = display_name;
        st.condition = condition;
        st.variables = variables;
        st.jobs = jobs;
        Ok(st)
    }
}


impl TemplateEngine {
    /// A pipeline with the compile-time expressions in its variables,
    /// stages, jobs and steps substituted in the scope of a template's
    /// parameters, in that order; the first failure is returned.
    pub fn substitute_template_parameters<S, T: Fn(&S, &String) -> Result<String, ParseError>>(
        &self,
        pipeline: Pipeline,
        scope: &S,
        subst: &T,
    ) -> (r: Result<Pipeline, ParseError>)
        requires
            substitute_ready::<S, T>(*subst),
        ensures
            substitute_deterministic::<S, T>(*subst) ==> match pipeline_failure(*subst, *scope, pipeline) {
                Some(e) => r == Err::<Pipeline, ParseError>(e),
                None => (r matches Ok(n) && pipeline_done(*subst, *scope, pipeline, n)),
            },
    {
        let mut p = pipeline;
        let mut variables: Vec<Variable> = Vec::new();
        core::mem::swap(&mut variables, &mut p.variables);
        let variables = match self.substitute_variables(variables, scope, subst) {
            Ok(v) => v,
            Err(e) => return Err(e),
        };
        let mut stages: Vec<Stage> = Vec::new();
        core::mem::swap(&mut stages, &mut p.stages);
        let stages = match self.substitute_stages(stages, scope, subst) {
            Ok(v) => v,
            Err(e) => return Err(e),
        };
        let mut jobs: Vec<Job> = Vec::new();
        core::mem::swap(&mut jobs, &mut p.jobs);
        let jobs = match self.substitute_jobs(jobs, scope, subst) {
            Ok(v) => v,
            Err(e) => return Err(e),
        };
        let mut steps: Vec<Step> = Vec::new();
        core::mem::swap(&mut steps, &mut p.steps);
        let steps = match self.substitute_steps(steps, scope, subst) {
            Ok(v) => v,
            Err(e) => return Err(e),
        };
        p.variables = variables;
        p.stages = stages;
        p.jobs = jobs;
        p.steps = steps;
        Ok(p)
    }
}

} // verus!
