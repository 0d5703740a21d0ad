//! Resolving the template references of a pipeline: `extends`, variable,
//! stage, job and step templates, each expanded in the scope of its
//! parameters and resolved again inside.
//!
//! Reading files is the caller's: the files found so far are handed in as
//! `TemplateFiles`, and a reference to a file that is not among them stops
//! the resolution with `Halt::NeedTemplate` or `Halt::NeedBase`.  The caller
//! then finds and reads that file, adds it, and resolves again from the
//! start; resolution is a function of the files and the pipeline, so the
//! repeat reaches the same point and goes further.

use vstd::prelude::*;
use crate::expansion::{evaluators_deterministic, evaluators_ready, Evaluators, YamlNode};
use crate::models::{Extends, Job, Pipeline, Stage, Step, StepAction, Variable};
use crate::expansion::NodeView;
use crate::parameters::{
    expanded_content, failure_matches, params_view, resolved_parameters, ParamFailure, RawTemplateContent, RawTemplateFile,
};
use crate::parse_error::{ParseError, ParseErrorKind};
use crate::template::{cycle_message, depth_message, str_eq, TemplateEngine, TemplateError, TemplateErrorKind, MAX_TEMPLATE_DEPTH};
use crate::template_substitution::{
    job_failure, pipeline_failure, stage_failure, step_failure, substitute_deterministic, substitute_ready, variable_done,
    variable_failure, variables_done,
};

verus! {

broadcast use vstd::string::group_string_axioms;

/// What the caller found for a template reference.
pub enum TemplateSource {
    /// No file answers the reference; the error says where it was looked for.
    Missing(ParseError),
    /// The file at `canonical` could not be read, for `reason`.
    Unreadable { canonical: String, reason: String },
    /// The file at `canonical`, parsed as a template, or the error of parsing it.
    Loaded { canonical: String, file: Result<RawTemplateFile, ParseError> },
}

/// What the caller found for the template that a pipeline extends.
pub enum BaseSource {
    /// No file answers the reference; the error says where it was looked for.
    Missing(ParseError),
    /// The file at `canonical` could not be read, for `reason`.
    Unreadable { canonical: String, reason: String },
    /// The text of the file at `canonical`.
    Loaded { canonical: String, text: String },
}

/// The files found so far, by the reference that named them.
pub struct TemplateFiles {
    pub templates: Vec<(String, TemplateSource)>,
    pub bases: Vec<(String, BaseSource)>,
}

/// A template's content once read into pipeline items.
pub enum TemplateContent {
    Steps(Vec<Step>),
    Jobs(Vec<Job>),
    Stages(Vec<Stage>),
    Variables(Vec<Variable>),
    Pipeline(Box<Pipeline>),
}

/// Why a resolution stopped.
pub enum Halt {
    /// It failed with this error.
    Failed(ParseError),
    /// It needs the template file named by this reference.
    NeedTemplate(String),
    /// It needs the pipeline file that this reference extends.
    NeedBase(String),
}

/// What resolution calls on: the evaluators of template expressions, the
/// scope built from a template's resolved parameters, the reading of an
/// expanded template's content into pipeline items (the error's text on
/// failure), and the parsing of a pipeline file's text.
pub struct TemplateHooks<C, E, T, B, R, P> {
    pub evaluators: Evaluators<C, E, T>,
    pub scope_of: B,
    pub read: R,
    pub parse: P,
}

/// Each hook can be called on any arguments.
pub open spec fn hooks_ready<
    S,
    C: Fn(&S, &String) -> Result<bool, String>,
    E: Fn(&S, &String, &String) -> Result<Result<Vec<S>, String>, String>,
    T: Fn(&S, &String) -> Result<String, ParseError>,
    B: Fn(&Vec<(String, YamlNode)>) -> S,
    R: Fn(&RawTemplateContent) -> Result<TemplateContent, String>,
    P: Fn(&String) -> Result<Pipeline, ParseError>,
>(h: TemplateHooks<C, E, T, B, R, P>) -> bool {
    &&& evaluators_ready(h.evaluators)
    &&& forall|p: &Vec<(String, YamlNode)>| call_requires(h.scope_of, (p,))
    &&& forall|c: &RawTemplateContent| call_requires(h.read, (c,))
    &&& forall|t: &String| call_requires(h.parse, (t,))
}

/// The references among `files`.
pub open spec fn template_refs(files: Seq<(String, TemplateSource)>) -> Set<Seq<char>> {
    Set::new(|r: Seq<char>| exists|i: int| 0 <= i < files.len() && files[i].0@ == r)
}

pub open spec fn base_refs(files: Seq<(String, BaseSource)>) -> Set<Seq<char>> {
    Set::new(|r: Seq<char>| exists|i: int| 0 <= i < files.len() && files[i].0@ == r)
}

/// A halt asks only for a file that was not handed in.
pub open spec fn asks_new(h: Halt, files: TemplateFiles) -> bool {
    match h {
        Halt::NeedTemplate(r) => !template_refs(files.templates@).contains(r@),
        Halt::NeedBase(r) => !base_refs(files.bases@).contains(r@),
        Halt::Failed(_) => true,
    }
}

/// The engine's include stack, repository root and resource repositories
/// are as they were, and the stack is well formed.
pub open spec fn engine_kept(before: TemplateEngine, after: TemplateEngine) -> bool {
    &&& after.wf()
    &&& after.stack() == before.stack()
    &&& after.root() == before.root()
    &&& after.repos() == before.repos()
}

pub open spec fn depth_left(e: TemplateEngine) -> int {
    MAX_TEMPLATE_DEPTH - e.stack().len()
}

// ---------------------------------------------------------------------------
// Errors
// ---------------------------------------------------------------------------

fn copy_text(t: &String) -> (r: String)
    ensures
        r == *t,
{
    t.clone()
}

fn copy_error(e: &ParseError) -> (r: ParseError)
    ensures
        r == *e,
{
    let suggestion = match &e.suggestion {
        Some(s) => Some(copy_text(s)),
        None => None,
    };
    ParseError {
        message: copy_text(&e.message),
        line: e.line,
        column: e.column,
        context: copy_text(&e.context),
        suggestion,
        kind: e.kind,
    }
}

/// `a` followed by `b` and `c`.
fn concat3(a: &str, b: &str, c: &str) -> (r: String)
    ensures
        r@ == a@ + b@ + c@,
{
    let mut r = String::from_str(a);
    r.append(b);
    r.append(c);
    r
}

/// The message of a template error of `kind` about `template_ref`.
fn template_failure(msg: &String, kind: TemplateErrorKind, template_ref: &str) -> (e: ParseError)
    ensures
        e.message@ == "template error in '"@ + template_ref@ + "': "@ + msg@,
        e.kind == ParseErrorKind::TemplateError,
        e.line == 0,
        e.column == 0,
{
    let t = TemplateError::new(msg.as_str(), kind).with_path(template_ref);
    proof {
        reveal_strlit("template error in ");
        reveal_strlit("': ");
        assert(("template error in '"@ + template_ref@ + "': "@ + msg@) =~= "template error in "@ + seq!['\'']
            + template_ref@ + seq!['\'', ':', ' '] + msg@) by {
            reveal_strlit("template error in '");
        }
    }
    t.to_parse_error()
}

/// The message of a failed read of the template `template_ref`.
pub open spec fn unreadable_message(template_ref: Seq<char>, reason: Seq<char>) -> Seq<char> {
    "failed to read template '"@ + template_ref + "': "@ + reason
}

/// The message of a failed read of the pipeline that a pipeline extends.
pub open spec fn unreadable_base_message(reason: Seq<char>) -> Seq<char> {
    "failed to read extends template: "@ + reason
}

/// The message of an extended pipeline that does not parse.
pub open spec fn base_error_message(template_ref: Seq<char>, message: Seq<char>) -> Seq<char> {
    "error in extends template '"@ + template_ref + "': "@ + message
}

/// The name of the kind of items that raw content holds, as read errors say it.
pub open spec fn raw_kind_name(c: RawTemplateContent) -> Seq<char> {
    match c {
        RawTemplateContent::Steps(_) => "steps"@,
        RawTemplateContent::Jobs(_) => "jobs"@,
        RawTemplateContent::Stages(_) => "stages"@,
        RawTemplateContent::Variables(_) => "variables"@,
        RawTemplateContent::Pipeline(_) => "pipeline"@,
    }
}

/// The message of content of template `template_ref` that could not be
/// read, the reader having said `reason`.
pub open spec fn read_message(c: RawTemplateContent, template_ref: Seq<char>, reason: Seq<char>) -> Seq<char> {
    match c {
        RawTemplateContent::Pipeline(_) => "template '"@ + template_ref + "' is not a valid template file: "@ + reason,
        _ => "error parsing "@ + raw_kind_name(c) + " in template '"@ + template_ref + "': "@ + reason,
    }
}

/// The name of the kind of items that content holds.
pub open spec fn content_kind_name(c: TemplateContent) -> Seq<char> {
    match c {
        TemplateContent::Steps(_) => "steps"@,
        TemplateContent::Jobs(_) => "jobs"@,
        TemplateContent::Stages(_) => "stages"@,
        TemplateContent::Variables(_) => "variables"@,
        TemplateContent::Pipeline(_) => "pipeline"@,
    }
}

fn content_kind_text(c: &TemplateContent) -> (r: &'static str)
    ensures
        r@ == content_kind_name(*c),
{
    match c {
        TemplateContent::Steps(_) => "steps",
        TemplateContent::Jobs(_) => "jobs",
        TemplateContent::Stages(_) => "stages",
        TemplateContent::Variables(_) => "variables",
        TemplateContent::Pipeline(_) => "pipeline",
    }
}

/// The message of a template used where its content is of another kind.
pub open spec fn mismatch_message(template_ref: Seq<char>, wanted: Seq<char>, found: TemplateContent) -> Seq<char> {
    if wanted == "variables"@ {
        "template '"@ + template_ref + "' does not contain variables (found \""@ + content_kind_name(found)
            + "\" content instead)"@
    } else {
        "template '"@ + template_ref + "' does not contain "@ + wanted
    }
}

fn mismatch_error(template_ref: &String, wanted: &str, found: &TemplateContent) -> (e: ParseError)
    ensures
        e.message@ == "template error in '"@ + template_ref@ + "': "@ + mismatch_message(template_ref@, wanted@, *found),
        e.kind == ParseErrorKind::TemplateError,
{
    let head = concat3("template '", template_ref.as_str(), "' does not contain ");
    let mut msg = head;
    msg.append(wanted);
    proof {
        reveal_strlit("variables");
    }
    if str_eq(wanted, "variables") {
        msg.append(" (found \"");
        msg.append(content_kind_text(found));
        msg.append("\" content instead)");
        proof {
            reveal_strlit("' does not contain ");
            reveal_strlit("' does not contain variables (found \"");
            reveal_strlit(" (found \"");
            assert(msg@ =~= "template '"@ + template_ref@ + "' does not contain variables (found \""@
                + content_kind_name(*found) + "\" content instead)"@);
        }
    }
    template_failure(&msg, TemplateErrorKind::TypeMismatch, template_ref.as_str())
}

// ---------------------------------------------------------------------------
// Finding files
// ---------------------------------------------------------------------------

/// `i` is the first entry of `files` for reference `r`.
pub open spec fn first_at(files: Seq<(String, TemplateSource)>, r: Seq<char>, i: int) -> bool {
    &&& 0 <= i < files.len()
    &&& files[i].0@ == r
    &&& forall|j: int| 0 <= j < i ==> files[j].0@ != r
}

/// The source handed in first for reference `r`, if any.
pub open spec fn first_source(files: Seq<(String, TemplateSource)>, r: Seq<char>) -> Option<TemplateSource> {
    if exists|i: int| first_at(files, r, i) {
        Some(files[choose|i: int| first_at(files, r, i)].1)
    } else {
        None
    }
}

proof fn lemma_first_at_unique(files: Seq<(String, TemplateSource)>, r: Seq<char>, i: int, j: int)
    requires
        first_at(files, r, i),
        first_at(files, r, j),
    ensures
        i == j,
{
    if i < j {
        assert(files[i].0@ != r);
    } else if j < i {
        assert(files[j].0@ != r);
    }
}

fn find_template<'a>(files: &'a Vec<(String, TemplateSource)>, r: &String) -> (o: Option<&'a TemplateSource>)
    ensures
        match o {
            Some(s) => exists|i: int| 0 <= i < files@.len() && files@[i].0@ == r@ && files@[i].1 == *s,
            None => !template_refs(files@).contains(r@),
        },
        match o {
            Some(s) => first_source(files@, r@) == Some(*s),
            None => first_source(files@, r@) is None,
        },
{
    let mut i: usize = 0;
    while i < files.len()
        invariant
            i <= files@.len(),
            forall|j: int| 0 <= j < i ==> files@[j].0@ != r@,
        decreases files@.len() - i,
    {
        if str_eq(files[i].0.as_str(), r.as_str()) {
            proof {
                assert(first_at(files@, r@, i as int));
                let j = choose|j: int| first_at(files@, r@, j);
                lemma_first_at_unique(files@, r@, i as int, j);
            }
            return Some(&files[i].1);
        }
        i = i + 1;
    }
    proof {
        assert(!(exists|j: int| first_at(files@, r@, j)));
    }
    None
}

fn find_base<'a>(files: &'a Vec<(String, BaseSource)>, r: &String) -> (o: Option<&'a BaseSource>)
    ensures
        match o {
            Some(s) => exists|i: int| 0 <= i < files@.len() && files@[i].0@ == r@ && files@[i].1 == *s,
            None => !base_refs(files@).contains(r@),
        },
{
    let mut i: usize = 0;
    while i < files.len()
        invariant
            i <= files@.len(),
            forall|j: int| 0 <= j < i ==> files@[j].0@ != r@,
        decreases files@.len() - i,
    {
        if str_eq(files[i].0.as_str(), r.as_str()) {
            return Some(&files[i].1);
        }
        i = i + 1;
    }
    None
}


// ---------------------------------------------------------------------------
// What resolution leaves
// ---------------------------------------------------------------------------

/// No step of `steps` is a template reference.
pub open spec fn steps_free(steps: Seq<Step>) -> bool {
    forall|i: int| 0 <= i < steps.len() ==> !(#[trigger] steps[i].action is Template)
}

/// No variable of `vars` is a template reference.
pub open spec fn vars_free(vars: Seq<Variable>) -> bool {
    forall|i: int| 0 <= i < vars.len() ==> !(#[trigger] vars[i] is Template)
}

/// No job of `jobs` has a step that is a template reference.
pub open spec fn jobs_steps_free(jobs: Seq<Job>) -> bool {
    forall|i: int| 0 <= i < jobs.len() ==> steps_free(#[trigger] jobs[i].steps@)
}

/// No job of any stage of `stages` has a step that is a template reference.
pub open spec fn stages_steps_free(stages: Seq<Stage>) -> bool {
    forall|i: int| 0 <= i < stages.len() ==> jobs_steps_free(#[trigger] stages[i].jobs@)
}

/// A job that names no template, nor does any of its variables or steps.
pub open spec fn job_free(j: Job) -> bool {
    &&& j.template is None
    &&& vars_free(j.variables@)
    &&& steps_free(j.steps@)
}

pub open spec fn jobs_free(jobs: Seq<Job>) -> bool {
    forall|i: int| 0 <= i < jobs.len() ==> job_free(#[trigger] jobs[i])
}

/// A stage that names no template, nor does anything in it.
pub open spec fn stage_free(s: Stage) -> bool {
    &&& s.template is None
    &&& vars_free(s.variables@)
    &&& jobs_free(s.jobs@)
}

pub open spec fn stages_free(stages: Seq<Stage>) -> bool {
    forall|i: int| 0 <= i < stages.len() ==> stage_free(#[trigger] stages[i])
}

/// Job `b` is job `a`: the same fields, and vectors of the same items.
pub open spec fn job_same(a: Job, b: Job) -> bool {
    &&& b.variables@ == a.variables@
    &&& b.steps@ == a.steps@
    &&& b == Job { variables: b.variables, steps: b.steps, ..a }
}

pub open spec fn jobs_same(a: Seq<Job>, b: Seq<Job>) -> bool {
    a.len() == b.len() && forall|i: int| 0 <= i < a.len() ==> job_same(#[trigger] a[i], b[i])
}

pub open spec fn stage_same(a: Stage, b: Stage) -> bool {
    &&& b.variables@ == a.variables@
    &&& jobs_same(a.jobs@, b.jobs@)
    &&& b == Stage { variables: b.variables, jobs: b.jobs, ..a }
}

pub open spec fn stages_same(a: Seq<Stage>, b: Seq<Stage>) -> bool {
    a.len() == b.len() && forall|i: int| 0 <= i < a.len() ==> stage_same(#[trigger] a[i], b[i])
}

/// Nothing in `p` outside `extends` names a template.
pub open spec fn pipeline_free(p: Pipeline) -> bool {
    &&& vars_free(p.variables@)
    &&& stages_free(p.stages@)
    &&& jobs_free(p.jobs@)
    &&& steps_free(p.steps@)
}

/// No step of `p`, at any level, is a template reference.
pub open spec fn pipeline_steps_free(p: Pipeline) -> bool {
    &&& steps_free(p.steps@)
    &&& jobs_steps_free(p.jobs@)
    &&& stages_steps_free(p.stages@)
}

/// Pipeline `b` is pipeline `a`.
pub open spec fn pipeline_same(a: Pipeline, b: Pipeline) -> bool {
    &&& b.variables@ == a.variables@
    &&& stages_same(a.stages@, b.stages@)
    &&& jobs_same(a.jobs@, b.jobs@)
    &&& b.steps@ == a.steps@
    &&& b == Pipeline { variables: b.variables, stages: b.stages, jobs: b.jobs, steps: b.steps, ..a }
}

// ---------------------------------------------------------------------------
// What a resolution makes of each item
// ---------------------------------------------------------------------------

/// The sequences of `parts` one after the other.
pub open spec fn concat<A>(parts: Seq<Seq<A>>) -> Seq<A>
    decreases parts.len(),
{
    if parts.len() == 0 {
        Seq::empty()
    } else {
        concat(parts.drop_last()) + parts.last()
    }
}

/// A template file was handed in for reference `r`, and it parsed.
pub open spec fn template_loaded(files: Seq<(String, TemplateSource)>, r: Seq<char>) -> bool {
    exists|i: int|
        0 <= i < files.len() && #[trigger] files[i].0@ == r && (files[i].1 matches TemplateSource::Loaded {
            file,
            ..
        } && file is Ok)
}

/// `read` gave `content` for some expanded template content.
pub open spec fn read_gave<
    S,
    C: Fn(&S, &String) -> Result<bool, String>,
    E: Fn(&S, &String, &String) -> Result<Result<Vec<S>, String>, String>,
    T: Fn(&S, &String) -> Result<String, ParseError>,
    B: Fn(&Vec<(String, YamlNode)>) -> S,
    R: Fn(&RawTemplateContent) -> Result<TemplateContent, String>,
    P: Fn(&String) -> Result<Pipeline, ParseError>,
>(hooks: TemplateHooks<C, E, T, B, R, P>, content: TemplateContent) -> bool {
    exists|c: RawTemplateContent| #[trigger] call_ensures(hooks.read, (&c,), Ok::<TemplateContent, String>(content))
}

/// Holds of every scope: it names the scope of `from_variable_template`.
pub open spec fn some_scope<S>(s: S) -> bool {
    true
}

/// `part` is the variables that a variable template was read into, each
/// substituted in some scope.
pub open spec fn from_variable_template<
    S,
    C: Fn(&S, &String) -> Result<bool, String>,
    E: Fn(&S, &String, &String) -> Result<Result<Vec<S>, String>, String>,
    T: Fn(&S, &String) -> Result<String, ParseError>,
    B: Fn(&Vec<(String, YamlNode)>) -> S,
    R: Fn(&RawTemplateContent) -> Result<TemplateContent, String>,
    P: Fn(&String) -> Result<Pipeline, ParseError>,
>(hooks: TemplateHooks<C, E, T, B, R, P>, part: Seq<Variable>) -> bool {
    exists|vs: Vec<Variable>, sc: S|
        #![trigger read_gave::<S, C, E, T, B, R, P>(hooks, TemplateContent::Variables(vs)), some_scope(sc)]
        read_gave::<S, C, E, T, B, R, P>(hooks, TemplateContent::Variables(vs)) && some_scope(sc) && (substitute_deterministic::<S, T>(
            hooks.evaluators.substitute,
        ) ==> variables_done(hooks.evaluators.substitute, sc, vs@, part))
}

/// What a variable becomes: a template reference the variables of its
/// template, a file for it having been handed in; any other the variable
/// itself.
pub open spec fn var_resolved<
    S,
    C: Fn(&S, &String) -> Result<bool, String>,
    E: Fn(&S, &String, &String) -> Result<Result<Vec<S>, String>, String>,
    T: Fn(&S, &String) -> Result<String, ParseError>,
    B: Fn(&Vec<(String, YamlNode)>) -> S,
    R: Fn(&RawTemplateContent) -> Result<TemplateContent, String>,
    P: Fn(&String) -> Result<Pipeline, ParseError>,
>(
    hooks: TemplateHooks<C, E, T, B, R, P>,
    files: TemplateFiles,
    v: Variable,
    part: Seq<Variable>,
) -> bool {
    match v {
        Variable::Template { template, .. } => template_loaded(files.templates@, template@)
            && from_variable_template::<S, C, E, T, B, R, P>(hooks, part),
        _ => part == seq![v],
    }
}

/// `new` is `old` with each variable resolved in place, in order.
pub open spec fn vars_resolved<
    S,
    C: Fn(&S, &String) -> Result<bool, String>,
    E: Fn(&S, &String, &String) -> Result<Result<Vec<S>, String>, String>,
    T: Fn(&S, &String) -> Result<String, ParseError>,
    B: Fn(&Vec<(String, YamlNode)>) -> S,
    R: Fn(&RawTemplateContent) -> Result<TemplateContent, String>,
    P: Fn(&String) -> Result<Pipeline, ParseError>,
>(
    hooks: TemplateHooks<C, E, T, B, R, P>,
    files: TemplateFiles,
    old: Seq<Variable>,
    new: Seq<Variable>,
) -> bool {
    exists|parts: Seq<Seq<Variable>>|
        #![trigger concat(parts)]
        parts.len() == old.len() && new == concat(parts) && forall|i: int|
            0 <= i < old.len() ==> var_resolved::<S, C, E, T, B, R, P>(hooks, files, #[trigger] old[i], parts[i])
}

/// What a step becomes: a template reference steps of a template whose
/// file was handed in, none of them a template reference; any other the
/// step itself.
pub open spec fn step_resolved(files: TemplateFiles, st: Step, part: Seq<Step>) -> bool {
    match st.action {
        StepAction::Template(t) => template_loaded(files.templates@, t.template@) && steps_free(part),
        _ => part == seq![st],
    }
}

/// `new` is `old` with each step resolved in place, in order.
pub open spec fn steps_resolved(files: TemplateFiles, old: Seq<Step>, new: Seq<Step>) -> bool {
    exists|parts: Seq<Seq<Step>>|
        #![trigger concat(parts)]
        parts.len() == old.len() && new == concat(parts) && forall|i: int|
            0 <= i < old.len() ==> step_resolved(files, #[trigger] old[i], parts[i])
}

/// What a job becomes: a template reference jobs of a template whose file
/// was handed in, with no step template left in them; any other the job
/// with its variables and steps resolved.
pub open spec fn job_resolved<
    S,
    C: Fn(&S, &String) -> Result<bool, String>,
    E: Fn(&S, &String, &String) -> Result<Result<Vec<S>, String>, String>,
    T: Fn(&S, &String) -> Result<String, ParseError>,
    B: Fn(&Vec<(String, YamlNode)>) -> S,
    R: Fn(&RawTemplateContent) -> Result<TemplateContent, String>,
    P: Fn(&String) -> Result<Pipeline, ParseError>,
>(
    hooks: TemplateHooks<C, E, T, B, R, P>,
    files: TemplateFiles,
    j: Job,
    part: Seq<Job>,
) -> bool {
    match j.template {
        Some(t) => template_loaded(files.templates@, t@) && jobs_steps_free(part),
        None => {
            &&& part.len() == 1
            &&& vars_resolved::<S, C, E, T, B, R, P>(hooks, files, j.variables@, part[0].variables@)
            &&& steps_resolved(files, j.steps@, part[0].steps@)
            &&& part[0] == Job { variables: part[0].variables, steps: part[0].steps, ..j }
        },
    }
}

/// `new` is `old` with each job resolved in place, in order.
pub open spec fn jobs_resolved<
    S,
    C: Fn(&S, &String) -> Result<bool, String>,
    E: Fn(&S, &String, &String) -> Result<Result<Vec<S>, String>, String>,
    T: Fn(&S, &String) -> Result<String, ParseError>,
    B: Fn(&Vec<(String, YamlNode)>) -> S,
    R: Fn(&RawTemplateContent) -> Result<TemplateContent, String>,
    P: Fn(&String) -> Result<Pipeline, ParseError>,
>(
    hooks: TemplateHooks<C, E, T, B, R, P>,
    files: TemplateFiles,
    old: Seq<Job>,
    new: Seq<Job>,
) -> bool {
    exists|parts: Seq<Seq<Job>>|
        #![trigger concat(parts)]
        parts.len() == old.len() && new == concat(parts) && forall|i: int|
            0 <= i < old.len() ==> job_resolved::<S, C, E, T, B, R, P>(hooks, files, #[trigger] old[i], parts[i])
}

/// What a stage becomes: a template reference stages of a template whose
/// file was handed in, with no step template left in them; any other the
/// stage with its variables and jobs resolved.
pub open spec fn stage_resolved<
    S,
    C: Fn(&S, &String) -> Result<bool, String>,
    E: Fn(&S, &String, &String) -> Result<Result<Vec<S>, String>, String>,
    T: Fn(&S, &String) -> Result<String, ParseError>,
    B: Fn(&Vec<(String, YamlNode)>) -> S,
    R: Fn(&RawTemplateContent) -> Result<TemplateContent, String>,
    P: Fn(&String) -> Result<Pipeline, ParseError>,
>(
    hooks: TemplateHooks<C, E, T, B, R, P>,
    files: TemplateFiles,
    st: Stage,
    part: Seq<Stage>,
) -> bool {
    match st.template {
        Some(t) => template_loaded(files.templates@, t@) && stages_steps_free(part),
        None => {
            &&& part.len() == 1
            &&& vars_resolved::<S, C, E, T, B, R, P>(hooks, files, st.variables@, part[0].variables@)
            &&& jobs_resolved::<S, C, E, T, B, R, P>(hooks, files, st.jobs@, part[0].jobs@)
            &&& part[0] == Stage { variables: part[0].variables, jobs: part[0].jobs, ..st }
        },
    }
}

/// `new` is `old` with each stage resolved in place, in order.
pub open spec fn stages_resolved<
    S,
    C: Fn(&S, &String) -> Result<bool, String>,
    E: Fn(&S, &String, &String) -> Result<Result<Vec<S>, String>, String>,
    T: Fn(&S, &String) -> Result<String, ParseError>,
    B: Fn(&Vec<(String, YamlNode)>) -> S,
    R: Fn(&RawTemplateContent) -> Result<TemplateContent, String>,
    P: Fn(&String) -> Result<Pipeline, ParseError>,
>(
    hooks: TemplateHooks<C, E, T, B, R, P>,
    files: TemplateFiles,
    old: Seq<Stage>,
    new: Seq<Stage>,
) -> bool {
    exists|parts: Seq<Seq<Stage>>|
        #![trigger concat(parts)]
        parts.len() == old.len() && new == concat(parts) && forall|i: int|
            0 <= i < old.len() ==> stage_resolved::<S, C, E, T, B, R, P>(hooks, files, #[trigger] old[i], parts[i])
}

/// `new` is pipeline `old` after one pass: its variables, stages, jobs and
/// steps resolved, the rest kept.
pub open spec fn pipeline_resolved<
    S,
    C: Fn(&S, &String) -> Result<bool, String>,
    E: Fn(&S, &String, &String) -> Result<Result<Vec<S>, String>, String>,
    T: Fn(&S, &String) -> Result<String, ParseError>,
    B: Fn(&Vec<(String, YamlNode)>) -> S,
    R: Fn(&RawTemplateContent) -> Result<TemplateContent, String>,
    P: Fn(&String) -> Result<Pipeline, ParseError>,
>(
    hooks: TemplateHooks<C, E, T, B, R, P>,
    files: TemplateFiles,
    old: Pipeline,
    new: Pipeline,
) -> bool {
    &&& vars_resolved::<S, C, E, T, B, R, P>(hooks, files, old.variables@, new.variables@)
    &&& stages_resolved::<S, C, E, T, B, R, P>(hooks, files, old.stages@, new.stages@)
    &&& jobs_resolved::<S, C, E, T, B, R, P>(hooks, files, old.jobs@, new.jobs@)
    &&& steps_resolved(files, old.steps@, new.steps@)
    &&& new == Pipeline { variables: new.variables, stages: new.stages, jobs: new.jobs, steps: new.steps, ..old }
}

proof fn lemma_concat_push<A>(parts: Seq<Seq<A>>, x: Seq<A>)
    ensures
        concat(parts.push(x)) == concat(parts) + x,
{
    assert(parts.push(x).drop_last() =~= parts);
}

// ---------------------------------------------------------------------------
// Why a resolution fails
// ---------------------------------------------------------------------------

/// The evaluators give one outcome per input.
pub open spec fn hooks_deterministic<
    S,
    C: Fn(&S, &String) -> Result<bool, String>,
    E: Fn(&S, &String, &String) -> Result<Result<Vec<S>, String>, String>,
    T: Fn(&S, &String) -> Result<String, ParseError>,
    B: Fn(&Vec<(String, YamlNode)>) -> S,
    R: Fn(&RawTemplateContent) -> Result<TemplateContent, String>,
    P: Fn(&String) -> Result<Pipeline, ParseError>,
>(hooks: TemplateHooks<C, E, T, B, R, P>) -> bool {
    evaluators_deterministic(hooks.evaluators)
}

/// `e` is a template error about template `r` with message `msg`.
pub open spec fn template_error_of(e: ParseError, r: Seq<char>, msg: Seq<char>) -> bool {
    &&& e.message@ == "template error in '"@ + r + "': "@ + msg
    &&& e.kind == ParseErrorKind::TemplateError
}

/// `e` is an error handed in with the files: a reference that names no
/// file, or a template file that does not parse.
pub open spec fn source_error(files: TemplateFiles, e: ParseError) -> bool {
    ||| exists|i: int| 0 <= i < files.templates@.len() && #[trigger] files.templates@[i].1 == TemplateSource::Missing(e)
    ||| exists|i: int| 0 <= i < files.bases@.len() && #[trigger] files.bases@[i].1 == BaseSource::Missing(e)
    ||| exists|i: int|
        0 <= i < files.templates@.len() && (#[trigger] files.templates@[i].1 matches TemplateSource::Loaded {
            file: Err(x),
            ..
        } && x == e)
}

/// `e` reports a file that could not be read, or an include past the depth
/// limit or of a template already being included.
pub open spec fn load_error(e: ParseError) -> bool {
    ||| exists|r: Seq<char>, why: Seq<char>| template_error_of(e, r, #[trigger] unreadable_message(r, why))
    ||| exists|r: Seq<char>, why: Seq<char>| #![trigger unreadable_base_message(why), template_error_of(e, r, unreadable_base_message(why))] template_error_of(e, r, unreadable_base_message(why))
    ||| exists|st: Seq<Seq<char>>|
        e.message@ == "template error: "@ + #[trigger] depth_message(st) && e.kind == ParseErrorKind::TemplateError
    ||| exists|st: Seq<Seq<char>>, path: Seq<char>|
        e.message@ == "template error: "@ + #[trigger] cycle_message(st, path) && e.kind
            == ParseErrorKind::TemplateError
}

/// `e` refuses the parameters passed to a template, or reports a template
/// whose content is of another kind than where it is used, or an extends
/// chain that never ends.
pub open spec fn call_error(e: ParseError) -> bool {
    ||| exists|r: Seq<char>, f: ParamFailure| #[trigger] failure_matches(e, f, r)
    ||| exists|r: Seq<char>, w: Seq<char>, found: TemplateContent|
        template_error_of(e, r, #[trigger] mismatch_message(r, w, found))
    ||| e.message@ == "template error: "@ + extends_cycle_message() && e.kind == ParseErrorKind::TemplateError
}

/// The message of an extends chain that never ends.
pub open spec fn extends_cycle_message() -> Seq<char> {
    "circular extends chain: a pipeline extends a template it already extended"@
}

/// `e` reports an error that a hook gave: the reading of some template
/// content (with the template's name and the kind of its content), the
/// parsing of a pipeline that is extended, the expansion of directives, or
/// the substitution of an item, in some scope.
pub open spec fn hook_error<
    S,
    C: Fn(&S, &String) -> Result<bool, String>,
    E: Fn(&S, &String, &String) -> Result<Result<Vec<S>, String>, String>,
    T: Fn(&S, &String) -> Result<String, ParseError>,
    B: Fn(&Vec<(String, YamlNode)>) -> S,
    R: Fn(&RawTemplateContent) -> Result<TemplateContent, String>,
    P: Fn(&String) -> Result<Pipeline, ParseError>,
>(hooks: TemplateHooks<C, E, T, B, R, P>, e: ParseError) -> bool {
    let f = hooks.evaluators.substitute;
    ||| exists|c: RawTemplateContent, r: Seq<char>, m: String|
        #![trigger call_ensures(hooks.read, (&c,), Err::<TemplateContent, String>(m)), read_message(c, r, m@)]
        call_ensures(hooks.read, (&c,), Err::<TemplateContent, String>(m)) && e.message@ == read_message(c, r, m@)
            && e.kind == ParseErrorKind::TemplateError
    ||| exists|t: String, r: Seq<char>, pe: ParseError|
        #![trigger call_ensures(hooks.parse, (&t,), Err::<Pipeline, ParseError>(pe)), base_error_message(r, pe.message@)]
        call_ensures(hooks.parse, (&t,), Err::<Pipeline, ParseError>(pe)) && e.message@ == base_error_message(
            r,
            pe.message@,
        ) && e.line == pe.line && e.column == pe.column && e.kind == ParseErrorKind::TemplateError
    ||| exists|c: RawTemplateContent, sc: S|
        #![trigger expanded_content(hooks.evaluators, sc, c, Err::<RawTemplateContent, ParseError>(e))]
        expanded_content(hooks.evaluators, sc, c, Err::<RawTemplateContent, ParseError>(e))
    ||| exists|v: Variable, sc: S| #[trigger] variable_failure(f, sc, v) == Some(e)
    ||| exists|v: Step, sc: S| #[trigger] step_failure(f, sc, v) == Some(e)
    ||| exists|v: Job, sc: S| #[trigger] job_failure(f, sc, v) == Some(e)
    ||| exists|v: Stage, sc: S| #[trigger] stage_failure(f, sc, v) == Some(e)
    ||| exists|v: Pipeline, sc: S| #[trigger] pipeline_failure(f, sc, v) == Some(e)
}

/// Why a resolution may fail: an error handed in with the files, a file
/// that could not be read or included, a refused call of a template, or an
/// error that a hook gave.
pub open spec fn failure_reason<
    S,
    C: Fn(&S, &String) -> Result<bool, String>,
    E: Fn(&S, &String, &String) -> Result<Result<Vec<S>, String>, String>,
    T: Fn(&S, &String) -> Result<String, ParseError>,
    B: Fn(&Vec<(String, YamlNode)>) -> S,
    R: Fn(&RawTemplateContent) -> Result<TemplateContent, String>,
    P: Fn(&String) -> Result<Pipeline, ParseError>,
>(hooks: TemplateHooks<C, E, T, B, R, P>, files: TemplateFiles, e: ParseError) -> bool {
    ||| source_error(files, e)
    ||| load_error(e)
    ||| call_error(e)
    ||| hook_error::<S, C, E, T, B, R, P>(hooks, e)
}

/// A halt that is a failure fails for a reason of `failure_reason`.
pub open spec fn halt_explained<
    S,
    C: Fn(&S, &String) -> Result<bool, String>,
    E: Fn(&S, &String, &String) -> Result<Result<Vec<S>, String>, String>,
    T: Fn(&S, &String) -> Result<String, ParseError>,
    B: Fn(&Vec<(String, YamlNode)>) -> S,
    R: Fn(&RawTemplateContent) -> Result<TemplateContent, String>,
    P: Fn(&String) -> Result<Pipeline, ParseError>,
>(hooks: TemplateHooks<C, E, T, B, R, P>, files: TemplateFiles, h: Halt) -> bool {
    match h {
        Halt::Failed(e) => failure_reason::<S, C, E, T, B, R, P>(hooks, files, e),
        _ => true,
    }
}

/// Why the call of a template is refused before its content is expanded.
pub enum Refusal {
    /// No file was handed in for the reference.
    Need,
    /// The error handed in for the file.
    Given(ParseError),
    /// The include stack is full.
    Depth,
    /// The file at this canonical path is already being included.
    Cycle(Seq<char>),
    /// The file could not be read, for this reason.
    Unreadable(Seq<char>),
    /// The parameters passed are refused.
    Params(ParamFailure),
}

/// The canonical path of a template file that was found.
pub open spec fn source_canonical(src: TemplateSource) -> Seq<char> {
    match src {
        TemplateSource::Unreadable { canonical, .. } => canonical@,
        TemplateSource::Loaded { canonical, .. } => canonical@,
        TemplateSource::Missing(_) => Seq::empty(),
    }
}

/// What refuses loading template `r` on the include stack `stack`, if
/// anything: no file, the error handed in for it, a full stack, a file
/// already on the stack, an unreadable file or one that does not parse, in
/// that order.
pub open spec fn load_refusal(files: TemplateFiles, stack: Seq<Seq<char>>, r: Seq<char>) -> Option<Refusal> {
    match first_source(files.templates@, r) {
        None => Some(Refusal::Need),
        Some(TemplateSource::Missing(e)) => Some(Refusal::Given(e)),
        Some(src) => if stack.len() >= MAX_TEMPLATE_DEPTH {
            Some(Refusal::Depth)
        } else if stack.contains(source_canonical(src)) {
            Some(Refusal::Cycle(source_canonical(src)))
        } else {
            match src {
                TemplateSource::Unreadable { reason, .. } => Some(Refusal::Unreadable(reason@)),
                TemplateSource::Loaded { file: Err(e), .. } => Some(Refusal::Given(e)),
                _ => None,
            }
        },
    }
}

/// What refuses the call of template `r` with parameters `params`, if
/// anything: what refuses loading it, else the parameters' failure.
pub open spec fn call_refusal(
    files: TemplateFiles,
    stack: Seq<Seq<char>>,
    r: Seq<char>,
    params: Seq<(Seq<char>, NodeView)>,
) -> Option<Refusal> {
    match load_refusal(files, stack, r) {
        Some(x) => Some(x),
        None => match first_source(files.templates@, r) {
            Some(TemplateSource::Loaded { file: Ok(raw), .. }) => match resolved_parameters(raw.parameters@, params) {
                Err(f) => Some(Refusal::Params(f)),
                Ok(_) => None,
            },
            _ => None,
        },
    }
}

/// `h` is the halt of refusal `x` of template `r` on the stack `stack`.
pub open spec fn refused_with(h: Halt, x: Refusal, stack: Seq<Seq<char>>, r: Seq<char>) -> bool {
    match x {
        Refusal::Need => h matches Halt::NeedTemplate(t) && t@ == r,
        Refusal::Given(e) => h == Halt::Failed(e),
        Refusal::Depth => h matches Halt::Failed(e) && e.message@ == "template error: "@ + depth_message(stack)
            && e.kind == ParseErrorKind::TemplateError,
        Refusal::Cycle(c) => h matches Halt::Failed(e) && e.message@ == "template error: "@ + cycle_message(stack, c)
            && e.kind == ParseErrorKind::TemplateError,
        Refusal::Unreadable(why) => h matches Halt::Failed(e) && template_error_of(e, r, unreadable_message(r, why)),
        Refusal::Params(f) => h matches Halt::Failed(e) && failure_matches(e, f, r),
    }
}

/// A step that is not a template reference, or whose template call is not
/// refused.
pub open spec fn step_not_refused(files: TemplateFiles, stack: Seq<Seq<char>>, st: Step) -> bool {
    match st.action {
        StepAction::Template(t) => call_refusal(files, stack, t.template@, params_view(t.parameters@)) is None,
        _ => true,
    }
}

/// The first step that is a template reference, where its call is refused,
/// gives the halt of that refusal.
pub open spec fn first_step_refusal_halts(
    files: TemplateFiles,
    stack: Seq<Seq<char>>,
    steps: Seq<Step>,
    outcome: Option<Halt>,
) -> bool {
    forall|i: int|
        #![trigger steps[i]]
        0 <= i < steps.len() && steps_free(steps.take(i)) ==> match steps[i].action {
            StepAction::Template(t) => (call_refusal(files, stack, t.template@, params_view(t.parameters@)) matches Some(
                x,
            ) ==> (outcome matches Some(h) && refused_with(h, x, stack, t.template@))),
            _ => true,
        }
}

/// The halt that a resolution stopped with, if it did.
pub open spec fn halt_of<X>(r: Result<X, Halt>) -> Option<Halt> {
    match r {
        Err(h) => Some(h),
        Ok(_) => None,
    }
}

/// A variable that is not a template reference, or whose template call is
/// not refused.
pub open spec fn var_not_refused(files: TemplateFiles, stack: Seq<Seq<char>>, v: Variable) -> bool {
    match v {
        Variable::Template { template, parameters } => call_refusal(files, stack, template@, params_view(parameters@))
            is None,
        _ => true,
    }
}

/// The first variable that is a template reference, where its call is
/// refused, gives the halt of that refusal.
pub open spec fn first_var_refusal_halts(
    files: TemplateFiles,
    stack: Seq<Seq<char>>,
    vars: Seq<Variable>,
    outcome: Option<Halt>,
) -> bool {
    forall|i: int|
        #![trigger vars[i]]
        0 <= i < vars.len() && vars_free(vars.take(i)) ==> match vars[i] {
            Variable::Template { template, parameters } => (call_refusal(files, stack, template@, params_view(parameters@))
                matches Some(x) ==> (outcome matches Some(h) && refused_with(h, x, stack, template@))),
            _ => true,
        }
}

// ---------------------------------------------------------------------------
// Loading a template
// ---------------------------------------------------------------------------

fn read_content<R: Fn(&RawTemplateContent) -> Result<TemplateContent, String>>(
    content: &RawTemplateContent,
    template_ref: &String,
    read: &R,
) -> (r: Result<TemplateContent, ParseError>)
    requires
        forall|c: &RawTemplateContent| call_requires(*read, (c,)),
    ensures
        match r {
            Ok(c) => call_ensures(*read, (content,), Ok::<TemplateContent, String>(c)),
            Err(e) => exists|m: String|
                call_ensures(*read, (content,), Err::<TemplateContent, String>(m)) && e.message@ == read_message(
                    *content,
                    template_ref@,
                    m@,
                ) && e.kind == ParseErrorKind::TemplateError && e.line == 0 && e.column == 0,
        },
{
    match read(content) {
        Ok(c) => Ok(c),
        Err(m) => {
            let mut msg = match content {
                RawTemplateContent::Pipeline(_) => concat3(
                    "template '",
                    template_ref.as_str(),
                    "' is not a valid template file: ",
                ),
                RawTemplateContent::Steps(_) => concat3("error parsing steps in template '", template_ref.as_str(), "': "),
                RawTemplateContent::Jobs(_) => concat3("error parsing jobs in template '", template_ref.as_str(), "': "),
                RawTemplateContent::Stages(_) => concat3("error parsing stages in template '", template_ref.as_str(), "': "),
                RawTemplateContent::Variables(_) => concat3(
                    "error parsing variables in template '",
                    template_ref.as_str(),
                    "': ",
                ),
            };
            msg.append(m.as_str());
            proof {
                reveal_strlit("error parsing ");
                reveal_strlit("steps");
                reveal_strlit("jobs");
                reveal_strlit("stages");
                reveal_strlit("variables");
                reveal_strlit(" in template '");
                reveal_strlit("error parsing steps in template '");
                reveal_strlit("error parsing jobs in template '");
                reveal_strlit("error parsing stages in template '");
                reveal_strlit("error parsing variables in template '");
                assert(msg@ =~= read_message(*content, template_ref@, m@));
            }
            Err(ParseError::new(msg.as_str(), 0, 0).with_kind(ParseErrorKind::TemplateError))
        },
    }
}

impl TemplateEngine {
    /// Finds the template file for `template_ref` among `files` and enters
    /// it on the include stack.  A reference without a file asks for it; a
    /// missing or unreadable file, one that does not parse, one already being
    /// included or one past the depth limit fails, and the stack is left as
    /// it was.
    fn load_template<'a>(&mut self, template_ref: &String, files: &'a TemplateFiles) -> (r: Result<
        &'a RawTemplateFile,
        Halt,
    >)
        requires
            old(self).wf(),
        ensures
            final(self).wf(),
            final(self).root() == old(self).root(),
            final(self).repos() == old(self).repos(),
            match r {
                Ok(_) => {
                    &&& final(self).stack().len() == old(self).stack().len() + 1
                    &&& final(self).stack().drop_last() == old(self).stack()
                },
                Err(h) => final(self).stack() == old(self).stack() && asks_new(h, *files) && !(h is NeedBase),
            },
            !template_refs(files.templates@).contains(template_ref@) ==> r == Err::<&RawTemplateFile, Halt>(
                Halt::NeedTemplate(*template_ref),
            ),
            r is Ok ==> template_loaded(files.templates@, template_ref@),
            r matches Err(Halt::Failed(e)) ==> source_error(*files, e) || load_error(e),
            load_refusal(*files, old(self).stack(), template_ref@) matches Some(x) ==> (r matches Err(h) && refused_with(
                h,
                x,
                old(self).stack(),
                template_ref@,
            )),
            load_refusal(*files, old(self).stack(), template_ref@) is None ==> (r matches Ok(raw) && first_source(
                files.templates@,
                template_ref@,
            ) matches Some(TemplateSource::Loaded { file: Ok(raw2), .. }) && *raw == raw2),
    {
        let ghost st = self.stack();
        match find_template(&files.templates, template_ref) {
            None => Err(Halt::NeedTemplate(copy_text(template_ref))),
            Some(TemplateSource::Missing(e)) => {
                let c = copy_error(e);
                proof {
                    assert(source_error(*files, c));
                }
                Err(Halt::Failed(c))
            },
            Some(TemplateSource::Unreadable { canonical, reason }) => {
                match self.push_template(canonical.as_str()) {
                    Err(e) => {
                        proof {
                            assert(load_error(e));
                        }
                        Err(Halt::Failed(e))
                    },
                    Ok(()) => {
                        self.pop_template();
                        proof {
                            assert(st.push(canonical@).drop_last() =~= st);
                        }
                        let mut msg = concat3("failed to read template '", template_ref.as_str(), "': ");
                        msg.append(reason.as_str());
                        let e = template_failure(&msg, TemplateErrorKind::NotFound, template_ref.as_str());
                        proof {
                            assert(msg@ == unreadable_message(template_ref@, reason@));
                            assert(template_error_of(e, template_ref@, unreadable_message(template_ref@, reason@)));
                            assert(load_error(e));
                        }
                        Err(Halt::Failed(e))
                    },
                }
            },
            Some(TemplateSource::Loaded { canonical, file }) => {
                match self.push_template(canonical.as_str()) {
                    Err(e) => {
                        proof {
                            assert(load_error(e));
                        }
                        Err(Halt::Failed(e))
                    },
                    Ok(()) => {
                        proof {
                            assert(st.push(canonical@).drop_last() =~= st);
                        }
                        match file {
                            Ok(raw) => Ok(raw),
                            Err(e) => {
                                self.pop_template();
                                let c = copy_error(e);
                                proof {
                                    assert(source_error(*files, c));
                                }
                                Err(Halt::Failed(c))
                            },
                        }
                    },
                }
            },
        }
    }

    /// Loads template `template_ref`, resolves its parameters against those
    /// passed, expands its directives in their scope and reads the result;
    /// on failure the include stack is left as it was, on success the
    /// template stays entered.
    fn open_template<
        S,
        C: Fn(&S, &String) -> Result<bool, String>,
        E: Fn(&S, &String, &String) -> Result<Result<Vec<S>, String>, String>,
        T: Fn(&S, &String) -> Result<String, ParseError>,
        B: Fn(&Vec<(String, YamlNode)>) -> S,
        R: Fn(&RawTemplateContent) -> Result<TemplateContent, String>,
        P: Fn(&String) -> Result<Pipeline, ParseError>,
    >(
        &mut self,
        template_ref: &String,
        call_params: &Vec<(String, YamlNode)>,
        files: &TemplateFiles,
        hooks: &TemplateHooks<C, E, T, B, R, P>,
    ) -> (r: Result<(TemplateContent, S), Halt>)
        requires
            old(self).wf(),
            hooks_ready::<S, C, E, T, B, R, P>(*hooks),
        ensures
            call_refusal(*files, old(self).stack(), template_ref@, params_view(call_params@)) matches Some(x) ==> (r matches Err(
                h,
            ) && refused_with(h, x, old(self).stack(), template_ref@)),
            final(self).wf(),
            final(self).root() == old(self).root(),
            final(self).repos() == old(self).repos(),
            match r {
                Ok(_) => {
                    &&& final(self).stack().len() == old(self).stack().len() + 1
                    &&& final(self).stack().drop_last() == old(self).stack()
                },
                Err(h) => final(self).stack() == old(self).stack() && asks_new(h, *files) && !(h is NeedBase),
            },
            !template_refs(files.templates@).contains(template_ref@) ==> r == Err::<(TemplateContent, S), Halt>(
                Halt::NeedTemplate(*template_ref),
            ),
            hooks_deterministic::<S, C, E, T, B, R, P>(*hooks) ==> (r matches Err(h) ==> halt_explained::<S, C, E, T, B, R, P>(*hooks, *files, h)),
            r matches Ok((content, _)) ==> template_loaded(files.templates@, template_ref@) && read_gave::<
                S,
                C,
                E,
                T,
                B,
                R,
                P,
            >(*hooks, content),
    {
        let ghost st = self.stack();
        let raw = match self.load_template(template_ref, files) {
            Ok(raw) => raw,
            Err(h) => return Err(h),
        };
        let ghost pushed = self.stack();
        let params = match self.resolve_parameters(&raw.parameters, call_params, template_ref.as_str()) {
            Ok(p) => p,
            Err(e) => {
                self.pop_template();
                proof {
                    let f = choose|f: ParamFailure| failure_matches(e, f, template_ref@);
                    assert(failure_matches(e, f, template_ref@));
                    assert(call_error(e));
                }
                return Err(Halt::Failed(e));
            },
        };
        let scope = (hooks.scope_of)(&params);
        let expanded = match self.resolve_raw_template(raw, &scope, &hooks.evaluators) {
            Ok(c) => c,
            Err(e) => {
                self.pop_template();
                proof {
                    if hooks_deterministic::<S, C, E, T, B, R, P>(*hooks) {
                        assert(expanded_content(hooks.evaluators, scope, raw.content, Err::<RawTemplateContent, ParseError>(e)));
                        assert(hook_error::<S, C, E, T, B, R, P>(*hooks, e));
                    }
                }
                return Err(Halt::Failed(e));
            },
        };
        let content = match read_content(&expanded, template_ref, &hooks.read) {
            Ok(c) => c,
            Err(e) => {
                self.pop_template();
                proof {
                    let m = choose|m: String|
                        call_ensures(hooks.read, (&expanded,), Err::<TemplateContent, String>(m)) && e.message@
                            == read_message(expanded, template_ref@, m@) && e.kind == ParseErrorKind::TemplateError;
                    assert(read_message(expanded, template_ref@, m@) == e.message@);
                    assert(hook_error::<S, C, E, T, B, R, P>(*hooks, e));
                }
                return Err(Halt::Failed(e));
            },
        };
        Ok((content, scope))
    }
}


impl TemplateEngine {
    /// The steps of step template `template_ref`, called with `call_params`:
    /// each step substituted in the template's scope, a step that is itself
    /// a template reference expanded in its place.
    #[verifier::loop_isolation(false)]
    fn expand_step_template<
        S,
        C: Fn(&S, &String) -> Result<bool, String>,
        E: Fn(&S, &String, &String) -> Result<Result<Vec<S>, String>, String>,
        T: Fn(&S, &String) -> Result<String, ParseError>,
        B: Fn(&Vec<(String, YamlNode)>) -> S,
        R: Fn(&RawTemplateContent) -> Result<TemplateContent, String>,
        P: Fn(&String) -> Result<Pipeline, ParseError>,
    >(
        &mut self,
        template_ref: &String,
        call_params: &Vec<(String, YamlNode)>,
        files: &TemplateFiles,
        hooks: &TemplateHooks<C, E, T, B, R, P>,
    ) -> (r: Result<Vec<Step>, Halt>)
        requires
            old(self).wf(),
            hooks_ready::<S, C, E, T, B, R, P>(*hooks),
        ensures
            call_refusal(*files, old(self).stack(), template_ref@, params_view(call_params@)) matches Some(x) ==> (r matches Err(
                h,
            ) && refused_with(h, x, old(self).stack(), template_ref@)),
            engine_kept(*old(self), *final(self)),
            match r {
                Ok(v) => steps_free(v@),
                Err(h) => asks_new(h, *files) && !(h is NeedBase),
            },
            !template_refs(files.templates@).contains(template_ref@) ==> r == Err::<Vec<Step>, Halt>(
                Halt::NeedTemplate(*template_ref),
            ),
            hooks_deterministic::<S, C, E, T, B, R, P>(*hooks) ==> (r matches Err(h) ==> halt_explained::<S, C, E, T, B, R, P>(*hooks, *files, h)),
            r is Ok ==> template_loaded(files.templates@, template_ref@),
        decreases depth_left(*old(self)),
    {
        let ghost st = self.stack();
        let ghost root = self.root();
        let ghost repos = self.repos();
        let (content, scope) = match self.open_template(template_ref, call_params, files, hooks) {
            Ok(x) => x,
            Err(h) => return Err(h),
        };
        let result: Result<Vec<Step>, Halt> = match content {
            TemplateContent::Steps(steps) => {
                let mut out: Vec<Step> = Vec::new();
                let mut rest = steps;
                while rest.len() > 0
                    invariant
                        self.wf(),
                        self.stack().len() == st.len() + 1,
                        self.stack().drop_last() == st,
                        self.root() == root,
                        self.repos() == repos,
                        st == old(self).stack(),
                        hooks_ready::<S, C, E, T, B, R, P>(*hooks),
                        steps_free(out@),
                    decreases rest@.len(),
                {
                    let step = rest.remove(0);
                    let ghost item0 = step;
                    let s2 = match self.substitute_step_params(step, &scope, &hooks.evaluators.substitute) {
                        Ok(x) => x,
                        Err(e) => {
                            self.pop_template();
                        proof {
                            if hooks_deterministic::<S, C, E, T, B, R, P>(*hooks) {
                                assert(step_failure(hooks.evaluators.substitute, scope, item0) == Some(e));
                                assert(hook_error::<S, C, E, T, B, R, P>(*hooks, e));
                            }
                        }
                            return Err(Halt::Failed(e));
                        },
                    };
                    if let StepAction::Template(nested) = &s2.action {
                        let mut more = match self.expand_step_template(&nested.template, &nested.parameters, files, hooks) {
                            Ok(v) => v,
                            Err(h) => {
                                self.pop_template();
                                return Err(h);
                            },
                        };
                        let ghost before = out@;
                        let ghost added = more@;
                        out.append(&mut more);
                        proof {
                            assert forall|i: int| 0 <= i < out@.len() implies !(#[trigger] out@[i].action is Template) by {
                                if i >= before.len() {
                                    assert(out@[i] == added[i - before.len()]);
                                }
                            }
                        }
                    } else {
                        out.push(s2);
                    }
                }
                Ok(out)
            },
            other => {
                let e = mismatch_error(template_ref, "steps", &other);
                proof {
                    assert(template_error_of(e, template_ref@, mismatch_message(template_ref@, "steps"@, other)));
                    assert(call_error(e));
                }
                Err(Halt::Failed(e))
            },
        };
        self.pop_template();
        result
    }

    /// The variables of variable template `template_ref`, called with
    /// `call_params`, each substituted in the template's scope.
    #[verifier::loop_isolation(false)]
    fn expand_variable_template<
        S,
        C: Fn(&S, &String) -> Result<bool, String>,
        E: Fn(&S, &String, &String) -> Result<Result<Vec<S>, String>, String>,
        T: Fn(&S, &String) -> Result<String, ParseError>,
        B: Fn(&Vec<(String, YamlNode)>) -> S,
        R: Fn(&RawTemplateContent) -> Result<TemplateContent, String>,
        P: Fn(&String) -> Result<Pipeline, ParseError>,
    >(
        &mut self,
        template_ref: &String,
        call_params: &Vec<(String, YamlNode)>,
        files: &TemplateFiles,
        hooks: &TemplateHooks<C, E, T, B, R, P>,
    ) -> (r: Result<Vec<Variable>, Halt>)
        requires
            old(self).wf(),
            hooks_ready::<S, C, E, T, B, R, P>(*hooks),
        ensures
            call_refusal(*files, old(self).stack(), template_ref@, params_view(call_params@)) matches Some(x) ==> (r matches Err(
                h,
            ) && refused_with(h, x, old(self).stack(), template_ref@)),
            engine_kept(*old(self), *final(self)),
            r matches Err(h) ==> asks_new(h, *files) && !(h is NeedBase),
            !template_refs(files.templates@).contains(template_ref@) ==> r == Err::<Vec<Variable>, Halt>(
                Halt::NeedTemplate(*template_ref),
            ),
            hooks_deterministic::<S, C, E, T, B, R, P>(*hooks) ==> (r matches Err(h) ==> halt_explained::<S, C, E, T, B, R, P>(*hooks, *files, h)),
            r matches Ok(v) ==> template_loaded(files.templates@, template_ref@) && from_variable_template::<
                S,
                C,
                E,
                T,
                B,
                R,
                P,
            >(*hooks, v@),
    {
        let ghost st = self.stack();
        let (content, scope) = match self.open_template(template_ref, call_params, files, hooks) {
            Ok(x) => x,
            Err(h) => return Err(h),
        };
        let ghost f = hooks.evaluators.substitute;
        let result: Result<Vec<Variable>, Halt> = match content {
            TemplateContent::Variables(vars) => {
                let ghost vs0 = vars;
                let ghost all = vars@;
                let mut out: Vec<Variable> = Vec::new();
                let mut rest = vars;
                while rest.len() > 0
                    invariant
                        self.wf(),
                        self.stack().len() == st.len() + 1,
                        self.stack().drop_last() == st,
                        self.root() == old(self).root(),
                        self.repos() == old(self).repos(),
                        st == old(self).stack(),
                        hooks_ready::<S, C, E, T, B, R, P>(*hooks),
                        f == hooks.evaluators.substitute,
                        out@.len() + rest@.len() == all.len(),
                        rest@ == all.subrange(out@.len() as int, all.len() as int),
                        substitute_deterministic::<S, T>(f) ==> forall|j: int|
                            0 <= j < out@.len() ==> #[trigger] variable_done(f, scope, all[j], out@[j]),
                    decreases rest@.len(),
                {
                    let ghost i = out@.len() as int;
                    let v = rest.remove(0);
                    proof {
                        assert(v == all[i]);
                        assert(rest@ =~= all.subrange(i + 1, all.len() as int));
                    }
                    let ghost item0 = v;
                    match self.substitute_variable_params(v, &scope, &hooks.evaluators.substitute) {
                        Ok(x) => out.push(x),
                        Err(e) => {
                            self.pop_template();
                        proof {
                            if hooks_deterministic::<S, C, E, T, B, R, P>(*hooks) {
                                assert(variable_failure(hooks.evaluators.substitute, scope, item0) == Some(e));
                                assert(hook_error::<S, C, E, T, B, R, P>(*hooks, e));
                            }
                        }
                            return Err(Halt::Failed(e));
                        },
                    }
                }
                proof {
                    if substitute_deterministic::<S, T>(f) {
                        assert(variables_done(f, scope, vs0@, out@));
                    }
                    assert(read_gave::<S, C, E, T, B, R, P>(*hooks, TemplateContent::Variables(vs0)) && (
                    substitute_deterministic::<S, T>(hooks.evaluators.substitute) ==> variables_done(
                        hooks.evaluators.substitute,
                        scope,
                        vs0@,
                        out@,
                    )));
                    assert(some_scope(scope));
                    assert(from_variable_template::<S, C, E, T, B, R, P>(*hooks, out@));
                }
                Ok(out)
            },
            other => {
                let e = mismatch_error(template_ref, "variables", &other);
                proof {
                    assert(template_error_of(e, template_ref@, mismatch_message(template_ref@, "variables"@, other)));
                    assert(call_error(e));
                }
                Err(Halt::Failed(e))
            },
        };
        self.pop_template();
        result
    }

    /// The jobs of job template `template_ref`, called with `call_params`:
    /// each substituted in the template's scope, then its variable and step
    /// templates resolved.
    #[verifier::loop_isolation(false)]
    fn expand_job_template<
        S,
        C: Fn(&S, &String) -> Result<bool, String>,
        E: Fn(&S, &String, &String) -> Result<Result<Vec<S>, String>, String>,
        T: Fn(&S, &String) -> Result<String, ParseError>,
        B: Fn(&Vec<(String, YamlNode)>) -> S,
        R: Fn(&RawTemplateContent) -> Result<TemplateContent, String>,
        P: Fn(&String) -> Result<Pipeline, ParseError>,
    >(
        &mut self,
        template_ref: &String,
        call_params: &Vec<(String, YamlNode)>,
        files: &TemplateFiles,
        hooks: &TemplateHooks<C, E, T, B, R, P>,
    ) -> (r: Result<Vec<Job>, Halt>)
        requires
            old(self).wf(),
            hooks_ready::<S, C, E, T, B, R, P>(*hooks),
        ensures
            call_refusal(*files, old(self).stack(), template_ref@, params_view(call_params@)) matches Some(x) ==> (r matches Err(
                h,
            ) && refused_with(h, x, old(self).stack(), template_ref@)),
            engine_kept(*old(self), *final(self)),
            match r {
                Ok(v) => jobs_steps_free(v@),
                Err(h) => asks_new(h, *files) && !(h is NeedBase),
            },
            !template_refs(files.templates@).contains(template_ref@) ==> r == Err::<Vec<Job>, Halt>(
                Halt::NeedTemplate(*template_ref),
            ),
            hooks_deterministic::<S, C, E, T, B, R, P>(*hooks) ==> (r matches Err(h) ==> halt_explained::<S, C, E, T, B, R, P>(*hooks, *files, h)),
            r is Ok ==> template_loaded(files.templates@, template_ref@),
    {
        let ghost st = self.stack();
        let ghost root = self.root();
        let ghost repos = self.repos();
        let (content, scope) = match self.open_template(template_ref, call_params, files, hooks) {
            Ok(x) => x,
            Err(h) => return Err(h),
        };
        let result: Result<Vec<Job>, Halt> = match content {
            TemplateContent::Jobs(jobs) => {
                let mut out: Vec<Job> = Vec::new();
                let mut rest = jobs;
                while rest.len() > 0
                    invariant
                        self.wf(),
                        self.stack().len() == st.len() + 1,
                        self.stack().drop_last() == st,
                        self.root() == root,
                        self.repos() == repos,
                        hooks_ready::<S, C, E, T, B, R, P>(*hooks),
                        jobs_steps_free(out@),
                    decreases rest@.len(),
                {
                    let job = rest.remove(0);
                    let ghost item0 = job;
                    let mut j2 = match self.substitute_job_params(job, &scope, &hooks.evaluators.substitute) {
                        Ok(x) => x,
                        Err(e) => {
                            self.pop_template();
                        proof {
                            if hooks_deterministic::<S, C, E, T, B, R, P>(*hooks) {
                                assert(job_failure(hooks.evaluators.substitute, scope, item0) == Some(e));
                                assert(hook_error::<S, C, E, T, B, R, P>(*hooks, e));
                            }
                        }
                            return Err(Halt::Failed(e));
                        },
                    };
                    let mut vars: Vec<Variable> = Vec::new();
                    core::mem::swap(&mut vars, &mut j2.variables);
                    let vars = match self.resolve_variable_templates(vars, files, hooks) {
                        Ok(v) => v,
                        Err(h) => {
                            self.pop_template();
                            return Err(h);
                        },
                    };
                    let mut steps: Vec<Step> = Vec::new();
                    core::mem::swap(&mut steps, &mut j2.steps);
                    let steps = match self.resolve_step_templates(steps, files, hooks) {
                        Ok(v) => v,
                        Err(h) => {
                            self.pop_template();
                            return Err(h);
                        },
                    };
                    j2.variables = vars;
                    j2.steps = steps;
                    out.push(j2);
                }
                Ok(out)
            },
            other => {
                let e = mismatch_error(template_ref, "jobs", &other);
                proof {
                    assert(template_error_of(e, template_ref@, mismatch_message(template_ref@, "jobs"@, other)));
                    assert(call_error(e));
                }
                Err(Halt::Failed(e))
            },
        };
        self.pop_template();
        result
    }

    /// The stages of stage template `template_ref`, called with
    /// `call_params`: each substituted in the template's scope, then its
    /// variable and job templates resolved.
    #[verifier::loop_isolation(false)]
    fn expand_stage_template<
        S,
        C: Fn(&S, &String) -> Result<bool, String>,
        E: Fn(&S, &String, &String) -> Result<Result<Vec<S>, String>, String>,
        T: Fn(&S, &String) -> Result<String, ParseError>,
        B: Fn(&Vec<(String, YamlNode)>) -> S,
        R: Fn(&RawTemplateContent) -> Result<TemplateContent, String>,
        P: Fn(&String) -> Result<Pipeline, ParseError>,
    >(
        &mut self,
        template_ref: &String,
        call_params: &Vec<(String, YamlNode)>,
        files: &TemplateFiles,
        hooks: &TemplateHooks<C, E, T, B, R, P>,
    ) -> (r: Result<Vec<Stage>, Halt>)
        requires
            old(self).wf(),
            hooks_ready::<S, C, E, T, B, R, P>(*hooks),
        ensures
            call_refusal(*files, old(self).stack(), template_ref@, params_view(call_params@)) matches Some(x) ==> (r matches Err(
                h,
            ) && refused_with(h, x, old(self).stack(), template_ref@)),
            engine_kept(*old(self), *final(self)),
            match r {
                Ok(v) => stages_steps_free(v@),
                Err(h) => asks_new(h, *files) && !(h is NeedBase),
            },
            !template_refs(files.templates@).contains(template_ref@) ==> r == Err::<Vec<Stage>, Halt>(
                Halt::NeedTemplate(*template_ref),
            ),
            hooks_deterministic::<S, C, E, T, B, R, P>(*hooks) ==> (r matches Err(h) ==> halt_explained::<S, C, E, T, B, R, P>(*hooks, *files, h)),
            r is Ok ==> template_loaded(files.templates@, template_ref@),
    {
        let ghost st = self.stack();
        let ghost root = self.root();
        let ghost repos = self.repos();
        let (content, scope) = match self.open_template(template_ref, call_params, files, hooks) {
            Ok(x) => x,
            Err(h) => return Err(h),
        };
        let result: Result<Vec<Stage>, Halt> = match content {
            TemplateContent::Stages(stages) => {
                let mut out: Vec<Stage> = Vec::new();
                let mut rest = stages;
                while rest.len() > 0
                    invariant
                        self.wf(),
                        self.stack().len() == st.len() + 1,
                        self.stack().drop_last() == st,
                        self.root() == root,
                        self.repos() == repos,
                        hooks_ready::<S, C, E, T, B, R, P>(*hooks),
                        stages_steps_free(out@),
                    decreases rest@.len(),
                {
                    let stage = rest.remove(0);
                    let ghost item0 = stage;
                    let mut s2 = match self.substitute_stage_params(stage, &scope, &hooks.evaluators.substitute) {
                        Ok(x) => x,
                        Err(e) => {
                            self.pop_template();
                        proof {
                            if hooks_deterministic::<S, C, E, T, B, R, P>(*hooks) {
                                assert(stage_failure(hooks.evaluators.substitute, scope, item0) == Some(e));
                                assert(hook_error::<S, C, E, T, B, R, P>(*hooks, e));
                            }
                        }
                            return Err(Halt::Failed(e));
                        },
                    };
                    let mut vars: Vec<Variable> = Vec::new();
                    core::mem::swap(&mut vars, &mut s2.variables);
                    let vars = match self.resolve_variable_templates(vars, files, hooks) {
                        Ok(v) => v,
                        Err(h) => {
                            self.pop_template();
                            return Err(h);
                        },
                    };
                    let mut jobs: Vec<Job> = Vec::new();
                    core::mem::swap(&mut jobs, &mut s2.jobs);
                    let jobs = match self.resolve_job_templates(jobs, files, hooks) {
                        Ok(v) => v,
                        Err(h) => {
                            self.pop_template();
                            return Err(h);
                        },
                    };
                    s2.variables = vars;
                    s2.jobs = jobs;
                    out.push(s2);
                }
                Ok(out)
            },
            other => {
                let e = mismatch_error(template_ref, "stages", &other);
                proof {
                    assert(template_error_of(e, template_ref@, mismatch_message(template_ref@, "stages"@, other)));
                    assert(call_error(e));
                }
                Err(Halt::Failed(e))
            },
        };
        self.pop_template();
        result
    }
}


impl TemplateEngine {
    /// Variables with each template reference replaced by the variables of
    /// its template, in order.
    #[verifier::loop_isolation(false)]
    pub fn resolve_variable_templates<
        S,
        C: Fn(&S, &String) -> Result<bool, String>,
        E: Fn(&S, &String, &String) -> Result<Result<Vec<S>, String>, String>,
        T: Fn(&S, &String) -> Result<String, ParseError>,
        B: Fn(&Vec<(String, YamlNode)>) -> S,
        R: Fn(&RawTemplateContent) -> Result<TemplateContent, String>,
        P: Fn(&String) -> Result<Pipeline, ParseError>,
    >(
        &mut self,
        vars: Vec<Variable>,
        files: &TemplateFiles,
        hooks: &TemplateHooks<C, E, T, B, R, P>,
    ) -> (r: Result<Vec<Variable>, Halt>)
        requires
            old(self).wf(),
            hooks_ready::<S, C, E, T, B, R, P>(*hooks),
        ensures
            hooks_deterministic::<S, C, E, T, B, R, P>(*hooks) ==> (r matches Err(h) ==> halt_explained::<S, C, E, T, B, R, P>(*hooks, *files, h)),
            engine_kept(*old(self), *final(self)),
            r matches Err(h) ==> asks_new(h, *files) && !(h is NeedBase),
            vars_free(vars@) ==> (r matches Ok(v) && v@ == vars@),
            r matches Ok(v) ==> vars_resolved::<S, C, E, T, B, R, P>(*hooks, *files, vars@, v@),
            first_var_refusal_halts(*files, old(self).stack(), vars@, halt_of(r)),
    {
        let ghost st = self.stack();
        let ghost root = self.root();
        let ghost repos = self.repos();
        let ghost all = vars@;
        let mut out: Vec<Variable> = Vec::new();
        let ghost mut parts: Seq<Seq<Variable>> = Seq::empty();
        let mut rest = vars;
        while rest.len() > 0
            invariant
                self.wf(),
                self.stack() == st,
                self.root() == root,
                self.repos() == repos,
                hooks_ready::<S, C, E, T, B, R, P>(*hooks),
                rest@ == all.subrange(all.len() - rest@.len(), all.len() as int),
                rest@.len() <= all.len(),
                vars_free(all) ==> out@ == all.subrange(0, all.len() - rest@.len()),
                parts.len() == all.len() - rest@.len(),
                out@ == concat(parts),
                forall|i: int| 0 <= i < parts.len() ==> var_resolved::<S, C, E, T, B, R, P>(*hooks, *files, #[trigger] all[i], parts[i]),
                forall|i: int| 0 <= i < parts.len() ==> var_not_refused(*files, st, #[trigger] all[i]),
            decreases rest@.len(),
        {
            let ghost k = all.len() - rest@.len();
            let v = rest.remove(0);
            proof {
                assert(v == all[k]);
                assert(rest@ =~= all.subrange(all.len() - rest@.len(), all.len() as int));
            }
            match v {
                Variable::Template { template, parameters } => {
                    let mut more = match self.expand_variable_template(&template, &parameters, files, hooks) {
                        Ok(x) => x,
                        Err(h) => {
                            proof {
                                assert forall|i: int| 0 <= i < all.len() && vars_free(all.take(i)) implies match all[i] {
                                    Variable::Template { template, parameters } => (call_refusal(*files, st, template@, params_view(parameters@)) matches Some(x) ==> (Some(h) matches Some(h2) && refused_with(h2, x, st, template@))),
                                    _ => true,
                                } by {
                                    if i > k {
                                        assert(all.take(i)[k] == all[k]);
                                    }
                                    if i < k {
                                        assert(var_not_refused(*files, st, all[i]));
                                    }
                                }
                            }
                            return Err(h);
                        },
                    };
                    let ghost part = more@;
                    out.append(&mut more);
                    proof {
                        lemma_concat_push(parts, part);
                        parts = parts.push(part);
                    }
                },
                other => {
                    let ghost one = seq![other];
                    out.push(other);
                    proof {
                        lemma_concat_push(parts, one);
                        parts = parts.push(one);
                        if vars_free(all) {
                            assert(out@ =~= all.subrange(0, all.len() - rest@.len()));
                        }
                    }
                },
            }
        }
        proof {
            assert(all.subrange(0, all.len() as int) =~= all);
            assert(vars_resolved::<S, C, E, T, B, R, P>(*hooks, *files, all, out@));
        }
        Ok(out)
    }

    /// Steps with each template reference replaced by the steps of its
    /// template, in order.
    #[verifier::loop_isolation(false)]
    pub fn resolve_step_templates<
        S,
        C: Fn(&S, &String) -> Result<bool, String>,
        E: Fn(&S, &String, &String) -> Result<Result<Vec<S>, String>, String>,
        T: Fn(&S, &String) -> Result<String, ParseError>,
        B: Fn(&Vec<(String, YamlNode)>) -> S,
        R: Fn(&RawTemplateContent) -> Result<TemplateContent, String>,
        P: Fn(&String) -> Result<Pipeline, ParseError>,
    >(
        &mut self,
        steps: Vec<Step>,
        files: &TemplateFiles,
        hooks: &TemplateHooks<C, E, T, B, R, P>,
    ) -> (r: Result<Vec<Step>, Halt>)
        requires
            old(self).wf(),
            hooks_ready::<S, C, E, T, B, R, P>(*hooks),
        ensures
            hooks_deterministic::<S, C, E, T, B, R, P>(*hooks) ==> (r matches Err(h) ==> halt_explained::<S, C, E, T, B, R, P>(*hooks, *files, h)),
            engine_kept(*old(self), *final(self)),
            match r {
                Ok(v) => steps_free(v@),
                Err(h) => asks_new(h, *files) && !(h is NeedBase),
            },
            steps_free(steps@) ==> (r matches Ok(v) && v@ == steps@),
            r matches Ok(v) ==> steps_resolved(*files, steps@, v@),
            first_step_refusal_halts(*files, old(self).stack(), steps@, halt_of(r)),
    {
        let ghost st = self.stack();
        let ghost root = self.root();
        let ghost repos = self.repos();
        let ghost all = steps@;
        let mut out: Vec<Step> = Vec::new();
        let ghost mut parts: Seq<Seq<Step>> = Seq::empty();
        let mut rest = steps;
        while rest.len() > 0
            invariant
                self.wf(),
                self.stack() == st,
                self.root() == root,
                self.repos() == repos,
                hooks_ready::<S, C, E, T, B, R, P>(*hooks),
                rest@ == all.subrange(all.len() - rest@.len(), all.len() as int),
                rest@.len() <= all.len(),
                steps_free(out@),
                steps_free(all) ==> out@ == all.subrange(0, all.len() - rest@.len()),
                parts.len() == all.len() - rest@.len(),
                out@ == concat(parts),
                forall|i: int| 0 <= i < parts.len() ==> step_resolved(*files, #[trigger] all[i], parts[i]),
                forall|i: int| 0 <= i < parts.len() ==> step_not_refused(*files, st, #[trigger] all[i]),
            decreases rest@.len(),
        {
            let ghost k = all.len() - rest@.len();
            let step = rest.remove(0);
            proof {
                assert(step == all[k]);
                assert(rest@ =~= all.subrange(all.len() - rest@.len(), all.len() as int));
            }
            if let StepAction::Template(t) = &step.action {
                let mut more = match self.expand_step_template(&t.template, &t.parameters, files, hooks) {
                    Ok(x) => x,
                    Err(h) => {
                        proof {
                            assert forall|i: int| 0 <= i < all.len() && steps_free(all.take(i)) implies match all[i].action {
                                StepAction::Template(t) => (call_refusal(*files, st, t.template@, params_view(t.parameters@)) matches Some(x) ==> (Some(h) matches Some(h2) && refused_with(h2, x, st, t.template@))),
                                _ => true,
                            } by {
                                if i > k {
                                    assert(all.take(i)[k] == all[k]);
                                }
                                if i < k {
                                    assert(step_not_refused(*files, st, all[i]));
                                }
                            }
                        }
                        return Err(h);
                    },
                };
                let ghost before = out@;
                let ghost added = more@;
                out.append(&mut more);
                proof {
                    assert forall|i: int| 0 <= i < out@.len() implies !(#[trigger] out@[i].action is Template) by {
                        if i >= before.len() {
                            assert(out@[i] == added[i - before.len()]);
                        }
                    }
                    lemma_concat_push(parts, added);
                    parts = parts.push(added);
                }
            } else {
                let ghost one = seq![step];
                out.push(step);
                proof {
                    lemma_concat_push(parts, one);
                    parts = parts.push(one);
                    if steps_free(all) {
                        assert(out@ =~= all.subrange(0, all.len() - rest@.len()));
                    }
                }
            }
        }
        proof {
            assert(all.subrange(0, all.len() as int) =~= all);
            assert(steps_resolved(*files, all, out@));
        }
        Ok(out)
    }

    /// Jobs with each template reference replaced by the jobs of its
    /// template, in order; the variable and step templates of the other jobs
    /// resolved in place.
    #[verifier::loop_isolation(false)]
    pub fn resolve_job_templates<
        S,
        C: Fn(&S, &String) -> Result<bool, String>,
        E: Fn(&S, &String, &String) -> Result<Result<Vec<S>, String>, String>,
        T: Fn(&S, &String) -> Result<String, ParseError>,
        B: Fn(&Vec<(String, YamlNode)>) -> S,
        R: Fn(&RawTemplateContent) -> Result<TemplateContent, String>,
        P: Fn(&String) -> Result<Pipeline, ParseError>,
    >(
        &mut self,
        jobs: Vec<Job>,
        files: &TemplateFiles,
        hooks: &TemplateHooks<C, E, T, B, R, P>,
    ) -> (r: Result<Vec<Job>, Halt>)
        requires
            old(self).wf(),
            hooks_ready::<S, C, E, T, B, R, P>(*hooks),
        ensures
            hooks_deterministic::<S, C, E, T, B, R, P>(*hooks) ==> (r matches Err(h) ==> halt_explained::<S, C, E, T, B, R, P>(*hooks, *files, h)),
            engine_kept(*old(self), *final(self)),
            match r {
                Ok(v) => jobs_steps_free(v@),
                Err(h) => asks_new(h, *files) && !(h is NeedBase),
            },
            jobs_free(jobs@) ==> (r matches Ok(v) && jobs_same(jobs@, v@)),
            r matches Ok(v) ==> jobs_resolved::<S, C, E, T, B, R, P>(*hooks, *files, jobs@, v@),
    {
        let ghost st = self.stack();
        let ghost root = self.root();
        let ghost repos = self.repos();
        let ghost all = jobs@;
        let mut out: Vec<Job> = Vec::new();
        let ghost mut parts: Seq<Seq<Job>> = Seq::empty();
        let mut rest = jobs;
        while rest.len() > 0
            invariant
                self.wf(),
                self.stack() == st,
                self.root() == root,
                self.repos() == repos,
                hooks_ready::<S, C, E, T, B, R, P>(*hooks),
                rest@ == all.subrange(all.len() - rest@.len(), all.len() as int),
                rest@.len() <= all.len(),
                jobs_steps_free(out@),
                jobs_free(all) ==> jobs_same(all.subrange(0, all.len() - rest@.len()), out@),
                parts.len() == all.len() - rest@.len(),
                out@ == concat(parts),
                forall|i: int| 0 <= i < parts.len() ==> job_resolved::<S, C, E, T, B, R, P>(*hooks, *files, #[trigger] all[i], parts[i]),
            decreases rest@.len(),
        {
            let ghost k = all.len() - rest@.len();
            let mut job = rest.remove(0);
            proof {
                assert(job == all[k]);
                assert(rest@ =~= all.subrange(all.len() - rest@.len(), all.len() as int));
            }
            if let Some(t) = &job.template {
                let mut more = match self.expand_job_template(t, &job.parameters, files, hooks) {
                    Ok(x) => x,
                    Err(h) => return Err(h),
                };
                let ghost before = out@;
                let ghost added = more@;
                out.append(&mut more);
                proof {
                    assert forall|i: int| 0 <= i < out@.len() implies steps_free(#[trigger] out@[i].steps@) by {
                        if i >= before.len() {
                            assert(out@[i] == added[i - before.len()]);
                        }
                    }
                    lemma_concat_push(parts, added);
                    parts = parts.push(added);
                }
            } else {
                let ghost j0 = job;
                let mut vars: Vec<Variable> = Vec::new();
                core::mem::swap(&mut vars, &mut job.variables);
                let vars = match self.resolve_variable_templates(vars, files, hooks) {
                    Ok(v) => v,
                    Err(h) => return Err(h),
                };
                let mut steps: Vec<Step> = Vec::new();
                core::mem::swap(&mut steps, &mut job.steps);
                let steps = match self.resolve_step_templates(steps, files, hooks) {
                    Ok(v) => v,
                    Err(h) => return Err(h),
                };
                job.variables = vars;
                job.steps = steps;
                let ghost before = out@;
                let ghost one = seq![job];
                out.push(job);
                proof {
                    assert(job_resolved::<S, C, E, T, B, R, P>(*hooks, *files, all[k], one));
                    lemma_concat_push(parts, one);
                    parts = parts.push(one);
                    assert forall|i: int| 0 <= i < out@.len() implies steps_free(#[trigger] out@[i].steps@) by {
                        if i < before.len() {
                            assert(out@[i] == before[i]);
                        }
                    }
                    if jobs_free(all) {
                        assert(job_free(all[k]));
                        let pre = all.subrange(0, all.len() - rest@.len());
                        assert forall|i: int| 0 <= i < pre.len() implies job_same(#[trigger] pre[i], out@[i]) by {
                            if i < before.len() {
                                assert(pre[i] == all.subrange(0, k)[i]);
                            }
                        }
                    }
                }
            }
        }
        proof {
            assert(all.subrange(0, all.len() as int) =~= all);
            assert(jobs_resolved::<S, C, E, T, B, R, P>(*hooks, *files, all, out@));
        }
        Ok(out)
    }

    /// Stages with each template reference replaced by the stages of its
    /// template, in order; the variable and job templates of the other
    /// stages resolved in place.
    #[verifier::loop_isolation(false)]
    pub fn resolve_stage_templates<
        S,
        C: Fn(&S, &String) -> Result<bool, String>,
        E: Fn(&S, &String, &String) -> Result<Result<Vec<S>, String>, String>,
        T: Fn(&S, &String) -> Result<String, ParseError>,
        B: Fn(&Vec<(String, YamlNode)>) -> S,
        R: Fn(&RawTemplateContent) -> Result<TemplateContent, String>,
        P: Fn(&String) -> Result<Pipeline, ParseError>,
    >(
        &mut self,
        stages: Vec<Stage>,
        files: &TemplateFiles,
        hooks: &TemplateHooks<C, E, T, B, R, P>,
    ) -> (r: Result<Vec<Stage>, Halt>)
        requires
            old(self).wf(),
            hooks_ready::<S, C, E, T, B, R, P>(*hooks),
        ensures
            hooks_deterministic::<S, C, E, T, B, R, P>(*hooks) ==> (r matches Err(h) ==> halt_explained::<S, C, E, T, B, R, P>(*hooks, *files, h)),
            engine_kept(*old(self), *final(self)),
            match r {
                Ok(v) => stages_steps_free(v@),
                Err(h) => asks_new(h, *files) && !(h is NeedBase),
            },
            stages_free(stages@) ==> (r matches Ok(v) && stages_same(stages@, v@)),
            r matches Ok(v) ==> stages_resolved::<S, C, E, T, B, R, P>(*hooks, *files, stages@, v@),
    {
        let ghost st = self.stack();
        let ghost root = self.root();
        let ghost repos = self.repos();
        let ghost all = stages@;
        let mut out: Vec<Stage> = Vec::new();
        let ghost mut parts: Seq<Seq<Stage>> = Seq::empty();
        let mut rest = stages;
        while rest.len() > 0
            invariant
                self.wf(),
                self.stack() == st,
                self.root() == root,
                self.repos() == repos,
                hooks_ready::<S, C, E, T, B, R, P>(*hooks),
                rest@ == all.subrange(all.len() - rest@.len(), all.len() as int),
                rest@.len() <= all.len(),
                stages_steps_free(out@),
                stages_free(all) ==> stages_same(all.subrange(0, all.len() - rest@.len()), out@),
                parts.len() == all.len() - rest@.len(),
                out@ == concat(parts),
                forall|i: int| 0 <= i < parts.len() ==> stage_resolved::<S, C, E, T, B, R, P>(*hooks, *files, #[trigger] all[i], parts[i]),
            decreases rest@.len(),
        {
            let ghost k = all.len() - rest@.len();
            let mut stage = rest.remove(0);
            proof {
                assert(stage == all[k]);
                assert(rest@ =~= all.subrange(all.len() - rest@.len(), all.len() as int));
            }
            if let Some(t) = &stage.template {
                let mut more = match self.expand_stage_template(t, &stage.parameters, files, hooks) {
                    Ok(x) => x,
                    Err(h) => return Err(h),
                };
                let ghost before = out@;
                let ghost added = more@;
                out.append(&mut more);
                proof {
                    assert forall|i: int| 0 <= i < out@.len() implies jobs_steps_free(#[trigger] out@[i].jobs@) by {
                        if i >= before.len() {
                            assert(out@[i] == added[i - before.len()]);
                        }
                    }
                    lemma_concat_push(parts, added);
                    parts = parts.push(added);
                }
            } else {
                let mut vars: Vec<Variable> = Vec::new();
                core::mem::swap(&mut vars, &mut stage.variables);
                let vars = match self.resolve_variable_templates(vars, files, hooks) {
                    Ok(v) => v,
                    Err(h) => return Err(h),
                };
                let mut jobs: Vec<Job> = Vec::new();
                core::mem::swap(&mut jobs, &mut stage.jobs);
                let jobs = match self.resolve_job_templates(jobs, files, hooks) {
                    Ok(v) => v,
                    Err(h) => return Err(h),
                };
                stage.variables = vars;
                stage.jobs = jobs;
                let ghost before = out@;
                let ghost one = seq![stage];
                out.push(stage);
                proof {
                    assert(stage_resolved::<S, C, E, T, B, R, P>(*hooks, *files, all[k], one));
                    lemma_concat_push(parts, one);
                    parts = parts.push(one);
                    assert forall|i: int| 0 <= i < out@.len() implies jobs_steps_free(#[trigger] out@[i].jobs@) by {
                        if i < before.len() {
                            assert(out@[i] == before[i]);
                        }
                    }
                    if stages_free(all) {
                        assert(stage_free(all[k]));
                        let pre = all.subrange(0, all.len() - rest@.len());
                        assert forall|i: int| 0 <= i < pre.len() implies stage_same(#[trigger] pre[i], out@[i]) by {
                            if i < before.len() {
                                assert(pre[i] == all.subrange(0, k)[i]);
                            }
                        }
                    }
                }
            }
        }
        proof {
            assert(all.subrange(0, all.len() as int) =~= all);
            assert(stages_resolved::<S, C, E, T, B, R, P>(*hooks, *files, all, out@));
        }
        Ok(out)
    }
}


impl TemplateEngine {
    /// One pass over a pipeline: its variable, stage, job and step templates
    /// resolved, in that order; the rest is kept.
    pub fn resolve_templates<
        S,
        C: Fn(&S, &String) -> Result<bool, String>,
        E: Fn(&S, &String, &String) -> Result<Result<Vec<S>, String>, String>,
        T: Fn(&S, &String) -> Result<String, ParseError>,
        B: Fn(&Vec<(String, YamlNode)>) -> S,
        R: Fn(&RawTemplateContent) -> Result<TemplateContent, String>,
        P: Fn(&String) -> Result<Pipeline, ParseError>,
    >(
        &mut self,
        pipeline: Pipeline,
        files: &TemplateFiles,
        hooks: &TemplateHooks<C, E, T, B, R, P>,
    ) -> (r: Result<Pipeline, Halt>)
        requires
            old(self).wf(),
            hooks_ready::<S, C, E, T, B, R, P>(*hooks),
        ensures
            first_var_refusal_halts(*files, old(self).stack(), pipeline.variables@, halt_of(r)),
            vars_free(pipeline.variables@) && stages_free(pipeline.stages@) && jobs_free(pipeline.jobs@)
                ==> first_step_refusal_halts(*files, old(self).stack(), pipeline.steps@, halt_of(r)),
            hooks_deterministic::<S, C, E, T, B, R, P>(*hooks) ==> (r matches Err(h) ==> halt_explained::<S, C, E, T, B, R, P>(*hooks, *files, h)),
            engine_kept(*old(self), *final(self)),
            match r {
                Ok(p) => pipeline_steps_free(p) && p == Pipeline {
                    variables: p.variables,
                    stages: p.stages,
                    jobs: p.jobs,
                    steps: p.steps,
                    ..pipeline
                },
                Err(h) => asks_new(h, *files) && !(h is NeedBase),
            },
            pipeline_free(pipeline) ==> (r matches Ok(p) && pipeline_same(pipeline, p)),
            r matches Ok(p) ==> pipeline_resolved::<S, C, E, T, B, R, P>(*hooks, *files, pipeline, p),
    {
        let mut p = pipeline;
        let mut variables: Vec<Variable> = Vec::new();
        core::mem::swap(&mut variables, &mut p.variables);
        let variables = match self.resolve_variable_templates(variables, files, hooks) {
            Ok(v) => v,
            Err(h) => return Err(h),
        };
        let mut stages: Vec<Stage> = Vec::new();
        core::mem::swap(&mut stages, &mut p.stages);
        let stages = match self.resolve_stage_templates(stages, files, hooks) {
            Ok(v) => v,
            Err(h) => return Err(h),
        };
        let mut jobs: Vec<Job> = Vec::new();
        core::mem::swap(&mut jobs, &mut p.jobs);
        let jobs = match self.resolve_job_templates(jobs, files, hooks) {
            Ok(v) => v,
            Err(h) => return Err(h),
        };
        let mut steps: Vec<Step> = Vec::new();
        core::mem::swap(&mut steps, &mut p.steps);
        let steps = match self.resolve_step_templates(steps, files, hooks) {
            Ok(v) => v,
            Err(h) => return Err(h),
        };
        p.variables = variables;
        p.stages = stages;
        p.jobs = jobs;
        p.steps = steps;
        Ok(p)
    }

    /// The pipeline that `child` extends, with its parameters resolved
    /// against those `extends` passes and substituted, merged with `child`.
    /// The result keeps the `extends` of the template, if it has one.
    #[verifier::rlimit(40)]
    fn resolve_extends<
        S,
        C: Fn(&S, &String) -> Result<bool, String>,
        E: Fn(&S, &String, &String) -> Result<Result<Vec<S>, String>, String>,
        T: Fn(&S, &String) -> Result<String, ParseError>,
        B: Fn(&Vec<(String, YamlNode)>) -> S,
        R: Fn(&RawTemplateContent) -> Result<TemplateContent, String>,
        P: Fn(&String) -> Result<Pipeline, ParseError>,
    >(
        &mut self,
        extends: &Extends,
        child: Pipeline,
        files: &TemplateFiles,
        hooks: &TemplateHooks<C, E, T, B, R, P>,
    ) -> (r: Result<Pipeline, Halt>)
        requires
            old(self).wf(),
            hooks_ready::<S, C, E, T, B, R, P>(*hooks),
        ensures
            hooks_deterministic::<S, C, E, T, B, R, P>(*hooks) ==> (r matches Err(h) ==> halt_explained::<S, C, E, T, B, R, P>(*hooks, *files, h)),
            engine_kept(*old(self), *final(self)),
            r matches Err(h) ==> asks_new(h, *files) && !(h is NeedTemplate),
            !base_refs(files.bases@).contains(extends.template@) ==> r == Err::<Pipeline, Halt>(
                Halt::NeedBase(extends.template),
            ),
    {
        let ghost st = self.stack();
        match find_base(&files.bases, &extends.template) {
            None => Err(Halt::NeedBase(copy_text(&extends.template))),
            Some(BaseSource::Missing(e)) => {
                let c = copy_error(e);
                proof {
                    assert(source_error(*files, c));
                }
                Err(Halt::Failed(c))
            },
            Some(BaseSource::Unreadable { canonical, reason }) => {
                match self.push_template(canonical.as_str()) {
                    Err(e) => {
                        proof {
                            assert(load_error(e));
                        }
                        Err(Halt::Failed(e))
                    },
                    Ok(()) => {
                        self.pop_template();
                        proof {
                            assert(st.push(canonical@).drop_last() =~= st);
                        }
                        let mut msg = String::from_str("failed to read extends template: ");
                        msg.append(reason.as_str());
                        let e = template_failure(&msg, TemplateErrorKind::NotFound, extends.template.as_str());
                        proof {
                            assert(msg@ == unreadable_base_message(reason@));
                            assert(template_error_of(e, extends.template@, unreadable_base_message(reason@)));
                            assert(load_error(e));
                        }
                        Err(Halt::Failed(e))
                    },
                }
            },
            Some(BaseSource::Loaded { canonical, text }) => {
                match self.push_template(canonical.as_str()) {
                    Err(e) => {
                        proof {
                            assert(load_error(e));
                        }
                        Err(Halt::Failed(e))
                    },
                    Ok(()) => {
                        proof {
                            assert(st.push(canonical@).drop_last() =~= st);
                        }
                        let parent = match (hooks.parse)(text) {
                            Ok(p) => p,
                            Err(e) => {
                                self.pop_template();
                                let mut msg = concat3("error in extends template '", extends.template.as_str(), "': ");
                                msg.append(e.message.as_str());
                                let e2 = ParseError::new(msg.as_str(), e.line, e.column).with_kind(
                                    ParseErrorKind::TemplateError,
                                );
                                proof {
                                    assert(msg@ == base_error_message(extends.template@, e.message@));
                                    assert(call_ensures(hooks.parse, (text,), Err::<Pipeline, ParseError>(e)));
                                    assert(hook_error::<S, C, E, T, B, R, P>(*hooks, e2));
                                }
                                return Err(Halt::Failed(e2));
                            },
                        };
                        let params = match self.resolve_parameters(
                            &parent.parameters,
                            &extends.parameters,
                            extends.template.as_str(),
                        ) {
                            Ok(p) => p,
                            Err(e) => {
                                self.pop_template();
                                proof {
                                    let f = choose|f: ParamFailure| failure_matches(e, f, extends.template@);
                                    assert(failure_matches(e, f, extends.template@));
                                    assert(call_error(e));
                                }
                                return Err(Halt::Failed(e));
                            },
                        };
                        let scope = (hooks.scope_of)(&params);
                        let ghost parent0 = parent;
                        let parent = match self.substitute_template_parameters(
                            parent,
                            &scope,
                            &hooks.evaluators.substitute,
                        ) {
                            Ok(p) => p,
                            Err(e) => {
                                self.pop_template();
                                proof {
                                    if hooks_deterministic::<S, C, E, T, B, R, P>(*hooks) {
                                        assert(pipeline_failure(hooks.evaluators.substitute, scope, parent0) == Some(e));
                                        assert(hook_error::<S, C, E, T, B, R, P>(*hooks, e));
                                    }
                                }
                                return Err(Halt::Failed(e));
                            },
                        };
                        let merged = self.merge_extends(parent, child);
                        self.pop_template();
                        Ok(merged)
                    },
                }
            },
        }
    }

    /// Resolves the templates of `pipeline`.  While the pipeline extends a
    /// template, it is merged into that template, which may extend another;
    /// then each level of extension and the pipeline itself are resolved by
    /// a pass of `resolve_templates`, one after the other.  A halt stops the
    /// resolution.  A chain of extensions longer than the pipelines handed
    /// in extends one of them twice and would never end: it fails with a
    /// circular reference error.
    pub fn resolve_pipeline<
        S,
        C: Fn(&S, &String) -> Result<bool, String>,
        E: Fn(&S, &String, &String) -> Result<Result<Vec<S>, String>, String>,
        T: Fn(&S, &String) -> Result<String, ParseError>,
        B: Fn(&Vec<(String, YamlNode)>) -> S,
        R: Fn(&RawTemplateContent) -> Result<TemplateContent, String>,
        P: Fn(&String) -> Result<Pipeline, ParseError>,
    >(
        &mut self,
        pipeline: Pipeline,
        files: &TemplateFiles,
        hooks: &TemplateHooks<C, E, T, B, R, P>,
    ) -> (r: Result<Pipeline, Halt>)
        requires
            old(self).wf(),
            hooks_ready::<S, C, E, T, B, R, P>(*hooks),
        ensures
            pipeline.extends is None ==> first_var_refusal_halts(*files, old(self).stack(), pipeline.variables@, halt_of(r)),
            pipeline.extends is None && vars_free(pipeline.variables@) && stages_free(pipeline.stages@) && jobs_free(
                pipeline.jobs@,
            ) ==> first_step_refusal_halts(*files, old(self).stack(), pipeline.steps@, halt_of(r)),
            hooks_deterministic::<S, C, E, T, B, R, P>(*hooks) ==> (r matches Err(h) ==> halt_explained::<S, C, E, T, B, R, P>(*hooks, *files, h)),
            engine_kept(*old(self), *final(self)),
            match r {
                Ok(p) => p.extends is None && pipeline_steps_free(p),
                Err(h) => asks_new(h, *files),
            },
            pipeline.extends is None && pipeline_free(pipeline) ==> (r matches Ok(p) && pipeline_same(pipeline, p)),
            pipeline.extends is None ==> (r matches Ok(p) ==> pipeline_resolved::<S, C, E, T, B, R, P>(*hooks, *files, pipeline, p)),
    {
        let ghost st = self.stack();
        let ghost root = self.root();
        let ghost repos = self.repos();
        let mut p = pipeline;
        let bound: u128 = files.bases.len() as u128;
        let mut levels: u128 = 0;
        while p.extends.is_some()
            invariant
                engine_kept(*old(self), *self),
                hooks_ready::<S, C, E, T, B, R, P>(*hooks),
                bound == files.bases@.len(),
                bound <= usize::MAX,
                levels <= bound + 1,
                pipeline.extends is None ==> levels == 0 && p == pipeline,
            decreases bound + 1 - levels,
        {
            if levels > bound {
                let msg = String::from_str("circular extends chain: a pipeline extends a template it already extended");
                let e = TemplateError::new(msg.as_str(), TemplateErrorKind::CircularReference);
                return Err(Halt::Failed(e.to_parse_error()));
            }
            let mut ext: Option<Extends> = None;
            core::mem::swap(&mut ext, &mut p.extends);
            match ext {
                Some(x) => {
                    p = match self.resolve_extends(&x, p, files, hooks) {
                        Ok(m) => m,
                        Err(h) => return Err(h),
                    };
                },
                None => {},
            }
            levels = levels + 1;
        }
        let mut pass: u128 = 0;
        while pass <= levels
            invariant
                engine_kept(*old(self), *self),
                hooks_ready::<S, C, E, T, B, R, P>(*hooks),
                levels <= bound + 1,
                bound == files.bases@.len(),
                bound <= usize::MAX,
                p.extends is None,
                pass == 0 || pipeline_steps_free(p),
                pass <= levels + 1,
                pipeline.extends is None && vars_free(pipeline.variables@) && stages_free(pipeline.stages@) && jobs_free(
                    pipeline.jobs@,
                ) && pass == 1 ==> first_step_refusal_halts(*files, old(self).stack(), pipeline.steps@, None),
                pipeline.extends is None && pass == 1 ==> first_var_refusal_halts(*files, old(self).stack(), pipeline.variables@, None),
                pipeline.extends is None ==> levels == 0 && (pass == 0 ==> p == pipeline) && (pass == 1
                    ==> pipeline_resolved::<S, C, E, T, B, R, P>(*hooks, *files, pipeline, p)),
                pipeline.extends is None && pipeline_free(pipeline) ==> levels == 0 && (if pass == 0 {
                    p == pipeline
                } else {
                    pipeline_same(pipeline, p)
                }),
            decreases levels + 1 - pass,
        {
            p = match self.resolve_templates(p, files, hooks) {
                Ok(q) => q,
                Err(h) => return Err(h),
            };
            pass = pass + 1;
        }
        Ok(p)
    }
}

} // verus!
