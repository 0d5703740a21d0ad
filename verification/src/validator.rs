//! Semantic checks of a parsed pipeline, reporting every problem found, and
//! the normal form of a pipeline as stages of jobs of steps.

use vstd::prelude::*;
use crate::cycles::{acyclic, adj_view, closed_walk, find_cycle, first_cycle, graph_ok};
use crate::graph::{job_key, job_key_string, stage_key, stage_key_string, strs};
use crate::models::{BoolOrExpression, DependsOn, Job, Pipeline, Stage};
use crate::parse_error::ValidationError;
use crate::text::{decimal, join, join_strings, usize_to_decimal};
use std::collections::HashMap;

verus! {

broadcast use vstd::string::group_string_axioms;

// ---------------------------------------------------------------------------
// Issues
// ---------------------------------------------------------------------------

/// A problem as reported: message, where, and what to do about it.
pub struct IssueView {
    pub message: Seq<char>,
    pub path: Seq<char>,
    pub suggestion: Option<Seq<char>>,
}

pub open spec fn issue_view(e: ValidationError) -> IssueView {
    IssueView {
        message: e.message@,
        path: e.path@,
        suggestion: match e.suggestion {
            Some(s) => Some(s@),
            None => None,
        },
    }
}

pub open spec fn issues_view(v: Seq<ValidationError>) -> Seq<IssueView> {
    v.map_values(|e: ValidationError| issue_view(e))
}

pub open spec fn issue(message: Seq<char>, path: Seq<char>, suggestion: Option<Seq<char>>) -> IssueView {
    IssueView { message, path, suggestion }
}

/// `prefix[i]`.
pub open spec fn indexed(prefix: Seq<char>, i: int) -> Seq<char> {
    prefix + "["@ + decimal(i as nat) + "]"@
}

/// The problems of one job at `path`: no name (and no template), and no
/// steps (unless a template or a deployment).
pub open spec fn job_issues(j: Job, path: Seq<char>) -> Seq<IssueView> {
    (if j.job is None && j.deployment is None && j.template is None {
        seq![
            issue(
                "job must have 'job:', 'deployment:', or 'template:'"@,
                path,
                Some("add 'job: MyJobName' to identify this job"@),
            ),
        ]
    } else {
        Seq::empty()
    }) + (if j.steps@.len() == 0 && j.template is None && j.deployment is None {
        seq![issue("job must have steps"@, path, Some("add 'steps:' to define what the job should do"@))]
    } else {
        Seq::empty()
    })
}

/// The problems of the first `n` jobs, the `i`-th at `prefix[i]`.
pub open spec fn jobs_issues(jobs: Seq<Job>, prefix: Seq<char>, n: int) -> Seq<IssueView>
    decreases n,
{
    if n <= 0 {
        Seq::empty()
    } else {
        jobs_issues(jobs, prefix, n - 1) + job_issues(jobs[n - 1], indexed(prefix, n - 1))
    }
}

/// The problems of one stage at `path`: neither jobs nor a template; then
/// those of its jobs.
pub open spec fn stage_issues(s: Stage, path: Seq<char>) -> Seq<IssueView> {
    (if s.jobs@.len() == 0 && s.template is None {
        seq![
            issue(
                "stage must have jobs or reference a template"@,
                path,
                Some("add 'jobs:' or 'template:' to the stage"@),
            ),
        ]
    } else {
        Seq::empty()
    }) + jobs_issues(s.jobs@, path + ".jobs"@, s.jobs@.len() as int)
}

pub open spec fn stages_issues(stages: Seq<Stage>, n: int) -> Seq<IssueView>
    decreases n,
{
    if n <= 0 {
        Seq::empty()
    } else {
        stages_issues(stages, n - 1) + stage_issues(stages[n - 1], indexed("stages"@, n - 1))
    }
}

pub open spec fn structure_issues(p: Pipeline) -> Seq<IssueView> {
    if p.stages@.len() == 0 && p.jobs@.len() == 0 && p.steps@.len() == 0 && p.extends is None {
        seq![issue("pipeline must have stages, jobs, steps, or extends"@, "pipeline"@, None)]
    } else {
        Seq::empty()
    }
}

// ---------------------------------------------------------------------------
// Dependencies
// ---------------------------------------------------------------------------

/// Index of the first name equal to `name`.
pub open spec fn first_named(names: Seq<Seq<char>>, name: Seq<char>) -> Option<int>
    decreases names.len(),
{
    if names.len() == 0 {
        None
    } else if names[0] == name {
        Some(0)
    } else {
        match first_named(names.drop_first(), name) {
            Some(i) => Some(i + 1),
            None => None,
        }
    }
}

/// The names in `ds` that are among `names`, as the index of their first
/// occurrence.
pub open spec fn resolve_first(names: Seq<Seq<char>>, ds: Seq<Seq<char>>) -> Seq<usize>
    decreases ds.len(),
{
    if ds.len() == 0 {
        Seq::empty()
    } else {
        let r = resolve_first(names, ds.drop_last());
        match first_named(names, ds.last()) {
            Some(i) => r.push(i as usize),
            None => r,
        }
    }
}

/// The dependency graph over named items: item `i` depends on what the
/// first item of its name lists.
pub open spec fn named_adj(names: Seq<Seq<char>>, deps: Seq<Seq<Seq<char>>>) -> Seq<Seq<usize>> {
    Seq::new(
        names.len(),
        |i: int|
            match first_named(names, names[i]) {
                Some(f) => resolve_first(names, deps[f]),
                None => Seq::empty(),
            },
    )
}

/// The issues for the names in `ds` (the dependencies of the item named
/// `item`) that name nothing among `names`.
pub open spec fn unknown_issues(
    noun: Seq<char>,
    section: Seq<char>,
    item: Seq<char>,
    names: Seq<Seq<char>>,
    ds: Seq<Seq<char>>,
) -> Seq<IssueView>
    decreases ds.len(),
{
    if ds.len() == 0 {
        Seq::empty()
    } else {
        unknown_issues(noun, section, item, names, ds.drop_last()) + if names.contains(ds.last()) {
            Seq::empty()
        } else {
            seq![
                issue(
                    noun + " '"@ + item + "' depends on unknown "@ + noun + " '"@ + ds.last() + "'"@,
                    section + "."@ + item + ".dependsOn"@,
                    Some("available "@ + section + ": "@ + join(names, ", "@)),
                ),
            ]
        }
    }
}

pub open spec fn cycle_issue(names: Seq<Seq<char>>, section: Seq<char>, c: Option<Seq<usize>>) -> Seq<IssueView> {
    match c {
        None => Seq::empty(),
        Some(p) => seq![
            issue(
                "circular dependency detected: "@ + join(p.map_values(|i: usize| names[i as int]), " -> "@),
                section,
                None,
            ),
        ],
    }
}

/// `c` is what the depth-first search for a circle gives on `a`: none when
/// there is none, else the first circle it meets.
pub open spec fn cycle_found(a: Seq<Seq<usize>>, c: Option<Seq<usize>>) -> bool {
    &&& c == first_cycle(a)
    &&& match c {
        None => acyclic(a),
        Some(p) => closed_walk(p, a),
    }
}

pub open spec fn stage_names(stages: Seq<Stage>) -> Seq<Seq<char>> {
    stages.map_values(|s: Stage| stage_key(s))
}

pub open spec fn stage_dep_names(stages: Seq<Stage>) -> Seq<Seq<Seq<char>>> {
    stages.map_values(|s: Stage| strs(s.depends_on.names()))
}

pub open spec fn stage_unknowns(stages: Seq<Stage>, n: int) -> Seq<IssueView>
    decreases n,
{
    if n <= 0 {
        Seq::empty()
    } else {
        stage_unknowns(stages, n - 1) + unknown_issues(
            "stage"@,
            "stages"@,
            stage_key(stages[n - 1]),
            stage_names(stages),
            strs(stages[n - 1].depends_on.names()),
        )
    }
}

/// The jobs that have a name, in order.
pub open spec fn named_jobs(jobs: Seq<Job>) -> Seq<Job>
    decreases jobs.len(),
{
    if jobs.len() == 0 {
        Seq::empty()
    } else if job_key(jobs.last()) is Some {
        named_jobs(jobs.drop_last()).push(jobs.last())
    } else {
        named_jobs(jobs.drop_last())
    }
}

pub open spec fn job_names(jobs: Seq<Job>) -> Seq<Seq<char>> {
    named_jobs(jobs).map_values(|j: Job| job_key(j)->0)
}

pub open spec fn job_dep_names(jobs: Seq<Job>) -> Seq<Seq<Seq<char>>> {
    named_jobs(jobs).map_values(|j: Job| strs(j.depends_on.names()))
}

pub open spec fn job_unknowns(jobs: Seq<Job>, n: int) -> Seq<IssueView>
    decreases n,
{
    if n <= 0 {
        Seq::empty()
    } else {
        job_unknowns(jobs, n - 1) + match job_key(jobs[n - 1]) {
            Some(name) => unknown_issues(
                "job"@,
                "jobs"@,
                name,
                job_names(jobs),
                strs(jobs[n - 1].depends_on.names()),
            ),
            None => Seq::empty(),
        }
    }
}

/// Every problem of a pipeline, in the order reported, given the circles
/// found among its stages (`cs`) and its jobs (`cj`).
pub open spec fn all_issues(p: Pipeline, cs: Option<Seq<usize>>, cj: Option<Seq<usize>>) -> Seq<IssueView> {
    structure_issues(p) + stages_issues(p.stages@, p.stages@.len() as int) + jobs_issues(
        p.jobs@,
        "jobs"@,
        p.jobs@.len() as int,
    ) + stage_unknowns(p.stages@, p.stages@.len() as int) + cycle_issue(
        stage_names(p.stages@),
        "stages"@,
        cs,
    ) + job_unknowns(p.jobs@, p.jobs@.len() as int) + cycle_issue(job_names(p.jobs@), "jobs"@, cj)
}


// ---------------------------------------------------------------------------
// Executable checks
// ---------------------------------------------------------------------------

proof fn lemma_first_named(names: Seq<Seq<char>>, name: Seq<char>)
    ensures
        first_named(names, name) is Some <==> names.contains(name),
        first_named(names, name) matches Some(i) ==> 0 <= i < names.len() && names[i] == name && forall|j: int|
            0 <= j < i ==> names[j] != name,
    decreases names.len(),
{
    if names.len() > 0 {
        lemma_first_named(names.drop_first(), name);
        if names[0] != name {
            if names.contains(name) {
                let j = choose|j: int| 0 <= j < names.len() && names[j] == name;
                assert(names.drop_first()[j - 1] == name);
            }
            if names.drop_first().contains(name) {
                let j = choose|j: int| 0 <= j < names.len() - 1 && names.drop_first()[j] == name;
                assert(names[j + 1] == name);
            }
            if let Some(i) = first_named(names.drop_first(), name) {
                assert forall|j: int| 0 <= j < i + 1 implies names[j] != name by {
                    if j > 0 {
                        assert(names[j] == names.drop_first()[j - 1]);
                    }
                }
            }
        } else {
            assert(names.contains(name)) by {
                assert(names[0] == name);
            }
        }
    }
}

/// Index of the first name equal to `name`.
fn find_first(names: &Vec<String>, name: &str) -> (r: Option<usize>)
    ensures
        match r {
            Some(i) => first_named(strs(names@), name@) == Some(i as int),
            None => first_named(strs(names@), name@) is None,
        },
{
    let ghost ns = strs(names@);
    let mut i: usize = 0;
    while i < names.len()
        invariant
            i <= names@.len(),
            ns == strs(names@),
            forall|j: int| 0 <= j < i ==> ns[j] != name@,
        decreases names@.len() - i,
    {
        if crate::template::str_eq(names[i].as_str(), name) {
            proof {
                assert(ns[i as int] == name@);
                lemma_first_named(ns, name@);
                assert(ns.contains(name@));
                if let Some(k) = first_named(ns, name@) {
                    assert(k >= i);
                    if k > i {
                        assert(ns[i as int] != name@);
                    }
                }
            }
            return Some(i);
        }
        i = i + 1;
    }
    proof {
        lemma_first_named(ns, name@);
        if ns.contains(name@) {
            let j = choose|j: int| 0 <= j < ns.len() && ns[j] == name@;
        }
    }
    None
}

proof fn lemma_resolve_first_bound(names: Seq<Seq<char>>, ds: Seq<Seq<char>>)
    ensures
        forall|k: int| 0 <= k < resolve_first(names, ds).len() ==> (#[trigger] resolve_first(names, ds)[k] as int)
            < names.len(),
    decreases ds.len(),
{
    if ds.len() > 0 {
        let r = resolve_first(names, ds.drop_last());
        lemma_resolve_first_bound(names, ds.drop_last());
        lemma_first_named(names, ds.last());
        assert forall|k: int| 0 <= k < resolve_first(names, ds).len() implies (#[trigger] resolve_first(
            names,
            ds,
        )[k] as int) < names.len() by {
            if k < r.len() {
                assert(resolve_first(names, ds)[k] == r[k]);
            }
        }
    }
}

fn resolve_first_exec(names: &Vec<String>, ds: &Vec<String>) -> (r: Vec<usize>)
    ensures
        r@ == resolve_first(strs(names@), strs(ds@)),
{
    let ghost ns = strs(names@);
    let ghost dv = strs(ds@);
    let mut r: Vec<usize> = Vec::new();
    let mut j: usize = 0;
    while j < ds.len()
        invariant
            j <= ds@.len(),
            ns == strs(names@),
            dv == strs(ds@),
            r@ == resolve_first(ns, dv.subrange(0, j as int)),
        decreases ds@.len() - j,
    {
        proof {
            let pre = dv.subrange(0, j + 1);
            assert(pre.drop_last() == dv.subrange(0, j as int));
            assert(pre.last() == ds@[j as int]@);
        }
        match find_first(names, ds[j].as_str()) {
            Some(i) => r.push(i),
            None => {},
        }
        j = j + 1;
    }
    proof {
        assert(dv.subrange(0, ds@.len() as int) == dv);
    }
    r
}

/// Some walk along the dependencies of the named items comes back to an
/// item it passed.
pub open spec fn has_circle(names: Seq<Seq<char>>, deps: Seq<Seq<Seq<char>>>) -> bool {
    exists|p: Seq<usize>| #[trigger] closed_walk(p, named_adj(names, deps))
}

/// Looks for a circle among named items, item `i` depending on what
/// `deps[f]` lists for the first item `f` of its name: none, or the names
/// along a circle.
pub fn detect_cycles(names: &Vec<String>, deps: &Vec<Vec<String>>) -> (r: Result<(), Vec<String>>)
    requires
        deps@.len() == names@.len(),
    ensures
        ({
            let a = named_adj(strs(names@), deps@.map_values(|d: Vec<String>| strs(d@)));
            match r {
                Ok(()) => cycle_found(a, None),
                Err(cycle) => exists|p: Seq<usize>|
                    cycle_found(a, Some(p)) && strs(cycle@) == p.map_values(|i: usize| strs(names@)[i as int]),
            }
        }),
        ({
            let a = named_adj(strs(names@), deps@.map_values(|d: Vec<String>| strs(d@)));
            match r {
                Ok(()) => first_cycle(a) is None,
                Err(cycle) => first_cycle(a) matches Some(p) && strs(cycle@) == p.map_values(
                    |i: usize| strs(names@)[i as int],
                ),
            }
        }),
        r is Ok <==> !has_circle(strs(names@), deps@.map_values(|d: Vec<String>| strs(d@))),
{
    let ghost ns = strs(names@);
    let ghost dv = deps@.map_values(|d: Vec<String>| strs(d@));
    let ghost a = named_adj(ns, dv);
    let mut adj: Vec<Vec<usize>> = Vec::new();
    let mut i: usize = 0;
    while i < names.len()
        invariant
            i <= names@.len(),
            deps@.len() == names@.len(),
            ns == strs(names@),
            dv == deps@.map_values(|d: Vec<String>| strs(d@)),
            a == named_adj(ns, dv),
            adj@.len() == i,
            forall|m: int| 0 <= m < i ==> (#[trigger] adj@[m])@ == a[m],
        decreases names@.len() - i,
    {
        let row = match find_first(names, names[i].as_str()) {
            Some(f) => {
                proof {
                    lemma_first_named(ns, ns[i as int]);
                }
                resolve_first_exec(names, &deps[f])
            },
            None => Vec::new(),
        };
        proof {
            assert(ns[i as int] == names@[i as int]@);
            assert(row@ == a[i as int]);
        }
        adj.push(row);
        i = i + 1;
    }
    proof {
        assert(adj_view(adj@) =~= a);
        assert forall|u: int, k: int| 0 <= u < a.len() && 0 <= k < a[u].len() implies (#[trigger] a[u][k] as int)
            < a.len() by {
            lemma_first_named(ns, ns[u]);
            if let Some(f) = first_named(ns, ns[u]) {
                lemma_resolve_first_bound(ns, dv[f]);
            }
        }
    }
    match find_cycle(&adj) {
        Some(p) => {
            proof {
                crate::graph::lemma_walk_in_range(p@, a);
            }
            let mut cycle: Vec<String> = Vec::new();
            let mut k: usize = 0;
            while k < p.len()
                invariant
                    k <= p@.len(),
                    ns == strs(names@),
                    a.len() == names@.len(),
                    forall|m: int| 0 <= m < p@.len() ==> (#[trigger] p@[m] as int) < a.len(),
                    cycle@.len() == k,
                    forall|m: int| 0 <= m < k ==> (#[trigger] cycle@[m])@ == ns[p@[m] as int],
                decreases p@.len() - k,
            {
                cycle.push(names[p[k]].clone());
                k = k + 1;
            }
            proof {
                assert(strs(cycle@) =~= p@.map_values(|i: usize| ns[i as int]));
                assert(cycle_found(a, Some(p@)));
            }
            Err(cycle)
        },
        None => {
            proof {
                assert(cycle_found(a, None));
                if has_circle(ns, dv) {
                    let p = choose|p: Seq<usize>| #[trigger] closed_walk(p, named_adj(ns, dv));
                    crate::cycles::lemma_cycle_not_acyclic(p, a);
                }
            }
            Ok(())
        },
    }
}

fn concat2(a: &str, b: &str) -> (r: String)
    ensures
        r@ == a@ + b@,
{
    let mut r = String::from_str(a);
    r.append(b);
    r
}

/// `prefix[i]`.
fn indexed_path(prefix: &str, i: usize) -> (r: String)
    ensures
        r@ == indexed(prefix@, i as int),
{
    let mut r = String::from_str(prefix);
    r.append("[");
    let d = usize_to_decimal(i);
    r.append(d.as_str());
    r.append("]");
    r
}

fn push_issue(errors: &mut Vec<ValidationError>, message: &str, path: &str, suggestion: Option<&str>)
    ensures
        issues_view(final(errors)@) == issues_view(old(errors)@).push(
            issue(
                message@,
                path@,
                match suggestion {
                    Some(s) => Some(s@),
                    None => None,
                },
            ),
        ),
{
    let e = ValidationError::new(message, path);
    let e = match suggestion {
        Some(s) => e.with_suggestion(s),
        None => e,
    };
    let ghost before = errors@;
    errors.push(e);
    proof {
        assert(issues_view(errors@) =~= issues_view(before).push(issue_view(e)));
    }
}

/// Validator for parsed pipelines.
pub struct PipelineValidator;

impl PipelineValidator {
    fn validate_job(job: &Job, path: &str, errors: &mut Vec<ValidationError>)
        ensures
            issues_view(final(errors)@) == issues_view(old(errors)@) + job_issues(*job, path@),
    {
        let ghost before = issues_view(errors@);
        if job.job.is_none() && job.deployment.is_none() && job.template.is_none() {
            push_issue(
                errors,
                "job must have 'job:', 'deployment:', or 'template:'",
                path,
                Some("add 'job: MyJobName' to identify this job"),
            );
        }
        let ghost mid = issues_view(errors@);
        if job.steps.len() == 0 && job.template.is_none() && job.deployment.is_none() {
            push_issue(errors, "job must have steps", path, Some("add 'steps:' to define what the job should do"));
        }
        proof {
            assert(issues_view(errors@) =~= before + job_issues(*job, path@));
        }
    }

    fn validate_jobs(jobs: &Vec<Job>, prefix: &str, errors: &mut Vec<ValidationError>)
        ensures
            issues_view(final(errors)@) == issues_view(old(errors)@) + jobs_issues(
                jobs@,
                prefix@,
                jobs@.len() as int,
            ),
    {
        let ghost before = issues_view(errors@);
        let mut i: usize = 0;
        while i < jobs.len()
            invariant
                i <= jobs@.len(),
                issues_view(errors@) == before + jobs_issues(jobs@, prefix@, i as int),
            decreases jobs@.len() - i,
        {
            let path = indexed_path(prefix, i);
            Self::validate_job(&jobs[i], path.as_str(), errors);
            proof {
                assert(before + jobs_issues(jobs@, prefix@, i + 1) =~= before + jobs_issues(jobs@, prefix@, i as int)
                    + job_issues(jobs@[i as int], indexed(prefix@, i as int)));
            }
            i = i + 1;
        }
    }

    fn validate_stage(stage: &Stage, path: &str, errors: &mut Vec<ValidationError>)
        ensures
            issues_view(final(errors)@) == issues_view(old(errors)@) + stage_issues(*stage, path@),
    {
        let ghost before = issues_view(errors@);
        if stage.jobs.len() == 0 && stage.template.is_none() {
            push_issue(
                errors,
                "stage must have jobs or reference a template",
                path,
                Some("add 'jobs:' or 'template:' to the stage"),
            );
        }
        let prefix = concat2(path, ".jobs");
        Self::validate_jobs(&stage.jobs, prefix.as_str(), errors);
        proof {
            assert(issues_view(errors@) =~= before + stage_issues(*stage, path@));
        }
    }

    /// The issues for the dependencies `ds` of the item named `item` that
    /// name nothing among `names`.
    fn report_unknown(
        noun: &str,
        section: &str,
        item: &str,
        names: &Vec<String>,
        ds: &Vec<String>,
        errors: &mut Vec<ValidationError>,
    )
        ensures
            issues_view(final(errors)@) == issues_view(old(errors)@) + unknown_issues(
                noun@,
                section@,
                item@,
                strs(names@),
                strs(ds@),
            ),
    {
        let ghost before = issues_view(errors@);
        let ghost ns = strs(names@);
        let ghost dv = strs(ds@);
        let mut j: usize = 0;
        while j < ds.len()
            invariant
                j <= ds@.len(),
                ns == strs(names@),
                dv == strs(ds@),
                issues_view(errors@) == before + unknown_issues(noun@, section@, item@, ns, dv.subrange(0, j as int)),
            decreases ds@.len() - j,
        {
            let ghost pre = dv.subrange(0, j + 1);
            proof {
                assert(pre.drop_last() == dv.subrange(0, j as int));
                assert(pre.last() == ds@[j as int]@);
                lemma_first_named(ns, ds@[j as int]@);
            }
            let ghost mid = issues_view(errors@);
            if find_first(names, ds[j].as_str()).is_none() {
                let head = concat2(noun, " '");
                let head = concat2(head.as_str(), item);
                let head = concat2(head.as_str(), "' depends on unknown ");
                let head = concat2(head.as_str(), noun);
                let head = concat2(head.as_str(), " '");
                let head = concat2(head.as_str(), ds[j].as_str());
                let message = concat2(head.as_str(), "'");
                let p = concat2(section, ".");
                let p = concat2(p.as_str(), item);
                let path = concat2(p.as_str(), ".dependsOn");
                let list = join_strings(names, ", ");
                let s = concat2("available ", section);
                let s = concat2(s.as_str(), ": ");
                let suggestion = concat2(s.as_str(), list.as_str());
                push_issue(errors, message.as_str(), path.as_str(), Some(suggestion.as_str()));
                proof {
                    assert(issues_view(errors@) =~= before + unknown_issues(noun@, section@, item@, ns, pre));
                }
            } else {
                proof {
                    assert(issues_view(errors@) =~= before + unknown_issues(noun@, section@, item@, ns, pre));
                }
            }
            j = j + 1;
        }
        proof {
            assert(dv.subrange(0, ds@.len() as int) == dv);
        }
    }

    fn report_cycle(names: &Vec<String>, section: &str, cycle: &Vec<String>, errors: &mut Vec<ValidationError>)
        ensures
            issues_view(final(errors)@) == issues_view(old(errors)@).push(
                issue("circular dependency detected: "@ + join(strs(cycle@), " -> "@), section@, None),
            ),
    {
        let joined = join_strings(cycle, " -> ");
        let message = concat2("circular dependency detected: ", joined.as_str());
        push_issue(errors, message.as_str(), section, None);
    }
}


pub open spec fn stage_graph(stages: Seq<Stage>) -> Seq<Seq<usize>> {
    named_adj(stage_names(stages), stage_dep_names(stages))
}

pub open spec fn job_graph(jobs: Seq<Job>) -> Seq<Seq<usize>> {
    named_adj(job_names(jobs), job_dep_names(jobs))
}

impl PipelineValidator {
    fn validate_stage_dependencies(stages: &[Stage], errors: &mut Vec<ValidationError>)
        ensures
            exists|cs: Option<Seq<usize>>|
                cycle_found(stage_graph(stages@), cs) && issues_view(final(errors)@) == issues_view(old(errors)@)
                    + stage_unknowns(stages@, stages@.len() as int) + cycle_issue(
                    stage_names(stages@),
                    "stages"@,
                    cs,
                ),
    {
        let ghost before = issues_view(errors@);
        let mut names: Vec<String> = Vec::new();
        let mut deps: Vec<Vec<String>> = Vec::new();
        let mut i: usize = 0;
        while i < stages.len()
            invariant
                i <= stages@.len(),
                names@.len() == i,
                deps@.len() == i,
                strs(names@) == stage_names(stages@).subrange(0, i as int),
                deps@.map_values(|d: Vec<String>| strs(d@)) == stage_dep_names(stages@).subrange(0, i as int),
            decreases stages@.len() - i,
        {
            names.push(stage_key_string(&stages[i]));
            deps.push(stages[i].depends_on.as_vec());
            proof {
                assert(strs(names@) =~= stage_names(stages@).subrange(0, i + 1));
                assert(deps@.map_values(|d: Vec<String>| strs(d@)) =~= stage_dep_names(stages@).subrange(0, i + 1));
            }
            i = i + 1;
        }
        proof {
            assert(stage_names(stages@).subrange(0, i as int) == stage_names(stages@));
            assert(stage_dep_names(stages@).subrange(0, i as int) == stage_dep_names(stages@));
        }
        let mut i: usize = 0;
        while i < stages.len()
            invariant
                i <= stages@.len(),
                strs(names@) == stage_names(stages@),
                deps@.map_values(|d: Vec<String>| strs(d@)) == stage_dep_names(stages@),
                deps@.len() == stages@.len(),
                issues_view(errors@) == before + stage_unknowns(stages@, i as int),
            decreases stages@.len() - i,
        {
            let item = stage_key_string(&stages[i]);
            proof {
                assert(strs(deps@[i as int]@) == stage_dep_names(stages@)[i as int]);
            }
            Self::report_unknown("stage", "stages", item.as_str(), &names, &deps[i], errors);
            proof {
                assert(before + stage_unknowns(stages@, i + 1) =~= before + stage_unknowns(stages@, i as int)
                    + unknown_issues(
                    "stage"@,
                    "stages"@,
                    stage_key(stages@[i as int]),
                    stage_names(stages@),
                    strs(stages@[i as int].depends_on.names()),
                ));
            }
            i = i + 1;
        }
        let ghost mid = issues_view(errors@);
        let ghost mut cs: Option<Seq<usize>> = None;
        match detect_cycles(&names, &deps) {
            Ok(()) => {
                proof {
                    assert(issues_view(errors@) =~= mid + cycle_issue(stage_names(stages@), "stages"@, None));
                }
            },
            Err(cycle) => {
                Self::report_cycle(&names, "stages", &cycle, errors);
                proof {
                    let p = choose|p: Seq<usize>|
                        cycle_found(stage_graph(stages@), Some(p)) && strs(cycle@) == p.map_values(
                            |i: usize| strs(names@)[i as int],
                        );
                    assert(issues_view(errors@) =~= mid + cycle_issue(stage_names(stages@), "stages"@, Some(p)));
                    cs = Some(p);
                }
            },
        }
        proof {
            assert(cycle_found(stage_graph(stages@), cs));
            assert(issues_view(errors@) == before + stage_unknowns(stages@, stages@.len() as int) + cycle_issue(
                stage_names(stages@),
                "stages"@,
                cs,
            ));
        }
    }

    fn validate_job_dependencies(jobs: &[Job], errors: &mut Vec<ValidationError>)
        ensures
            exists|cj: Option<Seq<usize>>|
                cycle_found(job_graph(jobs@), cj) && issues_view(final(errors)@) == issues_view(old(errors)@)
                    + job_unknowns(jobs@, jobs@.len() as int) + cycle_issue(job_names(jobs@), "jobs"@, cj),
    {
        let ghost before = issues_view(errors@);
        let mut names: Vec<String> = Vec::new();
        let mut deps: Vec<Vec<String>> = Vec::new();
        let mut i: usize = 0;
        while i < jobs.len()
            invariant
                i <= jobs@.len(),
                names@.len() == deps@.len(),
                strs(names@) == job_names(jobs@.subrange(0, i as int)),
                deps@.map_values(|d: Vec<String>| strs(d@)) == job_dep_names(jobs@.subrange(0, i as int)),
            decreases jobs@.len() - i,
        {
            let ghost pre = jobs@.subrange(0, i + 1);
            proof {
                assert(pre.drop_last() == jobs@.subrange(0, i as int));
                assert(pre.last() == jobs@[i as int]);
            }
            match job_key_string(&jobs[i]) {
                Some(name) => {
                    let ghost nm = name@;
                    let ghost prev = named_jobs(jobs@.subrange(0, i as int));
                    let ghost old_names = names@;
                    let ghost old_deps = deps@;
                    names.push(name);
                    let d = jobs[i].depends_on.as_vec();
                    let ghost dvv = strs(d@);
                    deps.push(d);
                    proof {
                        assert(job_key(jobs@[i as int]) == Some(nm));
                        assert(named_jobs(pre) == prev.push(jobs@[i as int]));
                        assert(strs(names@) =~= strs(old_names).push(nm));
                        assert(job_names(pre) =~= job_names(jobs@.subrange(0, i as int)).push(nm));
                        assert(deps@.map_values(|d: Vec<String>| strs(d@)) =~= old_deps.map_values(
                            |d: Vec<String>| strs(d@),
                        ).push(dvv));
                        assert(job_dep_names(pre) =~= job_dep_names(jobs@.subrange(0, i as int)).push(dvv));
                        assert(strs(names@) =~= job_names(pre));
                        assert(deps@.map_values(|d: Vec<String>| strs(d@)) =~= job_dep_names(pre));
                    }
                },
                None => {
                    proof {
                        assert(named_jobs(pre) == named_jobs(jobs@.subrange(0, i as int)));
                    }
                },
            }
            i = i + 1;
        }
        proof {
            assert(jobs@.subrange(0, i as int) == jobs@);
        }
        let mut i: usize = 0;
        while i < jobs.len()
            invariant
                i <= jobs@.len(),
                names@.len() == deps@.len(),
                strs(names@) == job_names(jobs@),
                deps@.map_values(|d: Vec<String>| strs(d@)) == job_dep_names(jobs@),
                issues_view(errors@) == before + job_unknowns(jobs@, i as int),
            decreases jobs@.len() - i,
        {
            let ghost mid = issues_view(errors@);
            match job_key_string(&jobs[i]) {
                Some(name) => {
                    let ds = jobs[i].depends_on.as_vec();
                    Self::report_unknown("job", "jobs", name.as_str(), &names, &ds, errors);
                },
                None => {},
            }
            proof {
                assert(issues_view(errors@) =~= before + job_unknowns(jobs@, i + 1));
            }
            i = i + 1;
        }
        let ghost mid = issues_view(errors@);
        let ghost mut cj: Option<Seq<usize>> = None;
        match detect_cycles(&names, &deps) {
            Ok(()) => {
                proof {
                    assert(issues_view(errors@) =~= mid + cycle_issue(job_names(jobs@), "jobs"@, None));
                }
            },
            Err(cycle) => {
                Self::report_cycle(&names, "jobs", &cycle, errors);
                proof {
                    let p = choose|p: Seq<usize>|
                        cycle_found(job_graph(jobs@), Some(p)) && strs(cycle@) == p.map_values(
                            |i: usize| strs(names@)[i as int],
                        );
                    assert(issues_view(errors@) =~= mid + cycle_issue(job_names(jobs@), "jobs"@, Some(p)));
                    cj = Some(p);
                }
            },
        }
        proof {
            assert(cycle_found(job_graph(jobs@), cj));
            assert(issues_view(errors@) == before + job_unknowns(jobs@, jobs@.len() as int) + cycle_issue(
                job_names(jobs@),
                "jobs"@,
                cj,
            ));
        }
    }

    /// Checks a parsed pipeline for semantic problems and reports all of
    /// them (see [`all_issues`]), or none.
    pub fn validate(pipeline: &Pipeline) -> (r: Result<(), Vec<ValidationError>>)
        ensures
            exists|cs: Option<Seq<usize>>, cj: Option<Seq<usize>>|
                cycle_found(stage_graph(pipeline.stages@), cs) && cycle_found(job_graph(pipeline.jobs@), cj) && match r {
                    Ok(()) => all_issues(*pipeline, cs, cj).len() == 0,
                    Err(errs) => issues_view(errs@) == all_issues(*pipeline, cs, cj) && errs@.len() > 0,
                },
    {
        let mut errors: Vec<ValidationError> = Vec::new();
        if pipeline.stages.len() == 0 && pipeline.jobs.len() == 0 && pipeline.steps.len() == 0
            && pipeline.extends.is_none() {
            push_issue(&mut errors, "pipeline must have stages, jobs, steps, or extends", "pipeline", None);
        }
        proof {
            assert(issues_view(errors@) =~= structure_issues(*pipeline));
        }
        let ghost s0 = issues_view(errors@);
        let mut i: usize = 0;
        while i < pipeline.stages.len()
            invariant
                i <= pipeline.stages@.len(),
                issues_view(errors@) == s0 + stages_issues(pipeline.stages@, i as int),
            decreases pipeline.stages@.len() - i,
        {
            let path = indexed_path("stages", i);
            Self::validate_stage(&pipeline.stages[i], path.as_str(), &mut errors);
            proof {
                assert(s0 + stages_issues(pipeline.stages@, i + 1) =~= s0 + stages_issues(pipeline.stages@, i as int)
                    + stage_issues(pipeline.stages@[i as int], indexed("stages"@, i as int)));
            }
            i = i + 1;
        }
        Self::validate_jobs(&pipeline.jobs, "jobs", &mut errors);
        let ghost e1 = issues_view(errors@);
        Self::validate_stage_dependencies(pipeline.stages.as_slice(), &mut errors);
        let ghost e2 = issues_view(errors@);
        Self::validate_job_dependencies(pipeline.jobs.as_slice(), &mut errors);
        let ghost e3 = issues_view(errors@);
        proof {
            let cs = choose|cs: Option<Seq<usize>>|
                cycle_found(stage_graph(pipeline.stages@), cs) && e2 == e1 + stage_unknowns(
                    pipeline.stages@,
                    pipeline.stages@.len() as int,
                ) + cycle_issue(stage_names(pipeline.stages@), "stages"@, cs);
            let cj = choose|cj: Option<Seq<usize>>|
                cycle_found(job_graph(pipeline.jobs@), cj) && e3 == e2 + job_unknowns(
                    pipeline.jobs@,
                    pipeline.jobs@.len() as int,
                ) + cycle_issue(job_names(pipeline.jobs@), "jobs"@, cj);
            assert(e3 =~= all_issues(*pipeline, cs, cj));
            assert(issues_view(errors@).len() == errors@.len());
            assert(cycle_found(stage_graph(pipeline.stages@), cs) && cycle_found(job_graph(pipeline.jobs@), cj));
        }
        if errors.len() == 0 {
            Ok(())
        } else {
            Err(errors)
        }
    }
}


// ---------------------------------------------------------------------------
// Normal form
// ---------------------------------------------------------------------------

/// Pipelines written as bare steps become one job "Job" holding them, and
/// pipelines written as bare jobs (or so made) become one stage "Build"
/// holding them; both depend on what comes before them, and take the
/// pipeline's pool.  Any other pipeline is returned as it is.
pub fn normalize_pipeline(pipeline: Pipeline) -> (r: Pipeline)
    ensures
        pipeline.stages@.len() > 0 || (pipeline.jobs@.len() == 0 && pipeline.steps@.len() == 0) ==> r
            == pipeline,
        pipeline.stages@.len() == 0 && (pipeline.jobs@.len() > 0 || pipeline.steps@.len() > 0) ==> {
            &&& r.jobs@.len() == 0
            &&& r.stages@.len() == 1
            &&& r.stages@[0].stage matches Some(n) && n@ == "Build"@
            &&& r.stages@[0].depends_on is Default
            &&& r.stages@[0].jobs@.len() > 0
            &&& if pipeline.jobs@.len() > 0 {
                r.steps@ == pipeline.steps@ && r.stages@[0].jobs@ == pipeline.jobs@
            } else {
                &&& r.steps@.len() == 0
                &&& r.stages@[0].jobs@.len() == 1
                &&& r.stages@[0].jobs@[0].job matches Some(n) && n@ == "Job"@
                &&& r.stages@[0].jobs@[0].depends_on is Default
                &&& r.stages@[0].jobs@[0].steps@ == pipeline.steps@
            }
            &&& r.variables == pipeline.variables
            &&& r.pool == pipeline.pool
        },
{
    let mut pipeline = pipeline;
    if pipeline.steps.len() > 0 && pipeline.jobs.len() == 0 && pipeline.stages.len() == 0 {
        let mut steps = Vec::new();
        std::mem::swap(&mut steps, &mut pipeline.steps);
        let job = Job {
            job: Some("Job".to_string()),
            deployment: None,
            display_name: None,
            depends_on: DependsOn::Default,
            condition: None,
            strategy: None,
            pool: pipeline.pool.clone(),
            container: None,
            services: HashMap::new(),
            variables: Vec::new(),
            steps,
            timeout_in_minutes: None,
            cancel_timeout_in_minutes: None,
            continue_on_error: BoolOrExpression::Bool(false),
            workspace: None,
            uses: None,
            template: None,
            parameters: Vec::new(),
            environment: None,
            has_template_directives: false,
        };
        let mut jobs = Vec::new();
        jobs.push(job);
        pipeline.jobs = jobs;
    }
    if pipeline.jobs.len() > 0 && pipeline.stages.len() == 0 {
        let mut jobs = Vec::new();
        std::mem::swap(&mut jobs, &mut pipeline.jobs);
        let stage = Stage {
            stage: Some("Build".to_string()),
            display_name: None,
            depends_on: DependsOn::Default,
            condition: None,
            variables: Vec::new(),
            jobs,
            lock_behavior: None,
            template: None,
            parameters: Vec::new(),
            pool: pipeline.pool.clone(),
            has_template_directives: false,
        };
        let mut stages = Vec::new();
        stages.push(stage);
        pipeline.stages = stages;
    }
    pipeline
}

} // verus!
