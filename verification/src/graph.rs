//! The execution graph of a pipeline: its stages, each with the names of the
//! stages it waits for, and each stage's jobs, each with the names of the
//! jobs it waits for.  A name stands for the last stage (or job) so named.

use vstd::prelude::*;
use crate::cycles::{acyclic, adj_view, closed_walk, find_cycle, first_cycle, first_pos, graph_ok, lemma_first_pos, respects_dependencies};
use crate::dependency::{
    all_below, dependency_pairs, has_topological_order, is_topological_order, lemma_missing_node,
    lemma_nodup_len_bound, DependencyGraph,
};
use crate::models::{BoolOrExpression, ContainerRef, DependsOn, Job, Pipeline, Stage, Variable, same_depends};
use crate::text::{join, join_strings};
use crate::model_copy::{
    depends_content, params_content,
    copy_jobs, copy_opt_pool, copy_stages, copy_steps, copy_variables, job_content, jobs_content, opt_pool_content,
    same_job, same_stage, stage_content, stages_content, steps_content, variables_content,
};
use std::collections::HashMap;

verus! {

broadcast use vstd::string::group_string_axioms;

// ---------------------------------------------------------------------------
// Errors
// ---------------------------------------------------------------------------

#[derive(Debug, Clone, Copy, PartialEq, Eq, Structural)]
pub enum GraphErrorKind {
    /// Circular dependency detected.
    CyclicDependency,
    /// Reference to an unknown stage or job.
    UnknownDependency,
    /// Invalid pipeline structure.
    InvalidStructure,
}

/// Error of a graph operation.
#[derive(Debug, Clone)]
pub struct GraphError {
    pub message: String,
    pub kind: GraphErrorKind,
}

impl GraphError {
    pub fn cyclic(message: &str) -> (e: Self)
        ensures
            e.message@ == message@,
            e.kind == GraphErrorKind::CyclicDependency,
    {
        GraphError { message: message.to_string(), kind: GraphErrorKind::CyclicDependency }
    }

    pub fn unknown_dependency(message: &str) -> (e: Self)
        ensures
            e.message@ == message@,
            e.kind == GraphErrorKind::UnknownDependency,
    {
        GraphError { message: message.to_string(), kind: GraphErrorKind::UnknownDependency }
    }

    pub fn invalid_structure(message: &str) -> (e: Self)
        ensures
            e.message@ == message@,
            e.kind == GraphErrorKind::InvalidStructure,
    {
        GraphError { message: message.to_string(), kind: GraphErrorKind::InvalidStructure }
    }

    /// "graph error: message".
    pub fn to_display_string(&self) -> (r: String)
        ensures
            r@ == "graph error: "@ + self.message@,
    {
        let mut r = String::from_str("graph error: ");
        r.append(self.message.as_str());
        r
    }
}

// ---------------------------------------------------------------------------
// Nodes
// ---------------------------------------------------------------------------

/// A job and the names of the jobs of its stage that it waits for.
#[derive(Debug, Clone)]
pub struct JobNode {
    pub job: Job,
    pub dependencies: Vec<String>,
}

/// A stage, the names of the stages it waits for, and its jobs.
#[derive(Debug, Clone)]
pub struct StageNode {
    pub stage: Stage,
    pub dependencies: Vec<String>,
    pub jobs: Vec<JobNode>,
}

/// The stages of a pipeline in the order written, with their dependencies.
#[derive(Debug, Clone)]
pub struct ExecutionGraph {
    pub stages: Vec<StageNode>,
    pub variables: Vec<Variable>,
}

// ---------------------------------------------------------------------------
// The model: names, keys and dependency lists
// ---------------------------------------------------------------------------

pub open spec fn strs(v: Seq<String>) -> Seq<Seq<char>> {
    v.map_values(|s: String| s@)
}

/// The name a stage is found by: its name, or "" without one.
pub open spec fn stage_key(s: Stage) -> Seq<char> {
    match s.stage {
        Some(n) => n@,
        None => Seq::empty(),
    }
}

/// The name a stage is shown by: its name, or "unknown".
pub open spec fn stage_label(s: Stage) -> Seq<char> {
    match s.stage {
        Some(n) => n@,
        None => "unknown"@,
    }
}

/// The name a job is found by: its job or deployment name, if any.
pub open spec fn job_key(j: Job) -> Option<Seq<char>> {
    match j.job {
        Some(n) => Some(n@),
        None => match j.deployment {
            Some(d) => Some(d@),
            None => None,
        },
    }
}

/// The name a job is shown by: its key, or "unknown".
pub open spec fn job_label(j: Job) -> Seq<char> {
    match job_key(j) {
        Some(k) => k,
        None => "unknown"@,
    }
}

/// Index of the last key equal to `Some(name)`.
pub open spec fn last_keyed(keys: Seq<Option<Seq<char>>>, name: Seq<char>) -> Option<int>
    decreases keys.len(),
{
    if keys.len() == 0 {
        None
    } else if keys.last() == Some(name) {
        Some(keys.len() - 1)
    } else {
        last_keyed(keys.drop_last(), name)
    }
}

/// The first `(item, dependency)` pair whose dependency names no key.
pub open spec fn first_missing(keys: Seq<Option<Seq<char>>>, pairs: Seq<(int, Seq<char>)>) -> Option<int>
    decreases pairs.len(),
{
    if pairs.len() == 0 {
        None
    } else {
        match first_missing(keys, pairs.drop_last()) {
            Some(k) => Some(k),
            None => if last_keyed(keys, pairs.last().1) is None {
                Some(pairs.len() - 1)
            } else {
                None
            },
        }
    }
}

/// The indices that the names `ds` stand for, in order; names of nothing
/// are left out.
pub open spec fn resolve_all(keys: Seq<Option<Seq<char>>>, ds: Seq<Seq<char>>) -> Seq<usize>
    decreases ds.len(),
{
    if ds.len() == 0 {
        Seq::empty()
    } else {
        let r = resolve_all(keys, ds.drop_last());
        match last_keyed(keys, ds.last()) {
            Some(i) => r.push(i as usize),
            None => r,
        }
    }
}

/// Each item's dependencies as indices.
pub open spec fn adjacency(keys: Seq<Option<Seq<char>>>, deps: Seq<Seq<Seq<char>>>) -> Seq<Seq<usize>> {
    deps.map_values(|ds: Seq<Seq<char>>| resolve_all(keys, ds))
}

/// One stage as the graph reads it: its node's key and label, its
/// dependency names, and its jobs' keys, labels and dependency names.
pub struct StageView {
    pub key: Seq<char>,
    pub label: Seq<char>,
    pub deps: Seq<Seq<char>>,
    pub job_keys: Seq<Option<Seq<char>>>,
    pub job_labels: Seq<Seq<char>>,
    pub job_deps: Seq<Seq<Seq<char>>>,
}

pub open spec fn job_node_key(n: JobNode) -> Option<Seq<char>> {
    job_key(n.job)
}

pub open spec fn stage_view(n: StageNode) -> StageView {
    StageView {
        key: stage_key(n.stage),
        label: stage_label(n.stage),
        deps: strs(n.dependencies@),
        job_keys: n.jobs@.map_values(|j: JobNode| job_key(j.job)),
        job_labels: n.jobs@.map_values(|j: JobNode| job_label(j.job)),
        job_deps: n.jobs@.map_values(|j: JobNode| strs(j.dependencies@)),
    }
}

impl ExecutionGraph {
    pub open spec fn view_stages(&self) -> Seq<StageView> {
        self.stages@.map_values(|n: StageNode| stage_view(n))
    }
}

pub open spec fn stage_keys(v: Seq<StageView>) -> Seq<Option<Seq<char>>> {
    v.map_values(|s: StageView| Some(s.key))
}

pub open spec fn stage_dep_lists(v: Seq<StageView>) -> Seq<Seq<Seq<char>>> {
    v.map_values(|s: StageView| s.deps)
}

/// The first stage dependency that names no stage.
pub open spec fn stage_missing(v: Seq<StageView>) -> Option<int> {
    first_missing(stage_keys(v), dependency_pairs(stage_dep_lists(v)))
}

/// Each stage's dependencies as stage indices.
pub open spec fn stage_adj(v: Seq<StageView>) -> Seq<Seq<usize>> {
    adjacency(stage_keys(v), stage_dep_lists(v))
}

/// Each job's dependencies (those that name a job) as job indices.
pub open spec fn job_adj(s: StageView) -> Seq<Seq<usize>> {
    adjacency(s.job_keys, s.job_deps)
}

pub open spec fn unknown_stage_message(v: Seq<StageView>, k: int) -> Seq<char> {
    let pairs = dependency_pairs(stage_dep_lists(v));
    "stage '"@ + v[pairs[k].0].label + "' depends on unknown stage '"@ + pairs[k].1 + "'"@
}

pub open spec fn stage_cycle_message(v: Seq<StageView>, p: Seq<usize>) -> Seq<char> {
    "circular dependency detected in stages: "@ + join(p.map_values(|i: usize| v[i as int].key), " -> "@)
}

pub open spec fn job_cycle_message(s: StageView, p: Seq<usize>) -> Seq<char> {
    "circular dependency detected in jobs of stage '"@ + s.label + "': "@ + join(
        p.map_values(|i: usize| s.job_labels[i as int]),
        " -> "@,
    )
}

/// Every stage dependency names a stage, the stages wait for each other in
/// no circle, and neither do the jobs of any stage.
pub open spec fn graph_valid(v: Seq<StageView>) -> bool {
    &&& stage_missing(v) is None
    &&& acyclic(stage_adj(v))
    &&& forall|i: int| 0 <= i < v.len() ==> #[trigger] acyclic(job_adj(v[i]))
}

/// `e` is what validation reports for `v`: the first unknown stage
/// dependency; else a circle of stages; else a circle of jobs in the first
/// stage that has one.
pub open spec fn validation_error(v: Seq<StageView>, kind: GraphErrorKind, msg: Seq<char>) -> bool {
    match stage_missing(v) {
        Some(k) => kind == GraphErrorKind::UnknownDependency && msg == unknown_stage_message(v, k),
        None => {
            &&& kind == GraphErrorKind::CyclicDependency
            &&& if !acyclic(stage_adj(v)) {
                first_cycle(stage_adj(v)) matches Some(p) && msg == stage_cycle_message(v, p)
            } else {
                exists|i: int|
                    0 <= i < v.len() && (forall|j: int| 0 <= j < i ==> #[trigger] acyclic(job_adj(v[j])))
                        && !acyclic(job_adj(v[i])) && (first_cycle(job_adj(v[i])) matches Some(p) && msg
                        == job_cycle_message(v[i], p))
            }
        },
    }
}


// ---------------------------------------------------------------------------
// Names and lookups
// ---------------------------------------------------------------------------

pub open spec fn opt_view(k: Option<String>) -> Option<Seq<char>> {
    match k {
        Some(s) => Some(s@),
        None => None,
    }
}

pub open spec fn keys_view(keys: Seq<Option<String>>) -> Seq<Option<Seq<char>>> {
    keys.map_values(|k: Option<String>| opt_view(k))
}

pub(crate) fn stage_key_string(s: &Stage) -> (r: String)
    ensures
        r@ == stage_key(*s),
{
    match &s.stage {
        Some(n) => n.clone(),
        None => String::new(),
    }
}

fn stage_label_string(s: &Stage) -> (r: String)
    ensures
        r@ == stage_label(*s),
{
    match &s.stage {
        Some(n) => n.clone(),
        None => String::from_str("unknown"),
    }
}

pub(crate) fn job_key_string(j: &Job) -> (r: Option<String>)
    ensures
        opt_view(r) == job_key(*j),
{
    match j.identifier() {
        Some(s) => Some(s.to_string()),
        None => None,
    }
}

fn job_label_string(j: &Job) -> (r: String)
    ensures
        r@ == job_label(*j),
{
    match j.identifier() {
        Some(s) => s.to_string(),
        None => String::from_str("unknown"),
    }
}

proof fn lemma_last_keyed_range(keys: Seq<Option<Seq<char>>>, name: Seq<char>)
    ensures
        last_keyed(keys, name) matches Some(i) ==> 0 <= i < keys.len() && keys[i] == Some(name),
    decreases keys.len(),
{
    if keys.len() > 0 && keys.last() != Some(name) {
        lemma_last_keyed_range(keys.drop_last(), name);
    }
}

proof fn lemma_first_missing_range(keys: Seq<Option<Seq<char>>>, pairs: Seq<(int, Seq<char>)>)
    ensures
        first_missing(keys, pairs) matches Some(k) ==> 0 <= k < pairs.len(),
    decreases pairs.len(),
{
    if pairs.len() > 0 {
        lemma_first_missing_range(keys, pairs.drop_last());
    }
}

/// Index of the last key equal to `name`.
fn find_keyed(keys: &Vec<Option<String>>, name: &str) -> (r: Option<usize>)
    ensures
        match r {
            Some(i) => last_keyed(keys_view(keys@), name@) == Some(i as int),
            None => last_keyed(keys_view(keys@), name@) is None,
        },
{
    let ghost all = keys_view(keys@);
    let mut i = keys.len();
    assert(all.subrange(0, i as int) == all);
    while i > 0
        invariant
            i <= keys@.len(),
            all == keys_view(keys@),
            last_keyed(all, name@) == last_keyed(all.subrange(0, i as int), name@),
        decreases i,
    {
        let ghost pre = all.subrange(0, i as int);
        assert(pre.last() == opt_view(keys@[i - 1]));
        assert(pre.drop_last() == all.subrange(0, i - 1));
        match &keys[i - 1] {
            Some(k) => {
                if crate::template::str_eq(k.as_str(), name) {
                    return Some(i - 1);
                }
            },
            None => {},
        }
        i = i - 1;
    }
    None
}

pub open spec fn lists_view(deps: Seq<&Vec<String>>) -> Seq<Seq<Seq<char>>> {
    deps.map_values(|d: &Vec<String>| strs(d@))
}

proof fn lemma_resolve_all_bound(keys: Seq<Option<Seq<char>>>, ds: Seq<Seq<char>>)
    ensures
        forall|k: int| 0 <= k < resolve_all(keys, ds).len() ==> (#[trigger] resolve_all(keys, ds)[k] as int)
            < keys.len(),
    decreases ds.len(),
{
    if ds.len() > 0 {
        let r = resolve_all(keys, ds.drop_last());
        lemma_resolve_all_bound(keys, ds.drop_last());
        lemma_last_keyed_range(keys, ds.last());
        assert forall|k: int| 0 <= k < resolve_all(keys, ds).len() implies (#[trigger] resolve_all(
            keys,
            ds,
        )[k] as int) < keys.len() by {
            if k < r.len() {
                assert(resolve_all(keys, ds)[k] == r[k]);
            }
        }
    }
}

/// Resolves every item's dependency names to indices, leaving out names of
/// nothing, and finds the first dependency that names nothing.
fn resolve_lists(keys: &Vec<Option<String>>, deps: &Vec<&Vec<String>>) -> (r: (
    Vec<Vec<usize>>,
    Option<(usize, usize)>,
))
    ensures
        adj_view(r.0@) == adjacency(keys_view(keys@), lists_view(deps@)),
        graph_ok(adj_view(r.0@)) || r.0@.len() != keys@.len(),
        forall|i: int, k: int|
            0 <= i < r.0@.len() && 0 <= k < r.0@[i]@.len() ==> (#[trigger] r.0@[i]@[k] as int) < keys@.len(),
        match r.1 {
            None => first_missing(keys_view(keys@), dependency_pairs(lists_view(deps@))) is None,
            Some((i, j)) => {
                &&& (i as int) < deps@.len()
                &&& (j as int) < deps@[i as int]@.len()
                &&& first_missing(keys_view(keys@), dependency_pairs(lists_view(deps@))) matches Some(k)
                    && dependency_pairs(lists_view(deps@))[k] == (i as int, deps@[i as int]@[j as int]@)
            },
        },
{
    let ghost kv = keys_view(keys@);
    let ghost dv = lists_view(deps@);
    let mut adj: Vec<Vec<usize>> = Vec::new();
    let mut missing: Option<(usize, usize)> = None;
    let mut i: usize = 0;
    while i < deps.len()
        invariant
            i <= deps@.len(),
            kv == keys_view(keys@),
            dv == lists_view(deps@),
            adj@.len() == i,
            forall|m: int| 0 <= m < i ==> (#[trigger] adj@[m])@ == resolve_all(kv, dv[m]),
            ({
                let seen = dependency_pairs(dv.subrange(0, i as int));
                &&& match missing {
                    None => first_missing(kv, seen) is None,
                    Some((a, b)) => {
                        &&& (a as int) < deps@.len()
                        &&& (b as int) < deps@[a as int]@.len()
                        &&& first_missing(kv, seen) matches Some(k) && k < seen.len() && seen[k] == (
                            a as int,
                            deps@[a as int]@[b as int]@,
                        )
                    },
                }
            }),
        decreases deps@.len() - i,
    {
        let list = deps[i];
        let ghost done = dependency_pairs(dv.subrange(0, i as int));
        let ghost row = dv[i as int].map_values(|d: Seq<char>| (i as int, d));
        proof {
            let pre = dv.subrange(0, i + 1);
            assert(pre.drop_last() == dv.subrange(0, i as int));
            assert(pre.last() == dv[i as int]);
            assert(dependency_pairs(pre) == done + row);
        }
        let mut resolved: Vec<usize> = Vec::new();
        let mut j: usize = 0;
        while j < list.len()
            invariant
                i < deps@.len(),
                list == deps@[i as int],
                j <= list@.len(),
                kv == keys_view(keys@),
                dv == lists_view(deps@),
                dv[i as int] == strs(list@),
                row == dv[i as int].map_values(|d: Seq<char>| (i as int, d)),
                done == dependency_pairs(dv.subrange(0, i as int)),
                resolved@ == resolve_all(kv, dv[i as int].subrange(0, j as int)),
                ({
                    let seen = done + row.subrange(0, j as int);
                    match missing {
                        None => first_missing(kv, seen) is None,
                        Some((a, b)) => {
                            &&& (a as int) < deps@.len()
                            &&& (b as int) < deps@[a as int]@.len()
                            &&& first_missing(kv, seen) matches Some(k) && k < seen.len() && seen[k] == (
                                a as int,
                                deps@[a as int]@[b as int]@,
                            )
                        },
                    }
                }),
            decreases list@.len() - j,
        {
            let ghost seen = done + row.subrange(0, j as int);
            let ghost seen2 = done + row.subrange(0, j + 1);
            proof {
                assert(seen2 == seen.push(row[j as int]));
                assert(seen2.drop_last() == seen);
                assert(row[j as int] == (i as int, list@[j as int]@));
                let ds = dv[i as int].subrange(0, j + 1);
                assert(ds.drop_last() == dv[i as int].subrange(0, j as int));
                assert(ds.last() == list@[j as int]@);
            }
            let ghost before = missing;
            match find_keyed(keys, list[j].as_str()) {
                Some(from) => {
                    resolved.push(from);
                },
                None => {
                    if missing.is_none() {
                        missing = Some((i, j));
                    }
                },
            }
            proof {
                let x = row[j as int];
                assert(first_missing(kv, seen2) == match first_missing(kv, seen) {
                    Some(k) => Some(k),
                    None => if last_keyed(kv, x.1) is None {
                        Some(seen.len() as int)
                    } else {
                        None
                    },
                });
                lemma_first_missing_range(kv, seen);
                if let Some(k) = first_missing(kv, seen) {
                    assert(seen2[k] == seen[k]);
                }
                assert(seen2[seen.len() as int] == x);
            }
            j = j + 1;
        }
        proof {
            assert(row.subrange(0, row.len() as int) == row);
            assert(dv[i as int].subrange(0, list@.len() as int) == dv[i as int]);
        }
        adj.push(resolved);
        i = i + 1;
    }
    proof {
        assert(dv.subrange(0, dv.len() as int) == dv);
        assert(adj_view(adj@) =~= adjacency(kv, dv));
        assert forall|m: int, k: int|
            0 <= m < adj@.len() && 0 <= k < adj@[m]@.len() implies (#[trigger] adj@[m]@[k] as int) < keys@.len() by {
            lemma_resolve_all_bound(kv, dv[m]);
        }
        if adj@.len() == keys@.len() {
            assert forall|u: int, k: int|
                0 <= u < adj_view(adj@).len() && 0 <= k < adj_view(adj@)[u].len() implies (
                #[trigger] adj_view(adj@)[u][k] as int) < adj_view(adj@).len() by {
                assert(adj_view(adj@)[u] == adj@[u]@);
            }
        }
    }
    (adj, missing)
}


/// The names of the nodes along a walk `p`.
pub(crate) proof fn lemma_walk_in_range(p: Seq<usize>, a: Seq<Seq<usize>>)
    requires
        closed_walk(p, a),
    ensures
        forall|k: int| 0 <= k < p.len() ==> (#[trigger] p[k] as int) < a.len(),
{
    let j = choose|j: int| 0 <= j < p.len() - 1 && p[j] == p.last();
    assert(a[p[j] as int].contains(p[j + 1]));
    assert forall|k: int| 0 <= k < p.len() implies (#[trigger] p[k] as int) < a.len() by {
        if k == p.len() - 1 {
            assert(p[j] == p[k]);
        } else {
            assert(a[p[k] as int].contains(p[k + 1]));
        }
    }
}

fn concat2(a: &str, b: &str) -> (r: String)
    ensures
        r@ == a@ + b@,
{
    let mut r = String::from_str(a);
    r.append(b);
    r
}

fn concat3(a: &str, b: &str, c: &str) -> (r: String)
    ensures
        r@ == a@ + b@ + c@,
{
    let mut r = String::from_str(a);
    r.append(b);
    r.append(c);
    r
}

impl ExecutionGraph {
    /// The keys and dependency lists of the stages, as vectors.
    fn stage_lists(&self) -> (r: (Vec<Option<String>>, Vec<&Vec<String>>))
        ensures
            keys_view(r.0@) == stage_keys(self.view_stages()),
            lists_view(r.1@) == stage_dep_lists(self.view_stages()),
            r.0@.len() == self.stages@.len(),
            r.1@.len() == self.stages@.len(),
            forall|i: int| 0 <= i < self.stages@.len() ==> #[trigger] r.1@[i] == self.stages@[i].dependencies,
    {
        let ghost v = self.view_stages();
        let mut keys: Vec<Option<String>> = Vec::new();
        let mut deps: Vec<&Vec<String>> = Vec::new();
        let mut i: usize = 0;
        while i < self.stages.len()
            invariant
                i <= self.stages@.len(),
                v == self.view_stages(),
                keys@.len() == i,
                deps@.len() == i,
                keys_view(keys@) == stage_keys(v).subrange(0, i as int),
                lists_view(deps@) == stage_dep_lists(v).subrange(0, i as int),
                forall|m: int| 0 <= m < i ==> #[trigger] deps@[m] == self.stages@[m].dependencies,
            decreases self.stages@.len() - i,
        {
            keys.push(Some(stage_key_string(&self.stages[i].stage)));
            deps.push(&self.stages[i].dependencies);
            proof {
                assert(keys_view(keys@) =~= stage_keys(v).subrange(0, i + 1));
                assert(lists_view(deps@) =~= stage_dep_lists(v).subrange(0, i + 1));
            }
            i = i + 1;
        }
        proof {
            assert(stage_keys(v).subrange(0, i as int) == stage_keys(v));
            assert(stage_dep_lists(v).subrange(0, i as int) == stage_dep_lists(v));
        }
        (keys, deps)
    }

    /// A circle among the jobs of stage `s`, reported as an error.
    fn job_cycle(&self, s: usize) -> (r: Option<GraphError>)
        requires
            s < self.stages@.len(),
        ensures
            match r {
                None => acyclic(job_adj(self.view_stages()[s as int])),
                Some(e) => {
                    &&& !acyclic(job_adj(self.view_stages()[s as int]))
                    &&& e.kind == GraphErrorKind::CyclicDependency
                    &&& first_cycle(job_adj(self.view_stages()[s as int])) matches Some(p) && e.message@
                        == job_cycle_message(self.view_stages()[s as int], p)
                },
            },
    {
        let ghost sv = self.view_stages()[s as int];
        let node = &self.stages[s];
        let adj = job_adjacency(node);
        match find_cycle(&adj) {
            Some(p) => {
                proof {
                    lemma_walk_in_range(p@, adj_view(adj@));
                }
                let mut names: Vec<String> = Vec::new();
                let mut k: usize = 0;
                while k < p.len()
                    invariant
                        k <= p@.len(),
                        sv == stage_view(*node),
                        adj_view(adj@).len() == node.jobs@.len(),
                        forall|m: int| 0 <= m < p@.len() ==> (#[trigger] p@[m] as int) < adj_view(adj@).len(),
                        names@.len() == k,
                        forall|m: int| 0 <= m < k ==> (#[trigger] names@[m])@ == sv.job_labels[p@[m] as int],
                    decreases p@.len() - k,
                {
                    names.push(job_label_string(&node.jobs[p[k]].job));
                    k = k + 1;
                }
                let joined = join_strings(&names, " -> ");
                let label = stage_label_string(&node.stage);
                let head = concat3("circular dependency detected in jobs of stage '", label.as_str(), "': ");
                let msg = concat2(head.as_str(), joined.as_str());
                proof {
                    assert(names@.map_values(|x: String| x@) =~= p@.map_values(
                        |i: usize| sv.job_labels[i as int],
                    ));
                    assert(closed_walk(p@, job_adj(sv)));
                    assert(first_cycle(job_adj(sv)) == Some(p@));
                    assert(msg@ == job_cycle_message(sv, p@));
                }
                Some(GraphError::cyclic(msg.as_str()))
            },
            None => None,
        }
    }

    /// Checks that every stage dependency names a stage, and that neither
    /// the stages nor the jobs of any stage wait for each other in a circle.
    pub fn validate(&self) -> (r: Result<(), GraphError>)
        ensures
            match r {
                Ok(()) => graph_valid(self.view_stages()),
                Err(e) => !graph_valid(self.view_stages()) && validation_error(
                    self.view_stages(),
                    e.kind,
                    e.message@,
                ),
            },
    {
        let ghost v = self.view_stages();
        let (keys, deps) = self.stage_lists();
        let (adj, missing) = resolve_lists(&keys, &deps);
        if let Some((si, dj)) = missing {
            let label = stage_label_string(&self.stages[si].stage);
            let head = concat3("stage '", label.as_str(), "' depends on unknown stage '");
            let msg = concat3(head.as_str(), deps[si][dj].as_str(), "'");
            return Err(GraphError::unknown_dependency(msg.as_str()));
        }
        assert(adj_view(adj@) == stage_adj(v));
        assert(adj@.len() == keys@.len());
        assert(graph_ok(adj_view(adj@)));
        match find_cycle(&adj) {
            Some(p) => {
                proof {
                    lemma_walk_in_range(p@, adj_view(adj@));
                }
                let mut names: Vec<String> = Vec::new();
                let mut k: usize = 0;
                while k < p.len()
                    invariant
                        k <= p@.len(),
                        v == self.view_stages(),
                        adj_view(adj@).len() == self.stages@.len(),
                        forall|m: int| 0 <= m < p@.len() ==> (#[trigger] p@[m] as int) < adj_view(adj@).len(),
                        names@.len() == k,
                        forall|m: int| 0 <= m < k ==> (#[trigger] names@[m])@ == v[p@[m] as int].key,
                    decreases p@.len() - k,
                {
                    names.push(stage_key_string(&self.stages[p[k]].stage));
                    k = k + 1;
                }
                let joined = join_strings(&names, " -> ");
                let msg = concat2("circular dependency detected in stages: ", joined.as_str());
                proof {
                    assert(names@.map_values(|x: String| x@) =~= p@.map_values(|i: usize| v[i as int].key));
                    assert(closed_walk(p@, stage_adj(v)));
                    assert(first_cycle(stage_adj(v)) == Some(p@));
                    assert(msg@ == stage_cycle_message(v, p@));
                }
                return Err(GraphError::cyclic(msg.as_str()));
            },
            None => {},
        }
        let mut s: usize = 0;
        while s < self.stages.len()
            invariant
                s <= self.stages@.len(),
                v == self.view_stages(),
                stage_missing(v) is None,
                acyclic(stage_adj(v)),
                forall|j: int| 0 <= j < s ==> #[trigger] acyclic(job_adj(v[j])),
            decreases self.stages@.len() - s,
        {
            match self.job_cycle(s) {
                Some(e) => {
                    proof {
                        assert(exists|i: int|
                            0 <= i < v.len() && (forall|j: int| 0 <= j < i ==> #[trigger] acyclic(job_adj(v[j])))
                                && !acyclic(job_adj(v[i])) && (first_cycle(job_adj(v[i])) matches Some(p)
                                && e.message@ == job_cycle_message(v[i], p))) by {
                            assert(0 <= s < v.len());
                        }
                    }
                    return Err(e);
                },
                None => {},
            }
            s = s + 1;
        }
        Ok(())
    }
}


// ---------------------------------------------------------------------------
// Building the graph from a pipeline
// ---------------------------------------------------------------------------

/// How an item declares its dependencies: on the item before it, or on the
/// names listed (none for an explicit `none`).
pub enum DepsDecl {
    Previous,
    Names(Seq<Seq<char>>),
}

pub open spec fn deps_decl(d: DependsOn) -> DepsDecl {
    if d is Default {
        DepsDecl::Previous
    } else {
        DepsDecl::Names(strs(d.names()))
    }
}

/// A job as the graph reads it.
pub struct JobShape {
    pub key: Option<Seq<char>>,
    pub label: Seq<char>,
    pub deps: DepsDecl,
}

/// A stage as the graph reads it.
pub struct StageShape {
    pub key: Seq<char>,
    pub label: Seq<char>,
    pub deps: DepsDecl,
    pub jobs: Seq<JobShape>,
}

pub open spec fn job_shape(j: Job) -> JobShape {
    JobShape { key: job_key(j), label: job_label(j), deps: deps_decl(j.depends_on) }
}

pub open spec fn stage_shape(s: Stage) -> StageShape {
    StageShape {
        key: stage_key(s),
        label: stage_label(s),
        deps: deps_decl(s.depends_on),
        jobs: s.jobs@.map_values(|j: Job| job_shape(j)),
    }
}

pub open spec fn no_deps() -> DepsDecl {
    DepsDecl::Names(Seq::empty())
}

/// The stages a pipeline runs as: its stages; else one stage "__default"
/// holding its jobs; else one stage "__default" with one job "__default"
/// holding its steps; else none.
pub open spec fn normalized_shapes(p: Pipeline) -> Seq<StageShape> {
    if p.stages@.len() > 0 {
        p.stages@.map_values(|s: Stage| stage_shape(s))
    } else if p.jobs@.len() > 0 {
        seq![
            StageShape {
                key: "__default"@,
                label: "__default"@,
                deps: no_deps(),
                jobs: p.jobs@.map_values(|j: Job| job_shape(j)),
            },
        ]
    } else if p.steps@.len() > 0 {
        seq![
            StageShape {
                key: "__default"@,
                label: "__default"@,
                deps: no_deps(),
                jobs: seq![JobShape { key: Some("__default"@), label: "__default"@, deps: no_deps() }],
            },
        ]
    } else {
        Seq::empty()
    }
}

/// The dependency names that a declaration gives, `prev` being the key of
/// the item before (if there is one and it has a key).
pub open spec fn declared_names(d: DepsDecl, prev: Option<Seq<char>>) -> Seq<Seq<char>> {
    match d {
        DepsDecl::Previous => match prev {
            Some(p) => seq![p],
            None => Seq::empty(),
        },
        DepsDecl::Names(ns) => ns,
    }
}

pub open spec fn stage_decl_deps(shapes: Seq<StageShape>, i: int) -> Seq<Seq<char>> {
    declared_names(
        shapes[i].deps,
        if i > 0 {
            Some(shapes[i - 1].key)
        } else {
            None
        },
    )
}

pub open spec fn job_decl_deps(jobs: Seq<JobShape>, i: int) -> Seq<Seq<char>> {
    declared_names(
        jobs[i].deps,
        if i > 0 {
            jobs[i - 1].key
        } else {
            None
        },
    )
}

pub open spec fn job_decl_lists(jobs: Seq<JobShape>) -> Seq<Seq<Seq<char>>> {
    Seq::new(jobs.len(), |i: int| job_decl_deps(jobs, i))
}

/// The graph that the shapes give.
pub open spec fn built_view(shapes: Seq<StageShape>) -> Seq<StageView> {
    Seq::new(
        shapes.len(),
        |i: int|
            StageView {
                key: shapes[i].key,
                label: shapes[i].label,
                deps: stage_decl_deps(shapes, i),
                job_keys: shapes[i].jobs.map_values(|j: JobShape| j.key),
                job_labels: shapes[i].jobs.map_values(|j: JobShape| j.label),
                job_deps: job_decl_lists(shapes[i].jobs),
            },
    )
}

/// The first name in `ds` that names no key.
pub open spec fn first_bad_in(keys: Seq<Option<Seq<char>>>, ds: Seq<Seq<char>>) -> Option<int>
    decreases ds.len(),
{
    if ds.len() == 0 {
        None
    } else {
        match first_bad_in(keys, ds.drop_last()) {
            Some(j) => Some(j),
            None => if last_keyed(keys, ds.last()) is None {
                Some(ds.len() - 1)
            } else {
                None
            },
        }
    }
}

/// The first `(item, position)` whose dependency names no key.
pub open spec fn first_bad_row(keys: Seq<Option<Seq<char>>>, dss: Seq<Seq<Seq<char>>>) -> Option<(int, int)>
    decreases dss.len(),
{
    if dss.len() == 0 {
        None
    } else {
        match first_bad_row(keys, dss.drop_last()) {
            Some(x) => Some(x),
            None => match first_bad_in(keys, dss.last()) {
                Some(j) => Some((dss.len() - 1, j)),
                None => None,
            },
        }
    }
}

/// The first job dependency of a stage that names no job of it.
pub open spec fn job_missing(s: StageView) -> Option<(int, int)> {
    first_bad_row(s.job_keys, s.job_deps)
}

pub open spec fn unknown_job_message(label: Seq<char>, dep: Seq<char>) -> Seq<char> {
    "job '"@ + label + "' depends on unknown job '"@ + dep + "'"@
}

/// What building reports for `v` when a stage's jobs name an unknown job:
/// the first such stage, its first such job and dependency.
pub open spec fn job_build_error(v: Seq<StageView>, kind: GraphErrorKind, msg: Seq<char>) -> bool {
    exists|i: int|
        #![trigger v[i]]
        0 <= i < v.len() && (forall|j: int| 0 <= j < i ==> #[trigger] job_missing(v[j]) is None)
            && (job_missing(v[i]) matches Some((a, b)) && kind == GraphErrorKind::UnknownDependency
            && msg == unknown_job_message(v[i].job_labels[a], v[i].job_deps[a][b]))
}

proof fn lemma_same_depends_decl(a: DependsOn, b: DependsOn)
    requires
        same_depends(a, b),
    ensures
        deps_decl(a) == deps_decl(b),
{
}

/// Two lists of variables say the same, entry by entry.
pub open spec fn same_variables(a: Seq<Variable>, b: Seq<Variable>) -> bool {
    variables_content(a) == variables_content(b)
}

/// `s` is the stage "__default" that a pipeline without stages runs as:
/// no dependencies, no condition or variables of its own, the pipeline's pool.
pub open spec fn default_stage_of(s: Stage, p: Pipeline) -> bool {
    &&& s.stage matches Some(n) && n@ == "__default"@
    &&& s.display_name is None
    &&& s.depends_on is Nothing
    &&& s.condition is None
    &&& s.variables@.len() == 0
    &&& s.lock_behavior is None
    &&& s.template is None
    &&& s.parameters@.len() == 0
    &&& opt_pool_content(s.pool) == opt_pool_content(p.pool)
    &&& !s.has_template_directives
}

/// `j` is the job "__default" that a pipeline of bare steps runs as: the
/// pipeline's steps and pool, and nothing else set.
pub open spec fn default_job_of(j: Job, p: Pipeline) -> bool {
    &&& j.job matches Some(n) && n@ == "__default"@
    &&& j.deployment is None
    &&& j.display_name is None
    &&& j.depends_on is Nothing
    &&& j.condition is None
    &&& j.strategy is None
    &&& opt_pool_content(j.pool) == opt_pool_content(p.pool)
    &&& j.container is None
    &&& j.services@ == Map::<String, ContainerRef>::empty()
    &&& j.variables@.len() == 0
    &&& steps_content(j.steps@) == steps_content(p.steps@)
    &&& j.timeout_in_minutes is None
    &&& j.cancel_timeout_in_minutes is None
    &&& j.continue_on_error == BoolOrExpression::Bool(false)
    &&& j.workspace is None
    &&& j.uses is None
    &&& j.template is None
    &&& j.parameters@.len() == 0
    &&& j.environment is None
    &&& !j.has_template_directives
}

/// `stages` are the stages the pipeline runs as, with all they hold: its
/// stages; else one stage "__default" holding its jobs; else one stage
/// "__default" with one job "__default" holding its steps; else none.
pub open spec fn normalized_from(p: Pipeline, stages: Seq<Stage>) -> bool {
    if p.stages@.len() > 0 {
        stages_content(stages) == stages_content(p.stages@)
    } else if p.jobs@.len() > 0 {
        &&& stages.len() == 1
        &&& default_stage_of(stages[0], p)
        &&& jobs_content(stages[0].jobs@) == jobs_content(p.jobs@)
    } else if p.steps@.len() > 0 {
        &&& stages.len() == 1
        &&& default_stage_of(stages[0], p)
        &&& stages[0].jobs@.len() == 1
        &&& default_job_of(stages[0].jobs@[0], p)
    } else {
        stages.len() == 0
    }
}

proof fn lemma_same_job_shape(a: Job, b: Job)
    requires
        same_job(a, b),
    ensures
        job_shape(a) == job_shape(b),
{
    assert(job_content(a).depends_on == job_content(b).depends_on);
    lemma_same_depends_decl(a.depends_on, b.depends_on);
}

proof fn lemma_same_stage_shape(a: Stage, b: Stage)
    requires
        same_stage(a, b),
    ensures
        stage_shape(a) == stage_shape(b),
{
    assert(stage_content(a).depends_on == stage_content(b).depends_on);
    lemma_same_depends_decl(a.depends_on, b.depends_on);
    assert(jobs_content(a.jobs@) == jobs_content(b.jobs@));
    assert(a.jobs@.len() == jobs_content(a.jobs@).len());
    assert forall|k: int| 0 <= k < a.jobs@.len() implies #[trigger] job_shape(a.jobs@[k]) == job_shape(
        b.jobs@[k],
    ) by {
        assert(jobs_content(a.jobs@)[k] == job_content(a.jobs@[k]));
        assert(jobs_content(b.jobs@)[k] == job_content(b.jobs@[k]));
        lemma_same_job_shape(a.jobs@[k], b.jobs@[k]);
    }
    assert(a.jobs@.map_values(|j: Job| job_shape(j)) =~= b.jobs@.map_values(|j: Job| job_shape(j)));
}

fn copy_stage_list(stages: &Vec<Stage>) -> (r: Vec<Stage>)
    ensures
        stages_content(r@) == stages_content(stages@),
        r@.map_values(|s: Stage| stage_shape(s)) == stages@.map_values(|s: Stage| stage_shape(s)),
{
    let r = copy_stages(stages);
    proof {
        assert(r@.len() == stages_content(r@).len());
        assert forall|i: int| 0 <= i < stages@.len() implies #[trigger] stage_shape(r@[i]) == stage_shape(
            stages@[i],
        ) by {
            assert(stages_content(r@)[i] == stage_content(r@[i]));
            assert(stages_content(stages@)[i] == stage_content(stages@[i]));
            lemma_same_stage_shape(r@[i], stages@[i]);
        }
        assert(r@.map_values(|s: Stage| stage_shape(s)) =~= stages@.map_values(|s: Stage| stage_shape(s)));
    }
    r
}

fn copy_job_list(jobs: &Vec<Job>) -> (r: Vec<Job>)
    ensures
        jobs_content(r@) == jobs_content(jobs@),
        r@.map_values(|j: Job| job_shape(j)) == jobs@.map_values(|j: Job| job_shape(j)),
{
    let r = copy_jobs(jobs);
    proof {
        assert(r@.len() == jobs_content(r@).len());
        assert forall|k: int| 0 <= k < jobs@.len() implies #[trigger] job_shape(r@[k]) == job_shape(
            jobs@[k],
        ) by {
            assert(jobs_content(r@)[k] == job_content(r@[k]));
            assert(jobs_content(jobs@)[k] == job_content(jobs@[k]));
            lemma_same_job_shape(r@[k], jobs@[k]);
        }
        assert(r@.map_values(|j: Job| job_shape(j)) =~= jobs@.map_values(|j: Job| job_shape(j)));
    }
    r
}

fn default_stage(jobs: Vec<Job>, pipeline: &Pipeline) -> (s: Stage)
    ensures
        default_stage_of(s, *pipeline),
        s.jobs@ == jobs@,
{
    Stage {
        stage: Some("__default".to_string()),
        display_name: None,
        depends_on: DependsOn::Nothing,
        condition: None,
        variables: Vec::new(),
        jobs,
        lock_behavior: None,
        template: None,
        parameters: Vec::new(),
        pool: copy_opt_pool(&pipeline.pool),
        has_template_directives: false,
    }
}

impl ExecutionGraph {
    /// The pipeline as a list of stages (see [`normalized_shapes`] and
    /// [`normalized_from`]).
    fn normalize_to_stages(pipeline: &Pipeline) -> (r: Result<Vec<Stage>, GraphError>)
        ensures
            r matches Ok(stages) && stages@.map_values(|s: Stage| stage_shape(s)) == normalized_shapes(
                *pipeline,
            ) && normalized_from(*pipeline, stages@),
    {
        if pipeline.stages.len() > 0 {
            return Ok(copy_stage_list(&pipeline.stages));
        }
        if pipeline.jobs.len() > 0 {
            let jobs = copy_job_list(&pipeline.jobs);
            let stage = default_stage(jobs, pipeline);
            let mut v: Vec<Stage> = Vec::new();
            v.push(stage);
            proof {
                let sh = normalized_shapes(*pipeline);
                assert(stage_shape(v@[0]).jobs == pipeline.jobs@.map_values(|j: Job| job_shape(j)));
                assert(deps_decl(DependsOn::Nothing) == no_deps()) by {
                    assert(strs(DependsOn::Nothing.names()) =~= Seq::<Seq<char>>::empty());
                }
                assert(v@.map_values(|s: Stage| stage_shape(s)) =~= sh);
            }
            return Ok(v);
        }
        if pipeline.steps.len() > 0 {
            let job = Job {
                job: Some("__default".to_string()),
                deployment: None,
                display_name: None,
                depends_on: DependsOn::Nothing,
                condition: None,
                strategy: None,
                pool: copy_opt_pool(&pipeline.pool),
                container: None,
                services: HashMap::new(),
                variables: Vec::new(),
                steps: copy_steps(&pipeline.steps),
                timeout_in_minutes: None,
                cancel_timeout_in_minutes: None,
                continue_on_error: BoolOrExpression::default(),
                workspace: None,
                uses: None,
                template: None,
                parameters: Vec::new(),
                environment: None,
                has_template_directives: false,
            };
            let mut jobs: Vec<Job> = Vec::new();
            jobs.push(job);
            let stage = default_stage(jobs, pipeline);
            let mut v: Vec<Stage> = Vec::new();
            v.push(stage);
            proof {
                let sh = normalized_shapes(*pipeline);
                assert(deps_decl(DependsOn::Nothing) == no_deps()) by {
                    assert(strs(DependsOn::Nothing.names()) =~= Seq::<Seq<char>>::empty());
                }
                assert(stage_shape(v@[0]).jobs =~= sh[0].jobs);
                assert(v@.map_values(|s: Stage| stage_shape(s)) =~= sh);
            }
            return Ok(v);
        }
        Ok(Vec::new())
    }
}

fn copy_job(j: &Job) -> (r: Job)
    ensures
        job_shape(r) == job_shape(*j),
        same_job(r, *j),
{
    let r = crate::model_copy::copy_job(j);
    proof {
        lemma_same_job_shape(r, *j);
    }
    r
}

fn copy_stage(st: &Stage) -> (r: Stage)
    ensures
        stage_shape(r) == stage_shape(*st),
        same_stage(r, *st),
{
    let r = crate::model_copy::copy_stage(st);
    proof {
        lemma_same_stage_shape(r, *st);
    }
    r
}

fn unknown_job_text(label: &str, dep: &str) -> (r: String)
    ensures
        r@ == unknown_job_message(label@, dep@),
{
    let head = concat3("job '", label, "' depends on unknown job '");
    concat3(head.as_str(), dep, "'")
}

impl ExecutionGraph {
    /// The names of the stages that `stage`, the `index`-th of
    /// `all_stages`, waits for.
    fn calculate_stage_dependencies(stage: &Stage, index: usize, all_stages: &[Stage]) -> (r: Vec<String>)
        requires
            index <= all_stages@.len(),
        ensures
            strs(r@) == declared_names(
                deps_decl(stage.depends_on),
                if index > 0 {
                    Some(stage_key(all_stages@[index - 1]))
                } else {
                    None
                },
            ),
    {
        match &stage.depends_on {
            DependsOn::Default => {
                let mut r: Vec<String> = Vec::new();
                if index > 0 {
                    r.push(stage_key_string(&all_stages[index - 1]));
                    proof {
                        assert(strs(r@) =~= seq![stage_key(all_stages@[index - 1])]);
                    }
                } else {
                    proof {
                        assert(strs(r@) =~= Seq::<Seq<char>>::empty());
                    }
                }
                r
            },
            _ => {
                let r = stage.depends_on.as_vec();
                r
            },
        }
    }

    /// The names of the jobs that `job`, the `index`-th of `all_jobs`,
    /// waits for; an error for the first that names no job.
    fn calculate_job_dependencies(
        job: &Job,
        index: usize,
        all_jobs: &[Job],
        keys: &Vec<Option<String>>,
    ) -> (r: Result<Vec<String>, GraphError>)
        requires
            index <= all_jobs@.len(),
        ensures
            ({
                let decl = declared_names(
                    deps_decl(job.depends_on),
                    if index > 0 {
                        job_key(all_jobs@[index - 1])
                    } else {
                        None
                    },
                );
                match r {
                    Ok(d) => strs(d@) == decl && first_bad_in(keys_view(keys@), decl) is None,
                    Err(e) => first_bad_in(keys_view(keys@), decl) matches Some(j) && e.kind
                        == GraphErrorKind::UnknownDependency && e.message@ == unknown_job_message(
                        job_label(*job),
                        decl[j],
                    ),
                }
            }),
    {
        let ghost kv = keys_view(keys@);
        let deps: Vec<String> = match &job.depends_on {
            DependsOn::Default => {
                let mut r: Vec<String> = Vec::new();
                if index > 0 {
                    match job_key_string(&all_jobs[index - 1]) {
                        Some(prev) => {
                            r.push(prev);
                        },
                        None => {},
                    }
                }
                r
            },
            _ => job.depends_on.as_vec(),
        };
        let ghost decl = strs(deps@);
        proof {
            assert(decl == declared_names(
                deps_decl(job.depends_on),
                if index > 0 {
                    job_key(all_jobs@[index - 1])
                } else {
                    None
                },
            ));
        }
        let mut j: usize = 0;
        while j < deps.len()
            invariant
                j <= deps@.len(),
                decl == strs(deps@),
                decl == declared_names(
                    deps_decl(job.depends_on),
                    if index > 0 {
                        job_key(all_jobs@[index - 1])
                    } else {
                        None
                    },
                ),
                kv == keys_view(keys@),
                first_bad_in(kv, decl.subrange(0, j as int)) is None,
            decreases deps@.len() - j,
        {
            let ghost pre = decl.subrange(0, j + 1);
            proof {
                assert(pre.drop_last() == decl.subrange(0, j as int));
                assert(pre.last() == deps@[j as int]@);
            }
            match find_keyed(keys, deps[j].as_str()) {
                Some(_) => {},
                None => {
                    proof {
                        assert(first_bad_in(kv, pre) == Some(j as int));
                        lemma_first_bad_in_prefix(kv, decl, j + 1);
                        assert(decl[j as int] == deps@[j as int]@);
                    }
                    let label = job_label_string(job);
                    let msg = unknown_job_text(label.as_str(), deps[j].as_str());
                    return Err(GraphError::unknown_dependency(msg.as_str()));
                },
            }
            j = j + 1;
        }
        proof {
            assert(decl.subrange(0, deps@.len() as int) == decl);
        }
        Ok(deps)
    }

    /// One node per job, with its dependencies; an error for the first job
    /// dependency that names no job.
    fn build_job_nodes(jobs: &[Job]) -> (r: Result<Vec<JobNode>, GraphError>)
        ensures
            ({
                let js = jobs@.map_values(|j: Job| job_shape(j));
                let keys = js.map_values(|j: JobShape| j.key);
                let dss = job_decl_lists(js);
                match r {
                    Ok(nodes) => {
                        &&& first_bad_row(keys, dss) is None
                        &&& nodes@.len() == jobs@.len()
                        &&& forall|i: int|
                            0 <= i < jobs@.len() ==> job_shape(#[trigger] nodes@[i].job) == js[i]
                                && strs(nodes@[i].dependencies@) == dss[i]
                        &&& forall|i: int| 0 <= i < jobs@.len() ==> same_job(#[trigger] nodes@[i].job, jobs@[i])
                    },
                    Err(e) => first_bad_row(keys, dss) matches Some((a, b)) && e.kind
                        == GraphErrorKind::UnknownDependency && e.message@ == unknown_job_message(
                        js[a].label,
                        dss[a][b],
                    ),
                }
            }),
    {
        let ghost js = jobs@.map_values(|j: Job| job_shape(j));
        let ghost kseq = js.map_values(|j: JobShape| j.key);
        let ghost dss = job_decl_lists(js);
        let mut keys: Vec<Option<String>> = Vec::new();
        let mut i: usize = 0;
        while i < jobs.len()
            invariant
                i <= jobs@.len(),
                js == jobs@.map_values(|j: Job| job_shape(j)),
                kseq == js.map_values(|j: JobShape| j.key),
                keys@.len() == i,
                keys_view(keys@) == kseq.subrange(0, i as int),
            decreases jobs@.len() - i,
        {
            let ghost old_keys = keys@;
            keys.push(job_key_string(&jobs[i]));
            proof {
                assert(kseq[i as int] == job_key(jobs@[i as int]));
                assert(keys@ == old_keys.push(keys@[i as int]));
                assert(keys_view(keys@) =~= keys_view(old_keys).push(opt_view(keys@[i as int])));
                assert(keys_view(keys@) =~= kseq.subrange(0, i + 1));
            }
            i = i + 1;
        }
        proof {
            assert(kseq.subrange(0, i as int) == kseq);
        }
        let mut nodes: Vec<JobNode> = Vec::new();
        let mut i: usize = 0;
        while i < jobs.len()
            invariant
                i <= jobs@.len(),
                js == jobs@.map_values(|j: Job| job_shape(j)),
                kseq == js.map_values(|j: JobShape| j.key),
                dss == job_decl_lists(js),
                keys_view(keys@) == kseq,
                nodes@.len() == i,
                first_bad_row(kseq, dss.subrange(0, i as int)) is None,
                forall|m: int|
                    0 <= m < i ==> job_shape(#[trigger] nodes@[m].job) == js[m] && strs(
                        nodes@[m].dependencies@,
                    ) == dss[m],
                forall|m: int| 0 <= m < i ==> same_job(#[trigger] nodes@[m].job, jobs@[m]),
            decreases jobs@.len() - i,
        {
            let ghost pre = dss.subrange(0, i + 1);
            proof {
                assert(pre.drop_last() == dss.subrange(0, i as int));
                assert(pre.last() == dss[i as int]);
                assert(dss[i as int] == job_decl_deps(js, i as int));
                if i > 0 {
                    assert(js[i - 1].key == job_key(jobs@[i - 1]));
                }
            }
            match Self::calculate_job_dependencies(&jobs[i], i, jobs, &keys) {
                Ok(deps) => {
                    let node = JobNode { job: copy_job(&jobs[i]), dependencies: deps };
                    nodes.push(node);
                },
                Err(e) => {
                    proof {
                        lemma_first_bad_row_prefix(kseq, dss, i + 1);
                    }
                    return Err(e);
                },
            }
            i = i + 1;
        }
        proof {
            assert(dss.subrange(0, i as int) == dss);
        }
        Ok(nodes)
    }
}

proof fn lemma_first_bad_in_range(keys: Seq<Option<Seq<char>>>, ds: Seq<Seq<char>>)
    ensures
        first_bad_in(keys, ds) matches Some(j) ==> 0 <= j < ds.len(),
    decreases ds.len(),
{
    if ds.len() > 0 {
        lemma_first_bad_in_range(keys, ds.drop_last());
    }
}

proof fn lemma_first_bad_row_range(keys: Seq<Option<Seq<char>>>, dss: Seq<Seq<Seq<char>>>)
    ensures
        first_bad_row(keys, dss) matches Some((a, b)) ==> 0 <= a < dss.len() && 0 <= b < dss[a].len(),
    decreases dss.len(),
{
    if dss.len() > 0 {
        lemma_first_bad_row_range(keys, dss.drop_last());
        lemma_first_bad_in_range(keys, dss.last());
        if let Some((a, b)) = first_bad_row(keys, dss.drop_last()) {
            assert(dss.drop_last()[a] == dss[a]);
        }
    }
}

proof fn lemma_first_bad_in_prefix(keys: Seq<Option<Seq<char>>>, ds: Seq<Seq<char>>, n: int)
    requires
        0 <= n <= ds.len(),
        first_bad_in(keys, ds.subrange(0, n)) is Some,
    ensures
        first_bad_in(keys, ds) == first_bad_in(keys, ds.subrange(0, n)),
    decreases ds.len() - n,
{
    if n < ds.len() {
        let pre = ds.subrange(0, n + 1);
        assert(pre.drop_last() == ds.subrange(0, n));
        assert(first_bad_in(keys, pre) == first_bad_in(keys, ds.subrange(0, n)));
        lemma_first_bad_in_prefix(keys, ds, n + 1);
    } else {
        assert(ds.subrange(0, n) == ds);
    }
}

proof fn lemma_first_bad_row_prefix(keys: Seq<Option<Seq<char>>>, dss: Seq<Seq<Seq<char>>>, n: int)
    requires
        0 <= n <= dss.len(),
        first_bad_row(keys, dss.subrange(0, n)) is Some,
    ensures
        first_bad_row(keys, dss) == first_bad_row(keys, dss.subrange(0, n)),
    decreases dss.len() - n,
{
    if n < dss.len() {
        let pre = dss.subrange(0, n + 1);
        assert(pre.drop_last() == dss.subrange(0, n));
        assert(first_bad_row(keys, pre) == first_bad_row(keys, dss.subrange(0, n)));
        lemma_first_bad_row_prefix(keys, dss, n + 1);
    } else {
        assert(dss.subrange(0, n) == dss);
    }
}



/// The node `n` holds the stage `s`: the same stage, and each job node the
/// same job as the stage's job at its place.
pub open spec fn nodes_hold(n: StageNode, s: Stage) -> bool {
    &&& same_stage(n.stage, s)
    &&& n.jobs@.len() == s.jobs@.len()
    &&& forall|k: int| 0 <= k < n.jobs@.len() ==> same_job(#[trigger] n.jobs@[k].job, s.jobs@[k])
}

/// Each job node of `nodes` holds the pipeline's job at its place: the jobs
/// of the pipeline's stages; else the pipeline's jobs; else the one job
/// "__default" of its steps.
pub open spec fn job_nodes_hold(p: Pipeline, nodes: Seq<StageNode>) -> bool {
    if p.stages@.len() > 0 {
        &&& nodes.len() == p.stages@.len()
        &&& forall|i: int| 0 <= i < nodes.len() ==> (#[trigger] nodes[i]).jobs@.len() == p.stages@[i].jobs@.len()
        &&& forall|i: int, k: int|
            0 <= i < nodes.len() && 0 <= k < nodes[i].jobs@.len() ==> same_job(
                #[trigger] nodes[i].jobs@[k].job,
                p.stages@[i].jobs@[k],
            )
    } else if p.jobs@.len() > 0 {
        &&& nodes.len() == 1
        &&& nodes[0].jobs@.len() == p.jobs@.len()
        &&& forall|k: int| 0 <= k < p.jobs@.len() ==> same_job(#[trigger] nodes[0].jobs@[k].job, p.jobs@[k])
    } else if p.steps@.len() > 0 {
        &&& nodes.len() == 1
        &&& nodes[0].jobs@.len() == 1
        &&& default_job_of(nodes[0].jobs@[0].job, p)
    } else {
        nodes.len() == 0
    }
}

proof fn lemma_nodes_normalized(p: Pipeline, stages: Seq<Stage>, nodes: Seq<StageNode>)
    requires
        normalized_from(p, stages),
        nodes.len() == stages.len(),
        forall|m: int| 0 <= m < nodes.len() ==> nodes_hold(#[trigger] nodes[m], stages[m]),
    ensures
        normalized_from(p, nodes.map_values(|n: StageNode| n.stage)),
        job_nodes_hold(p, nodes),
{
    let ns = nodes.map_values(|n: StageNode| n.stage);
    if p.stages@.len() > 0 {
        assert(stages.len() == stages_content(stages).len());
        assert(p.stages@.len() == stages_content(p.stages@).len());
        assert forall|i: int| 0 <= i < nodes.len() implies stage_content(#[trigger] ns[i]) == stage_content(
            p.stages@[i],
        ) by {
            assert(nodes_hold(nodes[i], stages[i]));
            assert(stages_content(stages)[i] == stage_content(stages[i]));
            assert(stages_content(p.stages@)[i] == stage_content(p.stages@[i]));
        }
        assert(stages_content(ns) =~= stages_content(p.stages@));
        assert forall|i: int| 0 <= i < nodes.len() implies (#[trigger] nodes[i]).jobs@.len() == p.stages@[i].jobs@.len() by {
            assert(nodes_hold(nodes[i], stages[i]));
            assert(stages_content(stages)[i] == stages_content(p.stages@)[i]);
            assert(jobs_content(stages[i].jobs@).len() == jobs_content(p.stages@[i].jobs@).len());
        }
        assert forall|i: int, k: int|
            0 <= i < nodes.len() && 0 <= k < nodes[i].jobs@.len() implies same_job(
                #[trigger] nodes[i].jobs@[k].job,
                p.stages@[i].jobs@[k],
            ) by {
            assert(nodes_hold(nodes[i], stages[i]));
            assert(same_job(nodes[i].jobs@[k].job, stages[i].jobs@[k]));
            assert(stages_content(stages)[i] == stages_content(p.stages@)[i]);
            assert(jobs_content(stages[i].jobs@)[k] == job_content(stages[i].jobs@[k]));
            assert(jobs_content(p.stages@[i].jobs@)[k] == job_content(p.stages@[i].jobs@[k]));
        }
    } else if p.jobs@.len() > 0 {
        assert(nodes_hold(nodes[0], stages[0]));
        assert(ns[0] == nodes[0].stage);
        assert(stages[0].jobs@.len() == jobs_content(stages[0].jobs@).len());
        assert(p.jobs@.len() == jobs_content(p.jobs@).len());
        assert forall|k: int| 0 <= k < p.jobs@.len() implies same_job(#[trigger] nodes[0].jobs@[k].job, p.jobs@[k]) by {
            assert(jobs_content(stages[0].jobs@)[k] == job_content(stages[0].jobs@[k]));
            assert(jobs_content(p.jobs@)[k] == job_content(p.jobs@[k]));
        }
        assert(variables_content(ns[0].variables@).len() == variables_content(stages[0].variables@).len());
        assert(params_content(ns[0].parameters@).len() == params_content(stages[0].parameters@).len());
        assert(depends_content(ns[0].depends_on) == depends_content(stages[0].depends_on));
    } else if p.steps@.len() > 0 {
        assert(nodes_hold(nodes[0], stages[0]));
        assert(ns[0] == nodes[0].stage);
        let a = nodes[0].jobs@[0].job;
        let b = stages[0].jobs@[0];
        assert(same_job(a, b));
        assert(job_content(a).depends_on == job_content(b).depends_on);
        assert(variables_content(a.variables@).len() == variables_content(b.variables@).len());
        assert(params_content(a.parameters@).len() == params_content(b.parameters@).len());
        assert(variables_content(ns[0].variables@).len() == variables_content(stages[0].variables@).len());
        assert(params_content(ns[0].parameters@).len() == params_content(stages[0].parameters@).len());
        assert(depends_content(ns[0].depends_on) == depends_content(stages[0].depends_on));
        assert(jobs_content(ns[0].jobs@).len() == jobs_content(stages[0].jobs@).len());
        let c = ns[0].jobs@[0];
        assert(jobs_content(ns[0].jobs@)[0] == job_content(c));
        assert(jobs_content(stages[0].jobs@)[0] == job_content(b));
        assert(job_content(c).depends_on == job_content(b).depends_on);
        assert(variables_content(c.variables@).len() == variables_content(b.variables@).len());
        assert(params_content(c.parameters@).len() == params_content(b.parameters@).len());
        assert(default_job_of(c, p));
        assert(default_stage_of(ns[0], p));
    } else {
        assert(ns.len() == 0);
    }
}

impl ExecutionGraph {
    /// The node of the `i`-th stage: its dependencies and its jobs' nodes.
    fn stage_node(stages: &Vec<Stage>, i: usize) -> (r: Result<StageNode, GraphError>)
        requires
            i < stages@.len(),
        ensures
            ({
                let v = built_view(stages@.map_values(|s: Stage| stage_shape(s)));
                match r {
                    Ok(n) => {
                        &&& stage_view(n) == v[i as int]
                        &&& job_missing(v[i as int]) is None
                        &&& same_stage(n.stage, stages@[i as int])
                        &&& n.jobs@.len() == stages@[i as int].jobs@.len()
                        &&& forall|k: int|
                            0 <= k < n.jobs@.len() ==> same_job(#[trigger] n.jobs@[k].job, stages@[i as int].jobs@[k])
                    },
                    Err(e) => job_missing(v[i as int]) matches Some((a, b)) && e.kind
                        == GraphErrorKind::UnknownDependency && e.message@ == unknown_job_message(
                        v[i as int].job_labels[a],
                        v[i as int].job_deps[a][b],
                    ),
                }
            }),
    {
        let ghost shapes = stages@.map_values(|s: Stage| stage_shape(s));
        let ghost v = built_view(shapes);
        let deps = Self::calculate_stage_dependencies(&stages[i], i, stages.as_slice());
        let ghost js = stages@[i as int].jobs@.map_values(|j: Job| job_shape(j));
        proof {
            assert(shapes[i as int] == stage_shape(stages@[i as int]));
            assert(js == shapes[i as int].jobs);
            assert(v[i as int].job_keys == js.map_values(|j: JobShape| j.key));
            assert(v[i as int].job_deps == job_decl_lists(js));
            assert(v[i as int].job_labels == js.map_values(|j: JobShape| j.label));
            assert(job_missing(v[i as int]) == first_bad_row(
                js.map_values(|j: JobShape| j.key),
                job_decl_lists(js),
            ));
        }
        let jobs = match Self::build_job_nodes(stages[i].jobs.as_slice()) {
            Ok(j) => j,
            Err(e) => {
                proof {
                    lemma_first_bad_row_range(
                        js.map_values(|j: JobShape| j.key),
                        job_decl_lists(js),
                    );
                }
                return Err(e);
            },
        };
        let node = StageNode { stage: copy_stage(&stages[i]), dependencies: deps, jobs };
        proof {
            let sv = stage_view(node);
            if i > 0 {
                assert(shapes[i - 1] == stage_shape(stages@[i - 1]));
            }
            assert(sv.deps == v[i as int].deps);
            assert forall|k: int| 0 <= k < node.jobs@.len() implies job_shape(#[trigger] node.jobs@[k].job)
                == js[k] && strs(node.jobs@[k].dependencies@) == job_decl_lists(js)[k] by {
            }
            assert forall|k: int| 0 <= k < node.jobs@.len() implies sv.job_deps[k] == v[i as int].job_deps[k]
                && sv.job_keys[k] == v[i as int].job_keys[k] && sv.job_labels[k] == v[i as int].job_labels[k] by {
                assert(job_shape(node.jobs@[k].job) == js[k]);
            }
            assert(sv.job_keys =~= v[i as int].job_keys);
            assert(sv.job_labels =~= v[i as int].job_labels);
            assert(sv.job_deps =~= v[i as int].job_deps);
        }
        Ok(node)
    }

    /// Builds the execution graph of a pipeline (its stages, or its jobs or
    /// steps as one stage "__default"), then validates it.
    pub fn from_pipeline(pipeline: &Pipeline) -> (r: Result<Self, GraphError>)
        ensures
            ({
                let v = built_view(normalized_shapes(*pipeline));
                match r {
                    Ok(g) => {
                        &&& g.view_stages() == v
                        &&& forall|i: int| 0 <= i < v.len() ==> #[trigger] job_missing(v[i]) is None
                        &&& graph_valid(v)
                        &&& same_variables(g.variables@, pipeline.variables@)
                        &&& normalized_from(*pipeline, g.stages@.map_values(|n: StageNode| n.stage))
                        &&& job_nodes_hold(*pipeline, g.stages@)
                    },
                    Err(e) => job_build_error(v, e.kind, e.message@) || ((forall|i: int|
                        0 <= i < v.len() ==> #[trigger] job_missing(v[i]) is None) && !graph_valid(v)
                        && validation_error(v, e.kind, e.message@)),
                }
            }),
    {
        let stages = match Self::normalize_to_stages(pipeline) {
            Ok(s) => s,
            Err(e) => return Err(e),
        };
        let ghost v = built_view(normalized_shapes(*pipeline));
        let mut nodes: Vec<StageNode> = Vec::new();
        let mut i: usize = 0;
        while i < stages.len()
            invariant
                i <= stages@.len(),
                v == built_view(stages@.map_values(|s: Stage| stage_shape(s))),
                v == built_view(normalized_shapes(*pipeline)),
                nodes@.len() == i,
                forall|m: int| 0 <= m < i ==> stage_view(#[trigger] nodes@[m]) == v[m],
                forall|m: int| 0 <= m < i ==> #[trigger] job_missing(v[m]) is None,
                normalized_from(*pipeline, stages@),
                forall|m: int| 0 <= m < i ==> nodes_hold(#[trigger] nodes@[m], stages@[m]),
            decreases stages@.len() - i,
        {
            match Self::stage_node(&stages, i) {
                Ok(node) => {
                    proof {
                        assert(nodes_hold(node, stages@[i as int]));
                    }
                    nodes.push(node);
                },
                Err(e) => {
                    proof {
                        assert(0 <= i < v.len());
                        let sv = v[i as int];
                        assert(job_missing(sv) is Some);
                        assert(job_build_error(v, e.kind, e.message@));
                    }
                    return Err(e);
                },
            }
            i = i + 1;
        }
        let graph = ExecutionGraph { stages: nodes, variables: copy_variables(&pipeline.variables) };
        proof {
            assert(graph.view_stages() =~= v);
            lemma_nodes_normalized(*pipeline, stages@, graph.stages@);
        }
        match graph.validate() {
            Ok(()) => Ok(graph),
            Err(e) => Err(e),
        }
    }
}


// ---------------------------------------------------------------------------
// Orders and levels
// ---------------------------------------------------------------------------

/// The edges `(dependency, item)` of an adjacency, item by item.
pub open spec fn adj_edges(a: Seq<Seq<usize>>) -> Seq<(usize, usize)>
    decreases a.len(),
{
    if a.len() == 0 {
        Seq::empty()
    } else {
        adj_edges(a.drop_last()) + a.last().map_values(|d: usize| (d, (a.len() - 1) as usize))
    }
}

/// `order` is what Kahn's algorithm releases for the adjacency `a`: no node
/// twice, each node after every dependency, and every node exactly when some
/// order of all nodes puts each after its dependencies.
pub open spec fn release_order(a: Seq<Seq<usize>>, order: Seq<usize>) -> bool {
    let edges = adj_edges(a);
    &&& order.no_duplicates()
    &&& all_below(order, a.len())
    &&& forall|i: int, k: int|
        0 <= i < order.len() && 0 <= k < edges.len() && edges[k].1 == order[i] ==> exists|j: int|
            0 <= j < i && order[j] == edges[k].0
    &&& (order.len() == a.len() <==> has_topological_order(a.len(), edges))
    &&& order.len() == a.len() ==> is_topological_order(order, a.len(), edges)
}

/// `ls` holds the nodes of `order` in levels: `lev[x]` is the level of node
/// `x` (negative for nodes not in `order`); a node without dependencies is
/// in level 0, any other in the level after the deepest of its
/// dependencies.
pub open spec fn layered(a: Seq<Seq<usize>>, order: Seq<usize>, ls: Seq<Seq<usize>>, lev: Seq<int>) -> bool {
    &&& lev.len() == a.len()
    &&& forall|x: usize| (x as int) < a.len() ==> (order.contains(x) <==> 0 <= #[trigger] lev[x as int])
    &&& forall|l: int| 0 <= l < ls.len() ==> (#[trigger] ls[l]).no_duplicates()
    &&& forall|l: int, x: usize|
        0 <= l < ls.len() && (x as int) < a.len() ==> (#[trigger] ls[l].contains(x) <==> (order.contains(x)
            && lev[x as int] == l))
    &&& forall|l: int, k: int| 0 <= l < ls.len() && 0 <= k < ls[l].len() ==> (#[trigger] ls[l][k] as int) < a.len()
    &&& forall|x: usize|
        (x as int) < a.len() && order.contains(x) ==> #[trigger] lev[x as int] < ls.len() && (a[x as int].len() == 0
            ==> lev[x as int] == 0) && (a[x as int].len() > 0 ==> (forall|k: int|
            0 <= k < a[x as int].len() ==> 0 <= lev[#[trigger] a[x as int][k] as int] < lev[x as int])
            && exists|k: int|
            0 <= k < a[x as int].len() && lev[#[trigger] a[x as int][k] as int] == lev[x as int] - 1)
}

proof fn lemma_adj_edge(a: Seq<Seq<usize>>, x: int, k: int)
    requires
        0 <= x < a.len(),
        0 <= k < a[x].len(),
        a.len() <= usize::MAX,
    ensures
        exists|m: int| 0 <= m < adj_edges(a).len() && adj_edges(a)[m] == (a[x][k], x as usize),
    decreases a.len(),
{
    let pre = adj_edges(a.drop_last());
    let row = a.last().map_values(|d: usize| (d, (a.len() - 1) as usize));
    assert(adj_edges(a) == pre + row);
    if x == a.len() - 1 {
        assert(adj_edges(a)[pre.len() + k] == row[k]);
    } else {
        assert(a.drop_last()[x] == a[x]);
        lemma_adj_edge(a.drop_last(), x, k);
        let m = choose|m: int| 0 <= m < pre.len() && pre[m] == (a[x][k], x as usize);
        assert(adj_edges(a)[m] == pre[m]);
    }
}

/// The nodes `0..n` in the order Kahn's algorithm releases them.
fn kahn_over(adj: &Vec<Vec<usize>>) -> (r: Vec<usize>)
    requires
        graph_ok(adj_view(adj@)),
    ensures
        release_order(adj_view(adj@), r@),
{
    let ghost a = adj_view(adj@);
    let n = adj.len();
    let mut nodes: Vec<usize> = Vec::new();
    let mut i: usize = 0;
    while i < n
        invariant
            i <= n,
            n == adj@.len(),
            nodes@.len() == i,
        decreases n - i,
    {
        nodes.push(i);
        i = i + 1;
    }
    let mut g: DependencyGraph<usize> = DependencyGraph::new(nodes);
    let mut u: usize = 0;
    while u < n
        invariant
            u <= n,
            n == adj@.len(),
            a == adj_view(adj@),
            graph_ok(a),
            g.node_count() == n,
            g.edge_seq() == adj_edges(a.subrange(0, u as int)),
            g.targets_in_range(),
        decreases n - u,
    {
        let deps = &adj[u];
        let mut k: usize = 0;
        let ghost base = g.edge_seq();
        while k < deps.len()
            invariant
                u < n,
                n == adj@.len(),
                a == adj_view(adj@),
                deps@ == a[u as int],
                k <= deps@.len(),
                g.node_count() == n,
                g.targets_in_range(),
                g.edge_seq() == base + a[u as int].subrange(0, k as int).map_values(|d: usize| (d, u)),
            decreases deps@.len() - k,
        {
            g.add_dependency(deps[k], u);
            proof {
                assert(a[u as int].subrange(0, k + 1).map_values(|d: usize| (d, u)) =~= a[u as int].subrange(
                    0,
                    k as int,
                ).map_values(|d: usize| (d, u)).push((deps@[k as int], u)));
            }
            k = k + 1;
        }
        proof {
            let pre = a.subrange(0, u + 1);
            assert(pre.drop_last() == a.subrange(0, u as int));
            assert(pre.last() == a[u as int]);
            assert(a[u as int].subrange(0, k as int) == a[u as int]);
            assert(pre.len() - 1 == u);
        }
        u = u + 1;
    }
    proof {
        assert(a.subrange(0, n as int) == a);
    }
    g.kahn_order()
}


proof fn lemma_order_deps_before(a: Seq<Seq<usize>>, order: Seq<usize>, t: int, k: int)
    requires
        release_order(a, order),
        a.len() <= usize::MAX,
        0 <= t < order.len(),
        (order[t] as int) < a.len(),
        0 <= k < a[order[t] as int].len(),
    ensures
        order.subrange(0, t).contains(a[order[t] as int][k]),
{
    let x = order[t] as int;
    lemma_adj_edge(a, x, k);
    let edges = adj_edges(a);
    let m = choose|m: int| 0 <= m < edges.len() && edges[m] == (a[x][k], x as usize);
    assert(edges[m].1 == order[t]);
    let j = choose|j: int| 0 <= j < t && order[j] == edges[m].0;
    assert(order.subrange(0, t)[j] == a[x][k]);
}

/// The levels of the nodes of `order` (see [`layered`]).
fn levels_for(adj: &Vec<Vec<usize>>, order: &Vec<usize>) -> (r: (Vec<Vec<usize>>, Ghost<Seq<int>>))
    requires
        graph_ok(adj_view(adj@)),
        release_order(adj_view(adj@), order@),
    ensures
        layered(adj_view(adj@), order@, adj_view(r.0@), r.1@),
{
    let ghost a = adj_view(adj@);
    let n = adj.len();
    let mut assigned: Vec<Option<usize>> = Vec::new();
    let mut i: usize = 0;
    while i < n
        invariant
            i <= n,
            assigned@.len() == i,
            forall|x: int| 0 <= x < i ==> (#[trigger] assigned@[x]) is None,
        decreases n - i,
    {
        assigned.push(None);
        i = i + 1;
    }
    let mut levels: Vec<Vec<usize>> = Vec::new();
    let ghost mut lev: Seq<int> = Seq::new(n as nat, |x: int| -1);
    let mut t: usize = 0;
    while t < order.len()
        invariant
            n == adj@.len(),
            a == adj_view(adj@),
            graph_ok(a),
            release_order(a, order@),
            t <= order@.len(),
            assigned@.len() == n,
            lev.len() == n,
            levels@.len() <= t,
            forall|x: usize|
                (x as int) < n ==> (order@.subrange(0, t as int).contains(x) <==> (#[trigger] assigned@[x as int])
                    is Some),
            forall|x: int| 0 <= x < n ==> ((#[trigger] assigned@[x]) matches Some(l) ==> lev[x] == l),
            layered(a, order@.subrange(0, t as int), adj_view(levels@), lev),
        decreases order@.len() - t,
    {
        let ghost p = order@.subrange(0, t as int);
        let ghost ls = adj_view(levels@);
        let x = order[t];
        assert((x as int) < n);
        assert(!p.contains(x)) by {
            if p.contains(x) {
                let j = choose|j: int| 0 <= j < t && p[j] == x;
                assert(order@[j] == order@[t as int]);
            }
        }
        let deps = &adj[x];
        let mut level: usize = 0;
        if deps.len() > 0 {
            let mut best: usize = 0;
            let mut k: usize = 0;
            while k < deps.len()
                invariant
                    n == adj@.len(),
                    a == adj_view(adj@),
                    graph_ok(a),
                    release_order(a, order@),
                    t < order@.len(),
                    x == order@[t as int],
                    (x as int) < n,
                    deps@ == a[x as int],
                    p == order@.subrange(0, t as int),
                    assigned@.len() == n,
                    lev.len() == n,
                    ls == adj_view(levels@),
                    layered(a, p, ls, lev),
                    forall|y: usize| (y as int) < n ==> (p.contains(y) <==> (#[trigger] assigned@[y as int]) is Some),
                    forall|y: int| 0 <= y < n ==> ((#[trigger] assigned@[y]) matches Some(l) ==> lev[y] == l),
                    k <= deps@.len(),
                    forall|kk: int| 0 <= kk < k ==> lev[#[trigger] deps@[kk] as int] <= best,
                    k > 0 ==> exists|kk: int| 0 <= kk < k && lev[#[trigger] deps@[kk] as int] == best,
                    (best as int) < ls.len() || k == 0,
                decreases deps@.len() - k,
            {
                let d = deps[k];
                proof {
                    lemma_order_deps_before(a, order@, t as int, k as int);
                    assert(p.contains(d));
                    assert((d as int) < n);
                }
                let ld = match assigned[d] {
                    Some(l) => l,
                    None => {
                        proof {
                            assert(false);
                        }
                        0
                    },
                };
                proof {
                    assert(lev[d as int] == ld);
                    assert(0 <= lev[d as int] < ls.len());
                }
                if k == 0 || ld > best {
                    best = ld;
                }
                k = k + 1;
            }
            level = best + 1;
        }
        proof {
            assert forall|kk: int| 0 <= kk < a[x as int].len() implies p.contains(#[trigger] a[x as int][kk]) by {
                lemma_order_deps_before(a, order@, t as int, kk);
            }
        }
        let ghost old_assigned = assigned@;
        let ghost old_lev = lev;
        assigned.set(x, Some(level));
        proof {
            lev = lev.update(x as int, level as int);
        }
        if levels.len() <= level {
            levels.push(Vec::new());
        }
        let ghost mid = adj_view(levels@);
        let mut row = levels[level].clone();
        proof {
            assert(row@ =~= levels@[level as int]@);
        }
        row.push(x);
        levels.set(level, row);
        proof {
            let p2 = order@.subrange(0, t + 1);
            assert(p2 == p.push(x));
            lemma_seq_push_contains(p, x);
            let ls2 = adj_view(levels@);
            assert forall|l: int| 0 <= l < ls2.len() implies (#[trigger] ls2[l]) == if l == level {
                mid[l].push(x)
            } else {
                mid[l]
            } by {}
            assert forall|l: int| 0 <= l < mid.len() implies (#[trigger] mid[l]) == if l < ls.len() {
                ls[l]
            } else {
                Seq::<usize>::empty()
            } by {}
            assert forall|y: usize| (y as int) < n implies (p2.contains(y) <==> (#[trigger] assigned@[y as int]) is Some) by {
                if y != x {
                    assert(assigned@[y as int] == old_assigned[y as int]);
                }
            }
            assert forall|y: int| 0 <= y < n implies ((#[trigger] assigned@[y]) matches Some(l) ==> lev[y] == l) by {
                if y != x {
                    assert(assigned@[y] == old_assigned[y]);
                }
            }
            lemma_layered_step(a, p, ls, old_lev, x, level as int, ls2);
        }
        t = t + 1;
    }
    proof {
        assert(order@.subrange(0, order@.len() as int) == order@);
    }
    (levels, Ghost(lev))
}

proof fn lemma_seq_push_contains(s: Seq<usize>, x: usize)
    ensures
        forall|w: usize| #[trigger] s.push(x).contains(w) <==> (s.contains(w) || w == x),
{
    assert forall|w: usize| #[trigger] s.push(x).contains(w) <==> (s.contains(w) || w == x) by {
        if s.contains(w) {
            let j = choose|j: int| 0 <= j < s.len() && s[j] == w;
            assert(s.push(x)[j] == w);
        }
        if w == x {
            assert(s.push(x)[s.len() as int] == w);
        }
        if s.push(x).contains(w) {
            let j = choose|j: int| 0 <= j < s.len() + 1 && s.push(x)[j] == w;
            if j < s.len() {
                assert(s[j] == w);
            }
        }
    }
}

/// Adding node `x` at level `l` keeps the levels layered.
proof fn lemma_layered_step(
    a: Seq<Seq<usize>>,
    p: Seq<usize>,
    ls: Seq<Seq<usize>>,
    lev: Seq<int>,
    x: usize,
    l: int,
    ls2: Seq<Seq<usize>>,
)
    requires
        layered(a, p, ls, lev),
        graph_ok(a),
        (x as int) < a.len(),
        !p.contains(x),
        0 <= l <= ls.len(),
        forall|kk: int| 0 <= kk < a[x as int].len() ==> p.contains(#[trigger] a[x as int][kk]),
        a[x as int].len() == 0 ==> l == 0,
        a[x as int].len() > 0 ==> (forall|kk: int|
            0 <= kk < a[x as int].len() ==> lev[#[trigger] a[x as int][kk] as int] < l) && exists|kk: int|
            0 <= kk < a[x as int].len() && lev[#[trigger] a[x as int][kk] as int] == l - 1,
        ls2.len() == if l == ls.len() {
            ls.len() + 1
        } else {
            ls.len() + 0
        },
        forall|m: int| 0 <= m < ls2.len() ==> (#[trigger] ls2[m]) == if m == l {
            (if m < ls.len() {
                ls[m]
            } else {
                Seq::<usize>::empty()
            }).push(x)
        } else {
            ls[m]
        },
        forall|m: int, k: int| 0 <= m < ls.len() && 0 <= k < ls[m].len() ==> (#[trigger] ls[m][k] as int) < a.len(),
    ensures
        layered(a, p.push(x), ls2, lev.update(x as int, l)),
{
    let p2 = p.push(x);
    let lev2 = lev.update(x as int, l);
    lemma_seq_push_contains(p, x);
    assert forall|y: usize| (y as int) < a.len() implies (p2.contains(y) <==> 0 <= #[trigger] lev2[y as int]) by {
        if y != x {
            assert(lev2[y as int] == lev[y as int]);
        }
    }
    assert forall|m: int| 0 <= m < ls2.len() implies (#[trigger] ls2[m]).no_duplicates() by {
        if m == l {
            let base = if m < ls.len() {
                ls[m]
            } else {
                Seq::<usize>::empty()
            };
            assert(!base.contains(x)) by {
                if m < ls.len() && base.contains(x) {
                    assert(ls[m].contains(x));
                }
            }
            assert forall|i: int, j: int| 0 <= i < j < base.push(x).len() implies base.push(x)[i] != base.push(x)[j] by {
                if j == base.len() {
                    assert(base[i] == base.push(x)[i]);
                }
            }
        }
    }
    assert forall|m: int, y: usize| 0 <= m < ls2.len() && (y as int) < a.len() implies (#[trigger] ls2[m].contains(
        y,
    ) <==> (p2.contains(y) && lev2[y as int] == m)) by {
        if m == l {
            let base = if m < ls.len() {
                ls[m]
            } else {
                Seq::<usize>::empty()
            };
            lemma_seq_push_contains(base, x);
            if y != x {
                assert(lev2[y as int] == lev[y as int]);
                if m < ls.len() {
                    assert(ls[m].contains(y) <==> (p.contains(y) && lev[y as int] == m));
                } else {
                    if p.contains(y) {
                        assert(lev[y as int] < ls.len());
                    }
                }
            }
        } else {
            if y != x {
                assert(lev2[y as int] == lev[y as int]);
            } else {
                assert(!ls[m].contains(x)) by {
                    if ls[m].contains(x) {
                        assert(p.contains(x));
                    }
                }
            }
        }
    }
    assert forall|m: int, k: int| 0 <= m < ls2.len() && 0 <= k < ls2[m].len() implies (#[trigger] ls2[m][k] as int)
        < a.len() by {
        if m == l {
            let base = if m < ls.len() {
                ls[m]
            } else {
                Seq::<usize>::empty()
            };
            if k < base.len() {
                assert(ls2[m][k] == base[k]);
            }
        }
    }
    assert forall|y: usize| (y as int) < a.len() && p2.contains(y) implies #[trigger] lev2[y as int] < ls2.len() && (
    a[y as int].len() == 0 ==> lev2[y as int] == 0) && (a[y as int].len() > 0 ==> (forall|k: int|
        0 <= k < a[y as int].len() ==> 0 <= lev2[#[trigger] a[y as int][k] as int] < lev2[y as int])
        && exists|k: int| 0 <= k < a[y as int].len() && lev2[#[trigger] a[y as int][k] as int] == lev2[y as int] - 1) by {
        if y == x {
            assert forall|k: int| 0 <= k < a[y as int].len() implies 0 <= lev2[#[trigger] a[y as int][k] as int] < lev2[y as int] by {
                let d = a[y as int][k];
                assert((a[y as int][k] as int) < a.len());
                assert(p.contains(d));
                assert(d != x);
                assert(lev2[d as int] == lev[d as int]);
            }
            if a[y as int].len() > 0 {
                let kk = choose|kk: int| 0 <= kk < a[x as int].len() && lev[#[trigger] a[x as int][kk] as int] == l - 1;
                let d = a[x as int][kk];
                assert((a[x as int][kk] as int) < a.len());
                assert(p.contains(d));
                assert(lev2[d as int] == lev[d as int]);
            }
        } else {
            assert(p.contains(y));
            assert(lev2[y as int] == lev[y as int]);
            assert forall|k: int| 0 <= k < a[y as int].len() implies lev2[#[trigger] a[y as int][k] as int] == lev[a[y as int][k] as int] by {
                let d = a[y as int][k];
                assert((a[y as int][k] as int) < a.len());
                if d == x {
                    assert(0 <= lev[d as int]);
                    assert(!p.contains(x));
                }
            }
            if a[y as int].len() > 0 {
                let kk = choose|kk: int| 0 <= kk < a[y as int].len() && lev[#[trigger] a[y as int][kk] as int] == lev[y as int] - 1;
                assert(lev2[a[y as int][kk] as int] == lev[a[y as int][kk] as int]);
            }
        }
    }
}


/// Each job's dependencies as job indices.
fn job_adjacency(node: &StageNode) -> (r: Vec<Vec<usize>>)
    ensures
        adj_view(r@) == job_adj(stage_view(*node)),
        graph_ok(adj_view(r@)),
        r@.len() == node.jobs@.len(),
{
    let ghost sv = stage_view(*node);
    let mut keys: Vec<Option<String>> = Vec::new();
    let mut deps: Vec<&Vec<String>> = Vec::new();
    let mut i: usize = 0;
    while i < node.jobs.len()
        invariant
            i <= node.jobs@.len(),
            sv == stage_view(*node),
            keys@.len() == i,
            deps@.len() == i,
            keys_view(keys@) == sv.job_keys.subrange(0, i as int),
            lists_view(deps@) == sv.job_deps.subrange(0, i as int),
        decreases node.jobs@.len() - i,
    {
        keys.push(job_key_string(&node.jobs[i].job));
        deps.push(&node.jobs[i].dependencies);
        proof {
            assert(keys_view(keys@) =~= sv.job_keys.subrange(0, i + 1));
            assert(lists_view(deps@) =~= sv.job_deps.subrange(0, i + 1));
        }
        i = i + 1;
    }
    proof {
        assert(sv.job_keys.subrange(0, i as int) == sv.job_keys);
        assert(sv.job_deps.subrange(0, i as int) == sv.job_deps);
    }
    let (adj, _missing) = resolve_lists(&keys, &deps);
    adj
}

impl ExecutionGraph {
    /// Each stage's dependencies as stage indices.
    fn stage_adjacency(&self) -> (r: Vec<Vec<usize>>)
        ensures
            adj_view(r@) == stage_adj(self.view_stages()),
            graph_ok(adj_view(r@)),
            r@.len() == self.stages@.len(),
    {
        let (keys, deps) = self.stage_lists();
        let (adj, _missing) = resolve_lists(&keys, &deps);
        adj
    }

    /// The stages in the order in which Kahn's algorithm releases them (see
    /// [`release_order`]): all of them, each after the stages it waits for,
    /// when no stages wait for each other in a circle.
    pub fn topological_order(&self) -> (r: Vec<&StageNode>)
        ensures
            exists|order: Seq<usize>|
                release_order(stage_adj(self.view_stages()), order) && r@.len() == order.len() && forall|k: int|
                    0 <= k < order.len() ==> *(#[trigger] r@[k]) == self.stages@[order[k] as int],
            graph_valid(self.view_stages()) ==> r@.len() == self.stages@.len(),
    {
        let adj = self.stage_adjacency();
        let order = kahn_over(&adj);
        proof {
            if graph_valid(self.view_stages()) {
                lemma_valid_graph_orders_fully(*self);
            }
        }
        let mut r: Vec<&StageNode> = Vec::new();
        let mut k: usize = 0;
        while k < order.len()
            invariant
                k <= order@.len(),
                release_order(adj_view(adj@), order@),
                adj_view(adj@).len() == self.stages@.len(),
                r@.len() == k,
                forall|m: int| 0 <= m < k ==> *(#[trigger] r@[m]) == self.stages@[order@[m] as int],
            decreases order@.len() - k,
        {
            r.push(&self.stages[order[k]]);
            k = k + 1;
        }
        r
    }

    /// The stages in levels that can run in parallel (see [`layered`]),
    /// over the order of [`ExecutionGraph::topological_order`].
    pub fn parallel_stages(&self) -> (r: Vec<Vec<&StageNode>>)
        ensures
            exists|order: Seq<usize>, ls: Seq<Seq<usize>>, lev: Seq<int>|
                release_order(stage_adj(self.view_stages()), order) && layered(
                    stage_adj(self.view_stages()),
                    order,
                    ls,
                    lev,
                ) && r@.len() == ls.len() && forall|l: int|
                    0 <= l < ls.len() ==> (#[trigger] r@[l])@.len() == ls[l].len() && forall|k: int|
                        0 <= k < ls[l].len() ==> *r@[l]@[k] == self.stages@[ls[l][k] as int],
    {
        let adj = self.stage_adjacency();
        let order = kahn_over(&adj);
        let (levels, Ghost(lev)) = levels_for(&adj, &order);
        let ghost ls = adj_view(levels@);
        let mut r: Vec<Vec<&StageNode>> = Vec::new();
        let mut l: usize = 0;
        while l < levels.len()
            invariant
                l <= levels@.len(),
                ls == adj_view(levels@),
                layered(adj_view(adj@), order@, ls, lev),
                adj_view(adj@).len() == self.stages@.len(),
                r@.len() == l,
                forall|m: int|
                    0 <= m < l ==> (#[trigger] r@[m])@.len() == ls[m].len() && forall|k: int|
                        0 <= k < ls[m].len() ==> *r@[m]@[k] == self.stages@[ls[m][k] as int],
            decreases levels@.len() - l,
        {
            let row = &levels[l];
            let mut out: Vec<&StageNode> = Vec::new();
            let mut k: usize = 0;
            while k < row.len()
                invariant
                    l < levels@.len(),
                    row@ == ls[l as int],
                    ls == adj_view(levels@),
                    layered(adj_view(adj@), order@, ls, lev),
                    adj_view(adj@).len() == self.stages@.len(),
                    k <= row@.len(),
                    out@.len() == k,
                    forall|j: int| 0 <= j < k ==> *(#[trigger] out@[j]) == self.stages@[ls[l as int][j] as int],
                decreases row@.len() - k,
            {
                assert((ls[l as int][k as int] as int) < adj_view(adj@).len());
                out.push(&self.stages[row[k]]);
                k = k + 1;
            }
            r.push(out);
            l = l + 1;
        }
        r
    }

    /// The stage last found under `name`.
    pub fn get_stage(&self, name: &str) -> (r: Option<&StageNode>)
        ensures
            match r {
                Some(n) => last_keyed(stage_keys(self.view_stages()), name@) matches Some(i) && *n
                    == self.stages@[i],
                None => last_keyed(stage_keys(self.view_stages()), name@) is None,
            },
    {
        let (keys, _deps) = self.stage_lists();
        match find_keyed(&keys, name) {
            Some(i) => {
                proof {
                    lemma_last_keyed_range(stage_keys(self.view_stages()), name@);
                }
                Some(&self.stages[i])
            },
            None => None,
        }
    }

    /// The jobs of `stage` in the order in which Kahn's algorithm releases
    /// them.
    pub fn jobs_topological_order<'a>(&self, stage: &'a StageNode) -> (r: Vec<&'a JobNode>)
        ensures
            exists|order: Seq<usize>|
                release_order(job_adj(stage_view(*stage)), order) && r@.len() == order.len() && forall|k: int|
                    0 <= k < order.len() ==> *(#[trigger] r@[k]) == stage.jobs@[order[k] as int],
    {
        let adj = job_adjacency(stage);
        let order = kahn_over(&adj);
        let mut r: Vec<&'a JobNode> = Vec::new();
        let mut k: usize = 0;
        while k < order.len()
            invariant
                k <= order@.len(),
                release_order(adj_view(adj@), order@),
                adj_view(adj@).len() == stage.jobs@.len(),
                r@.len() == k,
                forall|m: int| 0 <= m < k ==> *(#[trigger] r@[m]) == stage.jobs@[order@[m] as int],
            decreases order@.len() - k,
        {
            r.push(&stage.jobs[order[k]]);
            k = k + 1;
        }
        r
    }

    /// The jobs of `stage` in levels that can run in parallel.
    pub fn parallel_jobs<'a>(&self, stage: &'a StageNode) -> (r: Vec<Vec<&'a JobNode>>)
        ensures
            exists|order: Seq<usize>, ls: Seq<Seq<usize>>, lev: Seq<int>|
                release_order(job_adj(stage_view(*stage)), order) && layered(
                    job_adj(stage_view(*stage)),
                    order,
                    ls,
                    lev,
                ) && r@.len() == ls.len() && forall|l: int|
                    0 <= l < ls.len() ==> (#[trigger] r@[l])@.len() == ls[l].len() && forall|k: int|
                        0 <= k < ls[l].len() ==> *r@[l]@[k] == stage.jobs@[ls[l][k] as int],
    {
        let adj = job_adjacency(stage);
        let order = kahn_over(&adj);
        let (levels, Ghost(lev)) = levels_for(&adj, &order);
        let ghost ls = adj_view(levels@);
        let mut r: Vec<Vec<&'a JobNode>> = Vec::new();
        let mut l: usize = 0;
        while l < levels.len()
            invariant
                l <= levels@.len(),
                ls == adj_view(levels@),
                layered(adj_view(adj@), order@, ls, lev),
                adj_view(adj@).len() == stage.jobs@.len(),
                r@.len() == l,
                forall|m: int|
                    0 <= m < l ==> (#[trigger] r@[m])@.len() == ls[m].len() && forall|k: int|
                        0 <= k < ls[m].len() ==> *r@[m]@[k] == stage.jobs@[ls[m][k] as int],
            decreases levels@.len() - l,
        {
            let row = &levels[l];
            let mut out: Vec<&'a JobNode> = Vec::new();
            let mut k: usize = 0;
            while k < row.len()
                invariant
                    l < levels@.len(),
                    row@ == ls[l as int],
                    ls == adj_view(levels@),
                    layered(adj_view(adj@), order@, ls, lev),
                    adj_view(adj@).len() == stage.jobs@.len(),
                    k <= row@.len(),
                    out@.len() == k,
                    forall|j: int| 0 <= j < k ==> *(#[trigger] out@[j]) == stage.jobs@[ls[l as int][j] as int],
                decreases row@.len() - k,
            {
                assert((ls[l as int][k as int] as int) < adj_view(adj@).len());
                out.push(&stage.jobs[row[k]]);
                k = k + 1;
            }
            r.push(out);
            l = l + 1;
        }
        r
    }
}

impl StageNode {
    /// The job last found under `name`.
    pub fn get_job(&self, name: &str) -> (r: Option<&JobNode>)
        ensures
            match r {
                Some(j) => last_keyed(stage_view(*self).job_keys, name@) matches Some(i) && *j == self.jobs@[i],
                None => last_keyed(stage_view(*self).job_keys, name@) is None,
            },
    {
        let ghost sv = stage_view(*self);
        let mut keys: Vec<Option<String>> = Vec::new();
        let mut i: usize = 0;
        while i < self.jobs.len()
            invariant
                i <= self.jobs@.len(),
                sv == stage_view(*self),
                keys@.len() == i,
                keys_view(keys@) == sv.job_keys.subrange(0, i as int),
            decreases self.jobs@.len() - i,
        {
            keys.push(job_key_string(&self.jobs[i].job));
            proof {
                assert(keys_view(keys@) =~= sv.job_keys.subrange(0, i + 1));
            }
            i = i + 1;
        }
        proof {
            assert(sv.job_keys.subrange(0, i as int) == sv.job_keys);
        }
        match find_keyed(&keys, name) {
            Some(i) => {
                proof {
                    lemma_last_keyed_range(sv.job_keys, name@);
                }
                Some(&self.jobs[i])
            },
            None => None,
        }
    }
}


// ---------------------------------------------------------------------------
// A valid graph orders completely
// ---------------------------------------------------------------------------

/// The first occurrence of each element of `s`, in order.
pub open spec fn dedup(s: Seq<usize>) -> Seq<usize>
    decreases s.len(),
{
    if s.len() == 0 {
        Seq::empty()
    } else {
        let d = dedup(s.drop_last());
        if d.contains(s.last()) {
            d
        } else {
            d.push(s.last())
        }
    }
}

proof fn lemma_first_pos_prefix(s: Seq<usize>, x: usize, z: usize)
    requires
        s.contains(x),
    ensures
        first_pos(s.push(z), x) == first_pos(s, x),
    decreases s.len(),
{
    if s[0] != x {
        let j = choose|j: int| 0 <= j < s.len() && s[j] == x;
        assert(s.drop_first()[j - 1] == x);
        assert(s.push(z).drop_first() == s.drop_first().push(z));
        lemma_first_pos_prefix(s.drop_first(), x, z);
    }
}

proof fn lemma_dedup(s: Seq<usize>)
    ensures
        dedup(s).no_duplicates(),
        forall|x: usize| #[trigger] dedup(s).contains(x) <==> s.contains(x),
        forall|i: int, j: int|
            0 <= i < j < dedup(s).len() ==> first_pos(s, #[trigger] dedup(s)[i]) < first_pos(s, #[trigger] dedup(s)[j]),
    decreases s.len(),
{
    if s.len() > 0 {
        let t = s.drop_last();
        let z = s.last();
        lemma_dedup(t);
        let d = dedup(t);
        assert(s == t.push(z));
        lemma_seq_push_contains(t, z);
        assert forall|x: usize| t.contains(x) implies first_pos(s, x) == first_pos(t, x) by {
            lemma_first_pos_prefix(t, x, z);
        }
        if d.contains(z) {
            assert(dedup(s) == d);
            assert forall|i: int, j: int| 0 <= i < j < dedup(s).len() implies first_pos(s, #[trigger] dedup(s)[i])
                < first_pos(s, #[trigger] dedup(s)[j]) by {
                assert(d.contains(d[i]));
                assert(d.contains(d[j]));
            }
            assert(t.contains(z));
            assert forall|x: usize| #[trigger] dedup(s).contains(x) <==> s.contains(x) by {}
        }
        if !d.contains(z) {
            lemma_seq_push_contains(d, z);
            assert(!t.contains(z));
            assert forall|i: int, j: int| 0 <= i < j < dedup(s).len() implies first_pos(s, #[trigger] dedup(s)[i])
                < first_pos(s, #[trigger] dedup(s)[j]) by {
                assert(dedup(s) == d.push(z));
                assert(dedup(s)[i] == d[i]);
                assert(d.contains(d[i]));
                lemma_first_pos(t, d[i]);
                if j < d.len() {
                    assert(dedup(s)[j] == d[j]);
                    assert(d.contains(d[j]));
                } else {
                    assert(dedup(s)[j] == z);
                    lemma_first_pos(s, z);
                    if first_pos(s, z) < t.len() {
                        assert(t[first_pos(s, z)] == z);
                    }
                }
            }
            assert forall|a: int, b: int| 0 <= a < b < dedup(s).len() implies dedup(s)[a] != dedup(s)[b] by {
                if b == d.len() {
                    assert(d.contains(dedup(s)[a]));
                }
            }
        }
    }
}

/// The pairs of an adjacency's edges come from its lists.
proof fn lemma_adj_edge_source(a: Seq<Seq<usize>>, m: int)
    requires
        0 <= m < adj_edges(a).len(),
        a.len() <= usize::MAX,
    ensures
        exists|x: int, k: int|
            0 <= x < a.len() && 0 <= k < a[x].len() && adj_edges(a)[m] == (#[trigger] a[x][k], x as usize),
    decreases a.len(),
{
    let pre = adj_edges(a.drop_last());
    let row = a.last().map_values(|d: usize| (d, (a.len() - 1) as usize));
    assert(adj_edges(a) == pre + row);
    if m < pre.len() {
        assert(adj_edges(a)[m] == pre[m]);
        lemma_adj_edge_source(a.drop_last(), m);
        let (x, k) = choose|x: int, k: int|
            0 <= x < a.drop_last().len() && 0 <= k < a.drop_last()[x].len() && pre[m] == (
            #[trigger] a.drop_last()[x][k],
            x as usize,
        );
        assert(a.drop_last()[x] == a[x]);
    } else {
        let k = m - pre.len();
        assert(adj_edges(a)[m] == row[k]);
        assert(a[a.len() - 1][k] == a.last()[k]);
    }
}

/// A graph without circles has an order of all its nodes in which every
/// node comes after the nodes it depends on.
pub proof fn lemma_acyclic_orderable(a: Seq<Seq<usize>>)
    requires
        graph_ok(a),
        acyclic(a),
        a.len() <= usize::MAX,
    ensures
        has_topological_order(a.len(), adj_edges(a)),
{
    let n = a.len();
    let o = choose|o: Seq<usize>| respects_dependencies(o, a);
    let q = dedup(o);
    lemma_dedup(o);
    assert(all_below(q, n)) by {
        assert forall|i: int| 0 <= i < q.len() implies (q[i] as int) < n by {
            assert(q.contains(q[i]));
            let j = choose|j: int| 0 <= j < o.len() && o[j] == q[i];
        }
    }
    lemma_nodup_len_bound(q, n);
    if q.len() < n {
        let v = lemma_missing_node(q, n);
        assert(o.contains(v));
    }
    let edges = adj_edges(a);
    assert forall|m: int| 0 <= m < edges.len() implies (edges[m].0 as int) < n by {
        lemma_adj_edge_source(a, m);
    }
    assert forall|m: int, i: int, j: int|
        0 <= m < edges.len() && 0 <= i < q.len() && 0 <= j < q.len() && q[i] == edges[m].0 && q[j]
            == edges[m].1 implies i < j by {
        lemma_adj_edge_source(a, m);
        let (x, k) = choose|x: int, k: int|
            0 <= x < a.len() && 0 <= k < a[x].len() && edges[m] == (#[trigger] a[x][k], x as usize);
        let xx = x as usize;
        assert(o.contains(xx));
        lemma_first_pos(o, xx);
        let fx = first_pos(o, xx);
        assert(o[fx] == xx);
        assert(o.subrange(0, fx).contains(a[o[fx] as int][k]));
        let d = a[x][k];
        let jj = choose|jj: int| 0 <= jj < fx && o.subrange(0, fx)[jj] == d;
        assert(o[jj] == d);
        assert(o.contains(d));
        lemma_first_pos(o, d);
        assert(first_pos(o, d) <= jj);
        if i >= j {
            if i == j {
                assert(d == xx);
                assert(first_pos(o, d) < fx);
            } else {
                assert(first_pos(o, q[j]) < first_pos(o, q[i]));
            }
        }
    }
    assert(is_topological_order(q, n, edges));
}

/// A graph that validates orders completely: Kahn's algorithm releases
/// every stage, and in every stage every job.
pub proof fn lemma_valid_graph_orders_fully(g: ExecutionGraph)
    requires
        graph_valid(g.view_stages()),
    ensures
        has_topological_order(g.stages@.len(), adj_edges(stage_adj(g.view_stages()))),
        forall|i: int|
            0 <= i < g.stages@.len() ==> #[trigger] has_topological_order(
                g.stages@[i].jobs@.len(),
                adj_edges(job_adj(stage_view(g.stages@[i]))),
            ),
{
    let v = g.view_stages();
    assert(g.stages.len() as int == g.stages@.len());
    lemma_stage_adj_ok(v);
    lemma_acyclic_orderable(stage_adj(v));
    assert forall|i: int| 0 <= i < g.stages@.len() implies #[trigger] has_topological_order(
        g.stages@[i].jobs@.len(),
        adj_edges(job_adj(stage_view(g.stages@[i]))),
    ) by {
        let sv = stage_view(g.stages@[i]);
        assert(v[i] == sv);
        assert(acyclic(job_adj(v[i])));
        lemma_nodes_fit(g.stages@[i]);
        lemma_job_adj_ok(sv);
        assert(g.stages@[i].jobs.len() as int == g.stages@[i].jobs@.len());
        lemma_acyclic_orderable(job_adj(sv));
    }
}

proof fn lemma_stage_adj_ok(v: Seq<StageView>)
    ensures
        graph_ok(stage_adj(v)),
        stage_adj(v).len() == v.len(),
{
    let a = stage_adj(v);
    assert forall|u: int, k: int| 0 <= u < a.len() && 0 <= k < a[u].len() implies (#[trigger] a[u][k] as int) < a.len() by {
        lemma_resolve_all_bound(stage_keys(v), stage_dep_lists(v)[u]);
    }
}

proof fn lemma_job_adj_ok(s: StageView)
    requires
        s.job_keys.len() == s.job_deps.len(),
    ensures
        graph_ok(job_adj(s)),
        job_adj(s).len() == s.job_deps.len(),
{
    let a = job_adj(s);
    assert forall|u: int, k: int| 0 <= u < a.len() && 0 <= k < a[u].len() implies (#[trigger] a[u][k] as int) < a.len() by {
        lemma_resolve_all_bound(s.job_keys, s.job_deps[u]);
    }
}

/// A stage's job keys and job dependency lists are one per job.
proof fn lemma_nodes_fit(n: StageNode)
    ensures
        stage_view(n).job_keys.len() == n.jobs@.len(),
        stage_view(n).job_deps.len() == n.jobs@.len(),
{
}

} // verus!
