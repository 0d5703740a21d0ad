//! What the container runner decides around the `docker` commands it runs:
//! the container spec a job names, when an image is pulled, the arguments
//! that create job and service containers and run steps in them, and how the
//! steps of a containerised job roll up.

use vstd::prelude::*;
use std::collections::HashMap;
use std::path::PathBuf;
use std::time::Duration;
use crate::models::{ContainerRef, ContainerSpec, JobStatus, MountReadOnly, StepAction, StepStatus};
use crate::text::{char_is_whitespace, chars_of, is_whitespace, slice_chars, string_from, ws_forward};

verus! {

broadcast use vstd::string::group_string_axioms;

/// Errors that can occur with container execution.
#[derive(Debug)]
pub enum ContainerError {
    DockerNotAvailable(String),
    PullFailed(String),
    CreateFailed(String),
    StartFailed(String),
    ExecutionFailed(String),
    StopFailed(String),
    IoError(std::io::Error),
}

impl ContainerError {
    /// The text that displaying this error gives.
    pub fn to_display_string(&self) -> (r: String)
        ensures
            self matches ContainerError::DockerNotAvailable(m) ==> r@ == "Docker is not available: "@ + m@,
            self matches ContainerError::PullFailed(m) ==> r@ == "Failed to pull image: "@ + m@,
            self matches ContainerError::CreateFailed(m) ==> r@ == "Failed to create container: "@ + m@,
            self matches ContainerError::StartFailed(m) ==> r@ == "Failed to start container: "@ + m@,
            self matches ContainerError::ExecutionFailed(m) ==> r@ == "Container execution failed: "@ + m@,
            self matches ContainerError::StopFailed(m) ==> r@ == "Failed to stop container: "@ + m@,
    {
        let (prefix, m) = match self {
            ContainerError::DockerNotAvailable(m) => ("Docker is not available: ", m),
            ContainerError::PullFailed(m) => ("Failed to pull image: ", m),
            ContainerError::CreateFailed(m) => ("Failed to create container: ", m),
            ContainerError::StartFailed(m) => ("Failed to start container: ", m),
            ContainerError::ExecutionFailed(m) => ("Container execution failed: ", m),
            ContainerError::StopFailed(m) => ("Failed to stop container: ", m),
            ContainerError::IoError(e) => {
                let mut r = String::from_str("IO error: ");
                let t = crate::manifest::io_error_text(e);
                r.append(t.as_str());
                return r;
            },
        };
        let mut r = String::from_str(prefix);
        r.append(m.as_str());
        r
    }
}

/// Image pull policy.
#[derive(Debug, Clone, Copy, PartialEq, Eq, Structural)]
pub enum ImagePullPolicy {
    /// Always pull the image
    Always,
    /// Pull only if not present locally
    IfNotPresent,
    /// Never pull (must be present locally)
    Never,
}

/// Configuration for container execution.
#[derive(Debug, Clone)]
pub struct ContainerConfig {
    /// Docker socket path (default: /var/run/docker.sock on Unix)
    pub docker_socket: Option<PathBuf>,
    /// Whether to pull images before running
    pub pull_policy: ImagePullPolicy,
    /// Default timeout for container operations
    pub timeout: Duration,
    /// Whether to remove containers after execution
    pub auto_remove: bool,
}

/// `Duration::from_secs`.  Nothing is stated of the duration: durations are
/// opaque here.
#[verifier::external_body]
fn duration_from_secs(secs: u64) -> (d: Duration) {
    Duration::from_secs(secs)
}

impl Default for ContainerConfig {
    /// No explicit socket, pull when missing, an hour's timeout, remove
    /// containers afterwards.
    fn default() -> (c: Self)
        ensures
            c.docker_socket is None,
            c.pull_policy == ImagePullPolicy::IfNotPresent,
            c.auto_remove,
    {
        ContainerConfig {
            docker_socket: None,
            pull_policy: ImagePullPolicy::IfNotPresent,
            timeout: duration_from_secs(3600),
            auto_remove: true,
        }
    }
}

/// Handle to a running container.
#[derive(Debug)]
pub struct ContainerHandle {
    /// Container ID
    pub id: String,
    /// Container name
    pub name: String,
    /// Image used
    pub image: String,
}

/// Handle to service containers.
#[derive(Debug)]
pub struct ServiceHandles {
    /// Service name to container handle mapping
    pub services: HashMap<String, ContainerHandle>,
}

/// What to do about an image before a container is created from it.
#[derive(Debug, Clone, Copy, PartialEq, Eq, Structural)]
pub enum PullPlan {
    /// Use the image as it is.
    Skip,
    /// Pull the image.
    Pull,
    /// Pull the image if `docker image inspect` does not find it.
    PullIfMissing,
}

/// Two container specs agree: the same image, settings, environment,
/// ports and volumes.
pub open spec fn same_spec(a: ContainerSpec, b: ContainerSpec) -> bool {
    &&& a.image == b.image
    &&& a.endpoint == b.endpoint
    &&& a.env@ == b.env@
    &&& a.ports@ == b.ports@
    &&& a.volumes@ == b.volumes@
    &&& a.options == b.options
    &&& a.map_docker_socket == b.map_docker_socket
    &&& a.mount_read_only == b.mount_read_only
}

fn copy_strings(v: &Vec<String>) -> (r: Vec<String>)
    ensures
        r@ == v@,
{
    let mut r: Vec<String> = Vec::new();
    let mut i: usize = 0;
    while i < v.len()
        invariant
            i <= v@.len(),
            r@ == v@.subrange(0, i as int),
        decreases v@.len() - i,
    {
        r.push(v[i].clone());
        assert(v@.subrange(0, i + 1) == v@.subrange(0, i as int).push(v@[i as int]));
        i = i + 1;
    }
    assert(v@.subrange(0, v@.len() as int) == v@);
    r
}

fn copy_opt_string(s: &Option<String>) -> (r: Option<String>)
    ensures
        r == *s,
{
    match s {
        Some(x) => Some(x.clone()),
        None => None,
    }
}

fn copy_spec(spec: &ContainerSpec) -> (r: ContainerSpec)
    ensures
        same_spec(r, *spec),
{
    ContainerSpec {
        image: spec.image.clone(),
        endpoint: copy_opt_string(&spec.endpoint),
        env: spec.env.clone(),
        ports: copy_strings(&spec.ports),
        volumes: copy_strings(&spec.volumes),
        options: copy_opt_string(&spec.options),
        map_docker_socket: spec.map_docker_socket,
        mount_read_only: match &spec.mount_read_only {
            Some(m) => Some(
                MountReadOnly { work: m.work, externals: m.externals, tools: m.tools, tasks: m.tasks },
            ),
            None => None,
        },
    }
}

/// Container runner settings.
pub struct ContainerRunner {
    config: ContainerConfig,
}

impl ContainerRunner {
    pub closed spec fn configuration(&self) -> ContainerConfig {
        self.config
    }

    /// Create a new container runner with default configuration.
    pub fn new() -> (r: Self)
        ensures
            r.configuration().docker_socket is None,
            r.configuration().pull_policy == ImagePullPolicy::IfNotPresent,
            r.configuration().auto_remove,
    {
        ContainerRunner { config: ContainerConfig::default() }
    }

    /// Create a container runner with custom configuration.
    pub fn with_config(config: ContainerConfig) -> (r: Self)
        ensures
            r.configuration() == config,
    {
        ContainerRunner { config }
    }

    /// The runner's configuration.
    pub fn config(&self) -> (r: &ContainerConfig)
        ensures
            *r == self.configuration(),
    {
        &self.config
    }

    /// The container spec that a job's container reference names: a bare
    /// image becomes a spec with nothing else set.
    pub fn parse_container_ref(&self, container: &ContainerRef) -> (r: Result<ContainerSpec, ContainerError>)
        ensures
            r is Ok,
            match *container {
                ContainerRef::Image(image) => r matches Ok(s) && s.image == image && s.endpoint
                    is None && s.env@ == Map::<String, String>::empty() && s.ports@.len() == 0
                    && s.volumes@.len() == 0 && s.options is None && s.map_docker_socket is None
                    && s.mount_read_only is None,
                ContainerRef::Spec(spec) => r matches Ok(s) && same_spec(s, spec),
            },
    {
        match container {
            ContainerRef::Image(image) => Ok(
                ContainerSpec {
                    image: image.clone(),
                    endpoint: None,
                    env: HashMap::new(),
                    ports: Vec::new(),
                    volumes: Vec::new(),
                    options: None,
                    map_docker_socket: None,
                    mount_read_only: None,
                },
            ),
            ContainerRef::Spec(spec) => Ok(copy_spec(spec)),
        }
    }

    /// What to do about an image under the runner's pull policy.
    pub fn pull_plan(&self) -> (p: PullPlan)
        ensures
            p == match self.configuration().pull_policy {
                ImagePullPolicy::Never => PullPlan::Skip,
                ImagePullPolicy::Always => PullPlan::Pull,
                ImagePullPolicy::IfNotPresent => PullPlan::PullIfMissing,
            },
    {
        match self.config.pull_policy {
            ImagePullPolicy::Never => PullPlan::Skip,
            ImagePullPolicy::Always => PullPlan::Pull,
            ImagePullPolicy::IfNotPresent => PullPlan::PullIfMissing,
        }
    }
}

// ---------------------------------------------------------------------------
// docker command lines
// ---------------------------------------------------------------------------

/// Index one past the run of non-whitespace characters that starts at `i`.
pub open spec fn word_end(s: Seq<char>, i: int) -> int
    decreases s.len() - i,
{
    if 0 <= i < s.len() && !char_is_whitespace(s[i]) {
        word_end(s, i + 1)
    } else {
        i
    }
}

/// The whitespace-separated words of `s` from index `i` on, as
/// `str::split_whitespace` yields them.
pub open spec fn words_from(s: Seq<char>, i: int) -> Seq<Seq<char>>
    decreases s.len() - i,
{
    let a = ws_forward(s, i);
    if a < i || a >= s.len() {
        Seq::empty()
    } else {
        let b = word_end(s, a);
        if b <= a || b > s.len() {
            Seq::empty()
        } else {
            seq![s.subrange(a, b)] + words_from(s, b)
        }
    }
}

proof fn lemma_ws_forward_bounds(s: Seq<char>, i: int)
    requires
        0 <= i <= s.len(),
    ensures
        i <= ws_forward(s, i) <= s.len(),
    decreases s.len() - i,
{
    if i < s.len() && char_is_whitespace(s[i]) {
        lemma_ws_forward_bounds(s, i + 1);
    }
}

proof fn lemma_word_end_bounds(s: Seq<char>, i: int)
    requires
        0 <= i <= s.len(),
    ensures
        i <= word_end(s, i) <= s.len(),
    decreases s.len() - i,
{
    if i < s.len() && !char_is_whitespace(s[i]) {
        lemma_word_end_bounds(s, i + 1);
    }
}

/// `str::split_whitespace`, as owned strings.
pub fn split_whitespace_str(s: &str) -> (r: Vec<String>)
    ensures
        r@.map_values(|w: String| w@) == words_from(s@, 0),
{
    let v = chars_of(s);
    let mut out: Vec<String> = Vec::new();
    let mut pos: usize = 0;
    assert(Seq::<Seq<char>>::empty() + words_from(v@, 0) == words_from(v@, 0));
    loop
        invariant
            v@ == s@,
            pos <= v@.len(),
            words_from(v@, 0) == out@.map_values(|w: String| w@) + words_from(v@, pos as int),
        decreases v@.len() - pos,
    {
        let ghost before = out@.map_values(|w: String| w@);
        let mut a = pos;
        while a < v.len() && is_whitespace(v[a])
            invariant
                pos <= a <= v@.len(),
                ws_forward(v@, pos as int) == ws_forward(v@, a as int),
            decreases v@.len() - a,
        {
            a = a + 1;
        }
        proof {
            lemma_ws_forward_bounds(v@, a as int);
        }
        if a >= v.len() {
            assert(words_from(v@, pos as int) == Seq::<Seq<char>>::empty());
            assert(before + Seq::<Seq<char>>::empty() == before);
            return out;
        }
        let mut b = a;
        while b < v.len() && !is_whitespace(v[b])
            invariant
                a <= b <= v@.len(),
                word_end(v@, a as int) == word_end(v@, b as int),
            decreases v@.len() - b,
        {
            b = b + 1;
        }
        proof {
            lemma_word_end_bounds(v@, b as int);
        }
        let w = string_from(slice_chars(v.as_slice(), a, b).as_slice());
        out.push(w);
        proof {
            assert(out@.map_values(|w: String| w@) == before.push(w@));
            assert(before + (seq![w@] + words_from(v@, b as int)) == before.push(w@) + words_from(
                v@,
                b as int,
            ));
        }
        pos = b;
    }
}

/// `-e key=value` for each pair, in order.
pub open spec fn env_flags(pairs: Seq<(Seq<char>, Seq<char>)>) -> Seq<Seq<char>>
    decreases pairs.len(),
{
    if pairs.len() == 0 {
        Seq::empty()
    } else {
        env_flags(pairs.drop_last()) + seq!["-e"@, pairs.last().0 + seq!['='] + pairs.last().1]
    }
}

/// `flag item` for each item, in order.
pub open spec fn flag_each(flag: Seq<char>, items: Seq<Seq<char>>) -> Seq<Seq<char>>
    decreases items.len(),
{
    if items.len() == 0 {
        Seq::empty()
    } else {
        flag_each(flag, items.drop_last()) + seq![flag, items.last()]
    }
}

proof fn lemma_flag_each(flag: Seq<char>, items: Seq<Seq<char>>)
    ensures
        flag_each(flag, items).len() == 2 * items.len(),
        forall|i: int| 0 <= i < items.len() ==> #[trigger] flag_each(flag, items)[2 * i] == flag,
        forall|i: int| 0 <= i < items.len() ==> #[trigger] flag_each(flag, items)[2 * i + 1] == items[i],
    decreases items.len(),
{
    if items.len() > 0 {
        let rest = items.drop_last();
        lemma_flag_each(flag, rest);
        let r = flag_each(flag, items);
        assert(r == flag_each(flag, rest) + seq![flag, items.last()]);
        assert forall|i: int| 0 <= i < items.len() implies r[2 * i] == flag && r[2 * i + 1] == items[i] by {
            if i == rest.len() {
                assert(r[2 * i] == flag);
                assert(r[2 * i + 1] == items.last());
            } else {
                assert(r[2 * i] == flag_each(flag, rest)[2 * i]);
                assert(r[2 * i + 1] == flag_each(flag, rest)[2 * i + 1]);
                assert(rest[i] == items[i]);
            }
        }
        assert forall|i: int| 0 <= i < items.len() implies #[trigger] r[2 * i] == flag by {
            assert(r[2 * i] == flag && r[2 * i + 1] == items[i]);
        }
        assert forall|i: int| 0 <= i < items.len() implies #[trigger] r[2 * i + 1] == items[i] by {
            assert(r[2 * i] == flag && r[2 * i + 1] == items[i]);
        }
    }
}

proof fn lemma_env_flags(pairs: Seq<(Seq<char>, Seq<char>)>)
    ensures
        env_flags(pairs).len() == 2 * pairs.len(),
        forall|i: int| 0 <= i < pairs.len() ==> #[trigger] env_flags(pairs)[2 * i] == "-e"@,
        forall|i: int|
            0 <= i < pairs.len() ==> #[trigger] env_flags(pairs)[2 * i + 1] == pairs[i].0 + seq!['='] + pairs[i].1,
    decreases pairs.len(),
{
    if pairs.len() > 0 {
        let rest = pairs.drop_last();
        lemma_env_flags(rest);
        let r = env_flags(pairs);
        assert(r == env_flags(rest) + seq!["-e"@, pairs.last().0 + seq!['='] + pairs.last().1]);
        assert forall|i: int| 0 <= i < pairs.len() implies r[2 * i] == "-e"@ && r[2 * i + 1] == pairs[i].0
            + seq!['='] + pairs[i].1 by {
            if i < rest.len() {
                assert(r[2 * i] == env_flags(rest)[2 * i]);
                assert(r[2 * i + 1] == env_flags(rest)[2 * i + 1]);
                assert(rest[i] == pairs[i]);
            }
        }
        assert forall|i: int| 0 <= i < pairs.len() implies #[trigger] r[2 * i] == "-e"@ by {
            assert(r[2 * i] == "-e"@ && r[2 * i + 1] == pairs[i].0 + seq!['='] + pairs[i].1);
        }
        assert forall|i: int| 0 <= i < pairs.len() implies #[trigger] r[2 * i + 1] == pairs[i].0 + seq!['='] + pairs[i].1 by {
            assert(r[2 * i] == "-e"@ && r[2 * i + 1] == pairs[i].0 + seq!['='] + pairs[i].1);
        }
    }
}

/// The pairs of a list of string pairs, as character sequences.
pub open spec fn pair_views(pairs: Seq<(String, String)>) -> Seq<(Seq<char>, Seq<char>)> {
    pairs.map_values(|p: (String, String)| (p.0@, p.1@))
}

/// The strings of a list, as character sequences.
pub open spec fn string_views(v: Seq<String>) -> Seq<Seq<char>> {
    v.map_values(|s: String| s@)
}

fn push_env_flags(args: &mut Vec<String>, pairs: &Vec<(String, String)>)
    ensures
        string_views(final(args)@) == string_views(old(args)@) + env_flags(pair_views(pairs@)),
{
    let ghost start = string_views(args@);
    let mut i: usize = 0;
    assert(pair_views(pairs@).subrange(0, 0) =~= Seq::<(Seq<char>, Seq<char>)>::empty());
    assert(start + Seq::<Seq<char>>::empty() == start);
    while i < pairs.len()
        invariant
            i <= pairs@.len(),
            string_views(args@) == start + env_flags(pair_views(pairs@).subrange(0, i as int)),
        decreases pairs@.len() - i,
    {
        let ghost before = string_views(args@);
        args.push(String::from_str("-e"));
        let mut kv = pairs[i].0.clone();
        kv.push('=');
        kv.append(pairs[i].1.as_str());
        args.push(kv);
        proof {
            let pre = pair_views(pairs@).subrange(0, i + 1);
            assert(pre.drop_last() == pair_views(pairs@).subrange(0, i as int));
            assert(pre.last() == (pairs@[i as int].0@, pairs@[i as int].1@));
            assert(kv@ =~= pairs@[i as int].0@ + seq!['='] + pairs@[i as int].1@);
            assert(string_views(args@) =~= before.push("-e"@).push(kv@));
            assert(before.push("-e"@).push(kv@) =~= before + seq!["-e"@, kv@]);
            let done = env_flags(pair_views(pairs@).subrange(0, i as int));
            assert(before == start + done);
            assert(env_flags(pre) == done + seq!["-e"@, kv@]);
            assert((start + done) + seq!["-e"@, kv@] =~= start + (done + seq!["-e"@, kv@]));
        }
        i = i + 1;
    }
    assert(pair_views(pairs@).subrange(0, pairs@.len() as int) == pair_views(pairs@));
}

fn push_flag_each(args: &mut Vec<String>, flag: &str, items: &Vec<String>)
    ensures
        string_views(final(args)@) == string_views(old(args)@) + flag_each(flag@, string_views(items@)),
{
    let ghost start = string_views(args@);
    let mut i: usize = 0;
    assert(string_views(items@).subrange(0, 0) =~= Seq::<Seq<char>>::empty());
    assert(start + Seq::<Seq<char>>::empty() == start);
    while i < items.len()
        invariant
            i <= items@.len(),
            string_views(args@) == start + flag_each(flag@, string_views(items@).subrange(0, i as int)),
        decreases items@.len() - i,
    {
        let ghost before = string_views(args@);
        args.push(String::from_str(flag));
        args.push(items[i].clone());
        proof {
            let pre = string_views(items@).subrange(0, i + 1);
            assert(pre.drop_last() == string_views(items@).subrange(0, i as int));
            assert(pre.last() == items@[i as int]@);
            assert(string_views(args@) =~= before.push(flag@).push(items@[i as int]@));
            assert(before.push(flag@).push(items@[i as int]@) =~= before + seq![flag@, items@[i as int]@]);
            let done = flag_each(flag@, string_views(items@).subrange(0, i as int));
            assert((start + done) + seq![flag@, items@[i as int]@] =~= start + (done + seq![flag@, items@[i as int]@]));
        }
        i = i + 1;
    }
    assert(string_views(items@).subrange(0, items@.len() as int) == string_views(items@));
}

/// The name of a job container: `roxid-<job>-<id>`.
pub open spec fn job_container_name(job: Seq<char>, id: Seq<char>) -> Seq<char> {
    "roxid-"@ + job + seq!['-'] + id
}

/// The name of a service container: `roxid-svc-<service>-<id>`.
pub open spec fn service_container_name(service: Seq<char>, id: Seq<char>) -> Seq<char> {
    "roxid-svc-"@ + service + seq!['-'] + id
}

pub fn container_name(job: &str, id: &str) -> (r: String)
    ensures
        r@ == job_container_name(job@, id@),
{
    let mut r = String::from_str("roxid-");
    r.append(job);
    r.push('-');
    r.append(id);
    r
}

pub fn service_name(service: &str, id: &str) -> (r: String)
    ensures
        r@ == service_container_name(service@, id@),
{
    let mut r = String::from_str("roxid-svc-");
    r.append(service);
    r.push('-');
    r.append(id);
    r
}

/// The arguments of `docker create` for a job container: named, working in
/// `/workspace` with the work directory mounted there, the run's environment
/// then the spec's, the spec's volumes and ports, the Docker socket if asked
/// for, the extra options word by word, and the image kept alive with
/// `tail -f /dev/null`.
pub open spec fn create_args_text(
    name: Seq<char>,
    workdir: Seq<char>,
    env: Seq<(Seq<char>, Seq<char>)>,
    spec_env: Seq<(Seq<char>, Seq<char>)>,
    spec: ContainerSpec,
) -> Seq<Seq<char>> {
    seq!["create"@, "--name"@, name, "-w"@, "/workspace"@, "-v"@, workdir + ":/workspace"@]
        + env_flags(env) + env_flags(spec_env) + flag_each("-v"@, string_views(spec.volumes@))
        + flag_each("-p"@, string_views(spec.ports@)) + (if spec.map_docker_socket == Some(true) {
        seq!["-v"@, "/var/run/docker.sock:/var/run/docker.sock"@]
    } else {
        Seq::empty()
    }) + (match spec.options {
        Some(o) => words_from(o@, 0),
        None => Seq::empty(),
    }) + seq![spec.image@, "tail"@, "-f"@, "/dev/null"@]
}

/// Where everything lands in a job container's `docker create` arguments:
/// the name, `-w /workspace` and the work directory mounted there first,
/// then `-e NAME=value` for each variable of the run and then of the spec,
/// `-v <volume>` for each volume, `-p <port>` for each port, then (after
/// the Docker socket and the extra options) the image kept alive with
/// `tail -f /dev/null` last.
pub proof fn lemma_create_args_layout(
    name: Seq<char>,
    workdir: Seq<char>,
    env: Seq<(Seq<char>, Seq<char>)>,
    spec_env: Seq<(Seq<char>, Seq<char>)>,
    spec: ContainerSpec,
)
    ensures
        ({
            let a = create_args_text(name, workdir, env, spec_env, spec);
            let ports = string_views(spec.ports@);
            let volumes = string_views(spec.volumes@);
            let pe = 7 + 2 * env.len();
            let pv = pe + 2 * spec_env.len();
            let pp = pv + 2 * volumes.len();
            &&& a.len() >= pp + 2 * ports.len() + 4
            &&& a[0] == "create"@ && a[1] == "--name"@ && a[2] == name && a[3] == "-w"@ && a[4] == "/workspace"@
            &&& a[5] == "-v"@ && a[6] == workdir + ":/workspace"@
            &&& forall|i: int| 0 <= i < env.len() ==> a[7 + 2 * i] == "-e"@ && #[trigger] a[7 + 2 * i + 1]
                == env[i].0 + seq!['='] + env[i].1
            &&& forall|i: int| 0 <= i < spec_env.len() ==> a[pe + 2 * i] == "-e"@ && #[trigger] a[pe + 2 * i + 1]
                == spec_env[i].0 + seq!['='] + spec_env[i].1
            &&& forall|i: int| 0 <= i < volumes.len() ==> a[pv + 2 * i] == "-v"@ && #[trigger] a[pv + 2 * i + 1]
                == volumes[i]
            &&& forall|i: int| 0 <= i < ports.len() ==> a[pp + 2 * i] == "-p"@ && #[trigger] a[pp + 2 * i + 1]
                == ports[i]
            &&& a[a.len() - 4] == spec.image@ && a[a.len() - 3] == "tail"@ && a[a.len() - 2] == "-f"@
                && a[a.len() - 1] == "/dev/null"@
        }),
{
    let ports = string_views(spec.ports@);
    let volumes = string_views(spec.volumes@);
    lemma_env_flags(env);
    lemma_env_flags(spec_env);
    lemma_flag_each("-p"@, ports);
    lemma_flag_each("-v"@, volumes);
    let h = seq!["create"@, "--name"@, name, "-w"@, "/workspace"@, "-v"@, workdir + ":/workspace"@];
    let x1 = env_flags(env);
    let x2 = env_flags(spec_env);
    let x3 = flag_each("-v"@, volumes);
    let x4 = flag_each("-p"@, ports);
    let sock = if spec.map_docker_socket == Some(true) {
        seq!["-v"@, "/var/run/docker.sock:/var/run/docker.sock"@]
    } else {
        Seq::empty()
    };
    let opts = match spec.options {
        Some(o) => words_from(o@, 0),
        None => Seq::empty(),
    };
    let tail = seq![spec.image@, "tail"@, "-f"@, "/dev/null"@];
    let a = create_args_text(name, workdir, env, spec_env, spec);
    let front = h + x1 + x2 + x3 + x4;
    assert(a == front + sock + opts + tail);
    let pe = 7 + 2 * env.len();
    let pv = pe + 2 * spec_env.len();
    let pp = pv + 2 * volumes.len();
    assert forall|k: int| 0 <= k < front.len() implies a[k] == #[trigger] front[k] by {}
    assert(a[0] == front[0] && a[1] == front[1] && a[2] == front[2] && a[3] == front[3]);
    assert(a[4] == front[4] && a[5] == front[5] && a[6] == front[6]);
    assert forall|i: int| 0 <= i < env.len() implies a[7 + 2 * i] == "-e"@ && #[trigger] a[7 + 2 * i + 1] == env[i].0
        + seq!['='] + env[i].1 by {
        assert(front[7 + 2 * i] == x1[2 * i]);
        assert(front[7 + 2 * i + 1] == x1[2 * i + 1]);
    }
    assert forall|i: int| 0 <= i < spec_env.len() implies a[pe + 2 * i] == "-e"@ && #[trigger] a[pe + 2 * i + 1]
        == spec_env[i].0 + seq!['='] + spec_env[i].1 by {
        assert(front[pe + 2 * i] == x2[2 * i]);
        assert(front[pe + 2 * i + 1] == x2[2 * i + 1]);
    }
    assert forall|i: int| 0 <= i < volumes.len() implies a[pv + 2 * i] == "-v"@ && #[trigger] a[pv + 2 * i + 1]
        == volumes[i] by {
        assert(front[pv + 2 * i] == x3[2 * i]);
        assert(front[pv + 2 * i + 1] == x3[2 * i + 1]);
    }
    assert forall|i: int| 0 <= i < ports.len() implies a[pp + 2 * i] == "-p"@ && #[trigger] a[pp + 2 * i + 1]
        == ports[i] by {
        assert(front[pp + 2 * i] == x4[2 * i]);
        assert(front[pp + 2 * i + 1] == x4[2 * i + 1]);
    }
    let n = a.len();
    assert(a[n - 4] == tail[0] && a[n - 3] == tail[1] && a[n - 2] == tail[2] && a[n - 1] == tail[3]);
}

fn push_text(args: &mut Vec<String>, s: &str)
    ensures
        string_views(final(args)@) == string_views(old(args)@).push(s@),
{
    args.push(String::from_str(s));
    assert(string_views(args@) =~= string_views(old(args)@).push(s@));
}

fn push_all(args: &mut Vec<String>, more: Vec<String>)
    ensures
        string_views(final(args)@) == string_views(old(args)@) + string_views(more@),
{
    let ghost start = string_views(args@);
    let mut i: usize = 0;
    assert(string_views(more@).subrange(0, 0) =~= Seq::<Seq<char>>::empty());
    assert(start + Seq::<Seq<char>>::empty() == start);
    while i < more.len()
        invariant
            i <= more@.len(),
            string_views(args@) == start + string_views(more@).subrange(0, i as int),
        decreases more@.len() - i,
    {
        let ghost before = string_views(args@);
        args.push(more[i].clone());
        proof {
            assert(string_views(args@) =~= before.push(more@[i as int]@));
            assert(string_views(more@).subrange(0, i + 1) == string_views(more@).subrange(0, i as int).push(
                more@[i as int]@,
            ));
            assert(string_views(args@) =~= start + string_views(more@).subrange(0, i + 1));
        }
        i = i + 1;
    }
    assert(string_views(more@).subrange(0, more@.len() as int) == string_views(more@));
}

/// The `docker create` arguments for a job container (see
/// [`create_args_text`]); the environments come as `(key, value)` pairs.
pub fn create_container_args(
    name: &str,
    workdir: &str,
    env: &Vec<(String, String)>,
    spec_env: &Vec<(String, String)>,
    spec: &ContainerSpec,
) -> (r: Vec<String>)
    ensures
        string_views(r@) == create_args_text(name@, workdir@, pair_views(env@), pair_views(spec_env@), *spec),
{
    let mut args: Vec<String> = Vec::new();
    assert(string_views(args@) =~= Seq::<Seq<char>>::empty());
    push_text(&mut args, "create");
    push_text(&mut args, "--name");
    push_text(&mut args, name);
    push_text(&mut args, "-w");
    push_text(&mut args, "/workspace");
    push_text(&mut args, "-v");
    let mut mount = String::from_str(workdir);
    mount.append(":/workspace");
    push_text(&mut args, mount.as_str());
    let ghost head = string_views(args@);
    assert(head =~= seq!["create"@, "--name"@, name@, "-w"@, "/workspace"@, "-v"@, workdir@ + ":/workspace"@]);
    push_env_flags(&mut args, env);
    push_env_flags(&mut args, spec_env);
    push_flag_each(&mut args, "-v", &spec.volumes);
    push_flag_each(&mut args, "-p", &spec.ports);
    let ghost before_socket = string_views(args@);
    if spec.map_docker_socket == Some(true) {
        push_text(&mut args, "-v");
        push_text(&mut args, "/var/run/docker.sock:/var/run/docker.sock");
        assert(string_views(args@) =~= before_socket + seq!["-v"@, "/var/run/docker.sock:/var/run/docker.sock"@]);
    } else {
        assert(string_views(args@) =~= before_socket + Seq::<Seq<char>>::empty());
    }
    let ghost before_options = string_views(args@);
    match &spec.options {
        Some(o) => {
            let ws = split_whitespace_str(o.as_str());
            push_all(&mut args, ws);
        },
        None => {
            assert(string_views(args@) =~= before_options + Seq::<Seq<char>>::empty());
        },
    }
    let ghost before_image = string_views(args@);
    push_text(&mut args, spec.image.as_str());
    push_text(&mut args, "tail");
    push_text(&mut args, "-f");
    push_text(&mut args, "/dev/null");
    assert(string_views(args@) =~= before_image + seq![spec.image@, "tail"@, "-f"@, "/dev/null"@]);
    args
}

/// The arguments of `docker run` for a service container: detached, named,
/// the run's environment then the spec's, the spec's ports and volumes, and
/// the image.
pub open spec fn service_args_text(
    name: Seq<char>,
    env: Seq<(Seq<char>, Seq<char>)>,
    spec_env: Seq<(Seq<char>, Seq<char>)>,
    spec: ContainerSpec,
) -> Seq<Seq<char>> {
    seq!["run"@, "-d"@, "--name"@, name] + env_flags(env) + env_flags(spec_env) + flag_each(
        "-p"@,
        string_views(spec.ports@),
    ) + flag_each("-v"@, string_views(spec.volumes@)) + seq![spec.image@]
}

/// Where everything lands in a service container's `docker run` arguments:
/// `run -d --name <name>`, then `-e NAME=value` for each variable of the run
/// and then of the spec, `-p <port>` for each port, `-v <volume>` for each
/// volume, and the image last; nothing else.
pub proof fn lemma_service_args_layout(
    name: Seq<char>,
    env: Seq<(Seq<char>, Seq<char>)>,
    spec_env: Seq<(Seq<char>, Seq<char>)>,
    spec: ContainerSpec,
)
    ensures
        ({
            let a = service_args_text(name, env, spec_env, spec);
            let ports = string_views(spec.ports@);
            let volumes = string_views(spec.volumes@);
            let pe = 4 + 2 * env.len();
            let pp = pe + 2 * spec_env.len();
            let pv = pp + 2 * ports.len();
            &&& a.len() == pv + 2 * volumes.len() + 1
            &&& a[0] == "run"@ && a[1] == "-d"@ && a[2] == "--name"@ && a[3] == name
            &&& forall|i: int| 0 <= i < env.len() ==> a[4 + 2 * i] == "-e"@ && #[trigger] a[4 + 2 * i + 1]
                == env[i].0 + seq!['='] + env[i].1
            &&& forall|i: int| 0 <= i < spec_env.len() ==> a[pe + 2 * i] == "-e"@ && #[trigger] a[pe + 2 * i + 1]
                == spec_env[i].0 + seq!['='] + spec_env[i].1
            &&& forall|i: int| 0 <= i < ports.len() ==> a[pp + 2 * i] == "-p"@ && #[trigger] a[pp + 2 * i + 1]
                == ports[i]
            &&& forall|i: int| 0 <= i < volumes.len() ==> a[pv + 2 * i] == "-v"@ && #[trigger] a[pv + 2 * i + 1]
                == volumes[i]
            &&& a[a.len() - 1] == spec.image@
        }),
{
    let ports = string_views(spec.ports@);
    let volumes = string_views(spec.volumes@);
    lemma_env_flags(env);
    lemma_env_flags(spec_env);
    lemma_flag_each("-p"@, ports);
    lemma_flag_each("-v"@, volumes);
    let h = seq!["run"@, "-d"@, "--name"@, name];
    let x1 = env_flags(env);
    let x2 = env_flags(spec_env);
    let x3 = flag_each("-p"@, ports);
    let x4 = flag_each("-v"@, volumes);
    let a = service_args_text(name, env, spec_env, spec);
    assert(a == h + x1 + x2 + x3 + x4 + seq![spec.image@]);
    let pe = 4 + 2 * env.len();
    let pp = pe + 2 * spec_env.len();
    let pv = pp + 2 * ports.len();
    assert forall|i: int| 0 <= i < env.len() implies a[4 + 2 * i] == "-e"@ && #[trigger] a[4 + 2 * i + 1] == env[i].0
        + seq!['='] + env[i].1 by {
        assert(a[4 + 2 * i] == x1[2 * i]);
        assert(a[4 + 2 * i + 1] == x1[2 * i + 1]);
    }
    assert forall|i: int| 0 <= i < spec_env.len() implies a[pe + 2 * i] == "-e"@ && #[trigger] a[pe + 2 * i + 1]
        == spec_env[i].0 + seq!['='] + spec_env[i].1 by {
        assert(a[pe + 2 * i] == x2[2 * i]);
        assert(a[pe + 2 * i + 1] == x2[2 * i + 1]);
    }
    assert forall|i: int| 0 <= i < ports.len() implies a[pp + 2 * i] == "-p"@ && #[trigger] a[pp + 2 * i + 1]
        == ports[i] by {
        assert(a[pp + 2 * i] == x3[2 * i]);
        assert(a[pp + 2 * i + 1] == x3[2 * i + 1]);
    }
    assert forall|i: int| 0 <= i < volumes.len() implies a[pv + 2 * i] == "-v"@ && #[trigger] a[pv + 2 * i + 1]
        == volumes[i] by {
        assert(a[pv + 2 * i] == x4[2 * i]);
        assert(a[pv + 2 * i + 1] == x4[2 * i + 1]);
    }
}

pub fn service_container_args(
    name: &str,
    env: &Vec<(String, String)>,
    spec_env: &Vec<(String, String)>,
    spec: &ContainerSpec,
) -> (r: Vec<String>)
    ensures
        string_views(r@) == service_args_text(name@, pair_views(env@), pair_views(spec_env@), *spec),
{
    let mut args: Vec<String> = Vec::new();
    assert(string_views(args@) =~= Seq::<Seq<char>>::empty());
    push_text(&mut args, "run");
    push_text(&mut args, "-d");
    push_text(&mut args, "--name");
    push_text(&mut args, name);
    push_env_flags(&mut args, env);
    push_env_flags(&mut args, spec_env);
    push_flag_each(&mut args, "-p", &spec.ports);
    push_flag_each(&mut args, "-v", &spec.volumes);
    let ghost before_image = string_views(args@);
    push_text(&mut args, spec.image.as_str());
    args
}

/// The script a step runs inside a container: only script, bash, pwsh and
/// powershell steps run there.
pub open spec fn container_script_of(action: StepAction) -> Option<String> {
    match action {
        StepAction::Script(s) => Some(s.script),
        StepAction::Bash(s) => Some(s.bash),
        StepAction::Pwsh(s) => Some(s.pwsh),
        StepAction::PowerShell(s) => Some(s.powershell),
        _ => None,
    }
}

pub fn container_script(action: &StepAction) -> (r: Option<&String>)
    ensures
        match container_script_of(*action) {
            Some(s) => r matches Some(x) && *x == s,
            None => r is None,
        },
{
    match action {
        StepAction::Script(s) => Some(&s.script),
        StepAction::Bash(s) => Some(&s.bash),
        StepAction::Pwsh(s) => Some(&s.pwsh),
        StepAction::PowerShell(s) => Some(&s.powershell),
        _ => None,
    }
}

/// The arguments of `docker exec` that run a script in a container, in
/// `/workspace` under `sh -c`.
pub fn exec_args(container: &str, script: &str) -> (r: Vec<String>)
    ensures
        string_views(r@) == seq!["exec"@, "-w"@, "/workspace"@, container@, "sh"@, "-c"@, script@],
{
    let mut args: Vec<String> = Vec::new();
    assert(string_views(args@) =~= Seq::<Seq<char>>::empty());
    push_text(&mut args, "exec");
    push_text(&mut args, "-w");
    push_text(&mut args, "/workspace");
    push_text(&mut args, container);
    push_text(&mut args, "sh");
    push_text(&mut args, "-c");
    push_text(&mut args, script);
    assert(string_views(args@) =~= seq!["exec"@, "-w"@, "/workspace"@, container@, "sh"@, "-c"@, script@]);
    args
}

/// A containerised job's status after one of its steps finished, and whether
/// its remaining steps still run (a failure stops them unless the job
/// continues on error).
pub open spec fn container_job_after_step(
    job: JobStatus,
    step: StepStatus,
    continue_on_error: bool,
) -> (JobStatus, bool) {
    let next = if step == StepStatus::Failed {
        JobStatus::Failed
    } else if step == StepStatus::SucceededWithIssues && job == JobStatus::Succeeded {
        JobStatus::SucceededWithIssues
    } else {
        job
    };
    (next, !(next == JobStatus::Failed && !continue_on_error))
}

/// A containerised job fails exactly when it had failed or the step failed;
/// its steps stop exactly when it failed and does not continue on error;
/// a clean step leaves it as it was, and a step with issues marks a clean
/// job.
pub proof fn lemma_container_job_after_step(job: JobStatus, step: StepStatus, continue_on_error: bool)
    ensures
        (container_job_after_step(job, step, continue_on_error).0 == JobStatus::Failed) <==> (job
            == JobStatus::Failed || step == StepStatus::Failed),
        !container_job_after_step(job, step, continue_on_error).1 <==> ((job == JobStatus::Failed || step
            == StepStatus::Failed) && !continue_on_error),
        step == StepStatus::Succeeded ==> container_job_after_step(job, step, continue_on_error).0 == job,
        step == StepStatus::SucceededWithIssues && job == JobStatus::Succeeded ==> container_job_after_step(
            job,
            step,
            continue_on_error,
        ).0 == JobStatus::SucceededWithIssues,
{
}

pub fn fold_container_step(job: JobStatus, step: StepStatus, continue_on_error: bool) -> (r: (
    JobStatus,
    bool,
))
    ensures
        r == container_job_after_step(job, step, continue_on_error),
{
    let next = if step == StepStatus::Failed {
        JobStatus::Failed
    } else if step == StepStatus::SucceededWithIssues && job == JobStatus::Succeeded {
        JobStatus::SucceededWithIssues
    } else {
        job
    };
    (next, !(next == JobStatus::Failed && !continue_on_error))
}

} // verus!
