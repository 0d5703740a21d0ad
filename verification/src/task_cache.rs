//! The task cache's own logic: task references, the cache configuration and
//! the stub manifests of the built-in tasks that need no download.

use vstd::prelude::*;
use std::collections::HashMap;
use std::path::PathBuf;
use std::sync::Arc;
use crate::manifest::{
    io_error_text, manifest_error_text, primary_handler, TaskExecution, TaskInput, TaskManifest, TaskManifestError,
    TaskVersion,
};
use crate::text::{chars_of, find, find_exec, slice_chars, split, split_str, string_from};

verus! {

broadcast use vstd::string::group_string_axioms;

/// The asynchronous read-write lock of the async runtime, carried through
/// opaquely.
#[verifier::external_type_specification]
#[verifier::external_body]
#[verifier::reject_recursive_types(T)]
pub struct ExTokioRwLock<T: ?Sized>(tokio::sync::RwLock<T>);

/// Errors that can occur with task caching.
#[derive(Debug)]
pub enum TaskCacheError {
    TaskNotFound(String, String),
    DownloadError(String),
    IoError(std::io::Error),
    ManifestError(TaskManifestError),
    InvalidTaskReference(String),
    HttpError(String),
    ArchiveError(String),
}

impl TaskCacheError {
    /// The text that displaying this error gives.
    pub fn to_display_string(&self) -> (r: String)
        ensures
            self matches TaskCacheError::TaskNotFound(n, v) ==> r@ == "Task not found: "@ + n@
                + seq!['@'] + v@,
            self matches TaskCacheError::InvalidTaskReference(t) ==> r@ == "Invalid task reference: "@
                + t@,
            self matches TaskCacheError::DownloadError(m) ==> r@ == "Failed to download task: "@ + m@,
            self matches TaskCacheError::HttpError(m) ==> r@ == "HTTP error: "@ + m@,
            self matches TaskCacheError::ArchiveError(m) ==> r@ == "Archive error: "@ + m@,
            self is IoError ==> exists|t: Seq<char>| r@ == "IO error: "@ + t,
            self matches TaskCacheError::ManifestError(e) ==> (manifest_error_text(*e) matches Some(t) ==> r@
                == "Manifest error: "@ + t),
            self matches TaskCacheError::ManifestError(e) ==> (e is IoError ==> exists|t: Seq<char>| r@
                == "Manifest error: Failed to read task manifest: "@ + t),
    {
        match self {
            TaskCacheError::TaskNotFound(n, v) => {
                let mut r = String::from_str("Task not found: ");
                r.append(n.as_str());
                r.push('@');
                r.append(v.as_str());
                r
            },
            TaskCacheError::DownloadError(m) => {
                let mut r = String::from_str("Failed to download task: ");
                r.append(m.as_str());
                r
            },
            TaskCacheError::IoError(e) => {
                let mut r = String::from_str("IO error: ");
                let t = io_error_text(e);
                r.append(t.as_str());
                assert(r@ == "IO error: "@ + t@);
                r
            },
            TaskCacheError::ManifestError(e) => {
                let mut r = String::from_str("Manifest error: ");
                let t = e.to_display_string();
                r.append(t.as_str());
                proof {
                    if e is IoError {
                        let u = choose|u: Seq<char>| t@ == "Failed to read task manifest: "@ + u;
                        reveal_strlit("Manifest error: ");
                        reveal_strlit("Failed to read task manifest: ");
                        reveal_strlit("Manifest error: Failed to read task manifest: ");
                        assert(r@ =~= "Manifest error: Failed to read task manifest: "@ + u);
                    }
                }
                r
            },
            TaskCacheError::InvalidTaskReference(t) => {
                let mut r = String::from_str("Invalid task reference: ");
                r.append(t.as_str());
                r
            },
            TaskCacheError::HttpError(m) => {
                let mut r = String::from_str("HTTP error: ");
                r.append(m.as_str());
                r
            },
            TaskCacheError::ArchiveError(m) => {
                let mut r = String::from_str("Archive error: ");
                r.append(m.as_str());
                r
            },
        }
    }
}

/// Task source for downloading tasks.
#[derive(Debug, Clone)]
pub enum TaskSource {
    /// Azure DevOps built-in tasks from GitHub
    AzureDevOps,
    /// Local directory containing tasks
    LocalDir(PathBuf),
    /// Custom URL pattern (task name and version substituted)
    CustomUrl(String),
}

/// Configuration for the task cache.
#[derive(Debug, Clone)]
pub struct TaskCacheConfig {
    /// Cache directory (default: ~/.roxid/tasks/)
    pub cache_dir: PathBuf,
    /// Whether to allow downloading tasks
    pub allow_download: bool,
    /// Custom task sources (for testing)
    pub task_sources: Vec<TaskSource>,
}

/// `dirs::home_dir`: the user's home directory, if one can be found.
/// Nothing is stated of it: it comes from the environment.
#[verifier::external_body]
fn home_dir() -> (r: Option<PathBuf>) {
    dirs::home_dir()
}

/// `PathBuf::from` on a string.  Nothing is stated of the path: paths are
/// opaque here.
#[verifier::external_body]
fn path_from(s: &str) -> (r: PathBuf) {
    PathBuf::from(s)
}

/// The path that `Path::join` makes of `base` and `rel`: a function of the
/// two alone.
pub uninterp spec fn joined_path(base: PathBuf, rel: Seq<char>) -> PathBuf;

/// `Path::join`: `rel` appended to `base` (or `rel` itself where it is
/// absolute).  Stated only as the path named `joined_path`: paths are
/// opaque here.
#[verifier::external_body]
pub fn path_join(base: &PathBuf, rel: &str) -> (r: PathBuf)
    ensures
        r == joined_path(*base, rel@),
{
    base.join(rel)
}

impl Default for TaskCacheConfig {
    /// Caches under `.roxid/tasks` in the home directory (the current
    /// directory if there is none), downloading from Azure DevOps.
    fn default() -> (c: Self)
        ensures
            c.allow_download,
            c.task_sources@.len() == 1,
            c.task_sources@[0] is AzureDevOps,
            exists|base: PathBuf| c.cache_dir == joined_path(joined_path(base, ".roxid"@), "tasks"@),
    {
        let home = match home_dir() {
            Some(h) => h,
            None => path_from("."),
        };
        let cache_dir = path_join(&path_join(&home, ".roxid"), "tasks");
        let mut task_sources = Vec::new();
        task_sources.push(TaskSource::AzureDevOps);
        TaskCacheConfig { cache_dir, allow_download: true, task_sources }
    }
}

/// A cached task.
#[derive(Debug, Clone)]
pub struct CachedTask {
    /// Task name
    pub name: String,
    /// Task version
    pub version: String,
    /// Path to the task directory
    pub path: PathBuf,
    /// Parsed task manifest
    pub manifest: TaskManifest,
}

impl CachedTask {
    /// The path of the task's execution target (its primary handler's target
    /// under the task directory), if the manifest declares a handler.
    pub fn execution_target(&self) -> (r: Option<PathBuf>)
        ensures
            match self.manifest.execution {
                Some(e) => match primary_handler(e) {
                    Some(h) => r == Some(joined_path(self.path, h.target@)),
                    None => r is None,
                },
                None => r is None,
            },
    {
        match self.manifest.primary_execution() {
            Some(exec) => Some(path_join(&self.path, exec.target.as_str())),
            None => None,
        }
    }
}

/// The name and version that a task reference `name@version` names, if it
/// has exactly one `@` with text on both sides.
pub open spec fn task_reference(r: Seq<char>) -> Option<(Seq<char>, Seq<char>)> {
    let parts = split(r, "@"@);
    if parts.len() == 2 && parts[0].len() > 0 && parts[1].len() > 0 {
        Some((parts[0], parts[1]))
    } else {
        None
    }
}

/// Task cache for managing Azure DevOps tasks: its configuration and the
/// manifests loaded so far, shared between tasks of the run.
pub struct TaskCache {
    config: TaskCacheConfig,
    cache: Arc<tokio::sync::RwLock<HashMap<String, CachedTask>>>,
}

/// Calls `tokio::sync::RwLock::new`: a lock around `value`.  Nothing is
/// stated of the lock, which is opaque here.
#[verifier::external_body]
fn new_lock(value: HashMap<String, CachedTask>) -> (r: tokio::sync::RwLock<HashMap<String, CachedTask>>) {
    tokio::sync::RwLock::new(value)
}

impl TaskCache {
    pub closed spec fn configuration(&self) -> TaskCacheConfig {
        self.config
    }

    /// The shared map of loaded tasks that this cache holds.
    pub closed spec fn shared(&self) -> Arc<tokio::sync::RwLock<HashMap<String, CachedTask>>> {
        self.cache
    }

    /// Create a new task cache with default configuration.
    pub fn new() -> (c: Self)
        ensures
            c.configuration().allow_download,
            c.configuration().task_sources@.len() == 1,
            c.configuration().task_sources@[0] is AzureDevOps,
            exists|base: PathBuf| c.configuration().cache_dir == joined_path(joined_path(base, ".roxid"@), "tasks"@),
    {
        TaskCache::with_config(TaskCacheConfig::default())
    }

    /// Create a task cache with custom configuration.
    pub fn with_config(config: TaskCacheConfig) -> (c: Self)
        ensures
            c.configuration() == config,
    {
        let loaded: HashMap<String, CachedTask> = HashMap::new();
        let cache = Arc::new(new_lock(loaded));
        TaskCache { config, cache }
    }

    /// Create a task cache with a specific cache directory and the default
    /// settings otherwise.
    pub fn with_cache_dir(cache_dir: PathBuf) -> (c: Self)
        ensures
            c.configuration().cache_dir == cache_dir,
            c.configuration().allow_download,
            c.configuration().task_sources@.len() == 1,
    {
        let mut config = TaskCacheConfig::default();
        config.cache_dir = cache_dir;
        TaskCache::with_config(config)
    }

    /// Get the cache directory.
    pub fn cache_dir(&self) -> (r: &PathBuf)
        ensures
            *r == self.configuration().cache_dir,
    {
        &self.config.cache_dir
    }

    /// The configuration of the cache.
    pub fn config(&self) -> (r: &TaskCacheConfig)
        ensures
            *r == self.configuration(),
    {
        &self.config
    }

    /// The shared map of the tasks loaded so far.
    pub fn loaded(&self) -> (r: &Arc<tokio::sync::RwLock<HashMap<String, CachedTask>>>)
        ensures
            *r == self.shared(),
    {
        &self.cache
    }

    /// The directory where a task version is cached: `<cache>/<name>/<version>`.
    pub fn task_path(&self, name: &str, version: &str) -> (r: PathBuf)
        ensures
            r == joined_path(joined_path(self.configuration().cache_dir, name@), version@),
    {
        path_join(&path_join(&self.config.cache_dir, name), version)
    }

    /// Parse a task reference (e.g., "Bash@3" or "DotNetCoreCLI@2.123.4").
    pub fn parse_task_reference(task_ref: &str) -> (r: Result<(String, String), TaskCacheError>)
        ensures
            match task_reference(task_ref@) {
                Some((n, v)) => r matches Ok((name, version)) && name@ == n && version@ == v,
                None => r matches Err(TaskCacheError::InvalidTaskReference(t)) && t@ == task_ref@,
            },
    {
        proof {
            reveal_strlit("@");
        }
        let parts = split_str(task_ref, "@");
        let ghost pv = parts@.map_values(|p: String| p@);
        if parts.len() != 2 {
            return Err(TaskCacheError::InvalidTaskReference(String::from_str(task_ref)));
        }
        assert(pv[0] == parts@[0]@ && pv[1] == parts@[1]@);
        let name = parts[0].clone();
        let version = parts[1].clone();
        if version.as_str().unicode_len() == 0 || name.as_str().unicode_len() == 0 {
            return Err(TaskCacheError::InvalidTaskReference(String::from_str(task_ref)));
        }
        Ok((name, version))
    }
}

// ---------------------------------------------------------------------------
// Looking a task up
// ---------------------------------------------------------------------------

/// What looking a task up takes next.
#[derive(Debug)]
pub enum TaskLookup {
    /// The task is loaded already: hand out the loaded copy.
    Cached,
    /// Load the task from its directory in the cache.
    LoadFromDisk(PathBuf),
    /// Fetch the task from the configured sources, in order.
    Download,
    /// The task cannot be had.
    NotFound(TaskCacheError),
}

/// What fetching a task from its sources takes next.
#[derive(Debug)]
pub enum SourceStep {
    /// Try the source at this place.
    Try(usize),
    /// The source at this place gave the task.
    Fetched(usize),
    /// Every source failed.
    NotFound(TaskCacheError),
}

impl TaskCache {
    /// The key under which a loaded task is kept: `name@version`.
    pub fn cache_key(name: &str, version: &str) -> (r: String)
        ensures
            r@ == name@ + "@"@ + version@,
    {
        let mut r = String::from_str(name);
        r.append("@");
        r.append(version);
        r
    }

    /// The next step of looking the task `name@version` up, given whether it
    /// is loaded already and whether its directory exists in the cache: a
    /// loaded task is handed out; else a cached one is loaded from disk;
    /// else it is fetched where downloads are allowed, and not found where
    /// they are not.
    pub fn lookup_step(&self, name: &str, version: &str, in_memory: bool, on_disk: bool) -> (r: TaskLookup)
        ensures
            in_memory ==> r is Cached,
            !in_memory && on_disk ==> r == TaskLookup::LoadFromDisk(
                joined_path(joined_path(self.configuration().cache_dir, name@), version@),
            ),
            !in_memory && !on_disk && self.configuration().allow_download ==> r is Download,
            !in_memory && !on_disk && !self.configuration().allow_download ==> (r matches TaskLookup::NotFound(
                TaskCacheError::TaskNotFound(n, v),
            ) && n@ == name@ && v@ == version@),
    {
        if in_memory {
            TaskLookup::Cached
        } else if on_disk {
            TaskLookup::LoadFromDisk(self.task_path(name, version))
        } else if self.config.allow_download {
            TaskLookup::Download
        } else {
            TaskLookup::NotFound(TaskCacheError::TaskNotFound(String::from_str(name), String::from_str(version)))
        }
    }

    /// The next step of fetching `name@version` from the configured
    /// sources, given whether each source tried so far gave the task, in
    /// order: the first that did gives it; else the next source is tried;
    /// once every source has failed, the task is not found.
    pub fn download_step(&self, name: &str, version: &str, tried: &Vec<bool>) -> (r: SourceStep)
        ensures
            (exists|i: int| 0 <= i < tried@.len() && tried@[i]) ==> (r matches SourceStep::Fetched(i) && i
                < tried@.len() && tried@[i as int] && forall|k: int| 0 <= k < i ==> !tried@[k]),
            (forall|i: int| 0 <= i < tried@.len() ==> !tried@[i]) && tried@.len()
                < self.configuration().task_sources@.len() ==> r == SourceStep::Try(tried@.len() as usize),
            (forall|i: int| 0 <= i < tried@.len() ==> !tried@[i]) && tried@.len()
                >= self.configuration().task_sources@.len() ==> (r matches SourceStep::NotFound(
                TaskCacheError::TaskNotFound(n, v),
            ) && n@ == name@ && v@ == version@),
    {
        let mut i: usize = 0;
        while i < tried.len()
            invariant
                i <= tried@.len(),
                forall|k: int| 0 <= k < i ==> !tried@[k],
            decreases tried@.len() - i,
        {
            if tried[i] {
                return SourceStep::Fetched(i);
            }
            i = i + 1;
        }
        if tried.len() < self.config.task_sources.len() {
            SourceStep::Try(tried.len())
        } else {
            SourceStep::NotFound(TaskCacheError::TaskNotFound(String::from_str(name), String::from_str(version)))
        }
    }
}

// ---------------------------------------------------------------------------
// Built-in task stubs
// ---------------------------------------------------------------------------

/// Whether `c` is an ASCII decimal digit.
pub open spec fn is_decimal_digit(c: char) -> bool {
    '0' <= c && c <= '9'
}

/// The number that a sequence of decimal digits spells.
pub open spec fn digits_value(s: Seq<char>) -> nat
    decreases s.len(),
{
    if s.len() == 0 {
        0
    } else {
        digits_value(s.drop_last()) * 10 + ((s.last() as int - '0' as int) as nat)
    }
}

/// The text after an optional leading `+`.
pub open spec fn unsigned_digits(s: Seq<char>) -> Seq<char> {
    if s.len() > 0 && s[0] == '+' {
        s.subrange(1, s.len() as int)
    } else {
        s
    }
}

/// Whether every character is a decimal digit.
pub open spec fn all_digits(d: Seq<char>) -> bool {
    forall|i: int| 0 <= i < d.len() ==> is_decimal_digit(#[trigger] d[i])
}

/// What `str::parse::<u32>` gives: an optional `+` followed by at least one
/// decimal digit and nothing else, spelling a number that fits in 32 bits.
pub open spec fn parse_u32(s: Seq<char>) -> Option<u32> {
    let d = unsigned_digits(s);
    if d.len() > 0 && all_digits(d) && digits_value(d) <= u32::MAX {
        Some(digits_value(d) as u32)
    } else {
        None
    }
}

proof fn lemma_digits_value_grows(s: Seq<char>, k: int)
    requires
        0 <= k <= s.len(),
        forall|i: int| 0 <= i < s.len() ==> is_decimal_digit(#[trigger] s[i]),
    ensures
        digits_value(s.subrange(0, k)) <= digits_value(s),
    decreases s.len() - k,
{
    if k < s.len() {
        lemma_digits_value_grows(s, k + 1);
        let pre = s.subrange(0, k + 1);
        assert(pre.drop_last() == s.subrange(0, k));
        assert(is_decimal_digit(s[k]));
    } else {
        assert(s.subrange(0, k) == s);
    }
}

/// Parses a decimal number as `str::parse::<u32>` does.
pub fn parse_u32_str(s: &str) -> (r: Option<u32>)
    ensures
        r == parse_u32(s@),
{
    let v = chars_of(s);
    let start: usize = if v.len() > 0 && v[0] == '+' {
        1
    } else {
        0
    };
    let ghost d = unsigned_digits(v@);
    assert(d == v@.subrange(start as int, v@.len() as int));
    if start >= v.len() {
        return None;
    }
    let mut acc: u64 = 0;
    let mut i = start;
    while i < v.len()
        invariant
            v@ == s@,
            d == unsigned_digits(v@),
            start <= i <= v@.len(),
            d == v@.subrange(start as int, v@.len() as int),
            acc as nat == digits_value(d.subrange(0, i - start)),
            acc <= u32::MAX,
            forall|j: int| 0 <= j < i - start ==> is_decimal_digit(#[trigger] d[j]),
        decreases v@.len() - i,
    {
        let c = v[i];
        if !('0' <= c && c <= '9') {
            proof {
                let k = i - start;
                assert(!is_decimal_digit(d[k]));
                assert(!all_digits(d));
            }
            return None;
        }
        let pre = Ghost(d.subrange(0, i - start + 1));
        assert(pre@.drop_last() == d.subrange(0, i - start));
        assert(pre@.last() == c);
        let digit = (c as u32 - '0' as u32) as u64;
        acc = acc * 10 + digit;
        if acc > 0xffff_ffff {
            proof {
                assert(digits_value(pre@) > u32::MAX);
                if all_digits(d) {
                    lemma_digits_value_grows(d, i - start + 1);
                }
            }
            return None;
        }
        i = i + 1;
    }
    assert(d.subrange(0, d.len() as int) == d);
    Some(acc as u32)
}

/// The text before the first `.` of a version (all of it if it has none).
pub open spec fn major_part(version: Seq<char>) -> Seq<char> {
    match find(version, "."@) {
        Some(i) => version.subrange(0, i),
        None => version,
    }
}

/// Whether a built-in stub exists for a task name.
pub open spec fn builtin_task(name: Seq<char>) -> bool {
    name == "Bash"@ || name == "PowerShell"@ || name == "CmdLine"@
}

/// The id of a built-in task.
pub open spec fn builtin_id(name: Seq<char>) -> Seq<char> {
    if name == "Bash"@ {
        "6c731c3c-3c68-459a-a5c9-bde6e6595b5b"@
    } else if name == "PowerShell"@ {
        "e213ff0f-5d5c-4791-802d-52ea3e7be1f1"@
    } else {
        "d9bafed4-0b18-4f58-968d-86655b4d2ce9"@
    }
}

/// An optional text as characters.
pub open spec fn opt_text(o: Option<String>) -> Option<Seq<char>> {
    match o {
        Some(t) => Some(t@),
        None => None,
    }
}

/// An input as the stub manifests describe it: name, type, label, default
/// value, whether it is required, and when it is shown.
pub open spec fn input_row(i: TaskInput) -> (
    Seq<char>,
    Option<Seq<char>>,
    Option<Seq<char>>,
    Option<Seq<char>>,
    Option<bool>,
    Option<Seq<char>>,
) {
    (i.name@, opt_text(i.input_type), opt_text(i.label), opt_text(i.default_value), i.required, opt_text(i.visible_rule))
}

/// The inputs of a built-in task: a `targetType` radio button defaulting to
/// `inline` (not for CmdLine), the required script (shown for inline scripts),
/// the working directory, and for PowerShell a `pwsh` switch defaulting to
/// `false`.
pub open spec fn builtin_input_rows(name: Seq<char>) -> Seq<
    (Seq<char>, Option<Seq<char>>, Option<Seq<char>>, Option<Seq<char>>, Option<bool>, Option<Seq<char>>),
> {
    let target = ("targetType"@, Some("radio"@), Some("Type"@), Some("inline"@), Some(false), None::<Seq<char>>);
    let script = ("script"@, Some("multiLine"@), Some("Script"@), None::<Seq<char>>, Some(true), Some("targetType = inline"@));
    let dir = ("workingDirectory"@, Some("filePath"@), Some("Working Directory"@), None::<Seq<char>>, Some(false), None::<Seq<char>>);
    let pwsh = ("pwsh"@, Some("boolean"@), Some("Use PowerShell Core"@), Some("false"@), Some(false), None::<Seq<char>>);
    if name == "Bash"@ {
        seq![target, script, dir]
    } else if name == "PowerShell"@ {
        seq![target, script, dir, pwsh]
    } else {
        seq![("script"@, Some("multiLine"@), Some("Script"@), None::<Seq<char>>, Some(true), None::<Seq<char>>), dir]
    }
}

/// The default value of each input of a built-in task.
pub open spec fn builtin_input_defaults(name: Seq<char>) -> Seq<(Seq<char>, Option<Seq<char>>)> {
    builtin_input_rows(name).map_values(
        |r: (Seq<char>, Option<Seq<char>>, Option<Seq<char>>, Option<Seq<char>>, Option<bool>, Option<Seq<char>>)|
            (r.0, r.3),
    )
}

/// The friendly name, description and instance name format of a built-in
/// task.
pub open spec fn builtin_texts(name: Seq<char>) -> (Seq<char>, Seq<char>, Seq<char>) {
    if name == "Bash"@ {
        ("Bash"@, "Run a Bash script"@, "Bash Script"@)
    } else if name == "PowerShell"@ {
        ("PowerShell"@, "Run a PowerShell script"@, "PowerShell Script"@)
    } else {
        ("Command line"@, "Run a command line script"@, "Command Line Script"@)
    }
}

pub open spec fn str_opt(o: Option<&str>) -> Option<Seq<char>> {
    match o {
        Some(t) => Some(t@),
        None => None,
    }
}

/// An input with no help text, group, options, properties, validation or
/// aliases.
pub open spec fn bare_input(i: TaskInput) -> bool {
    &&& i.help_mark_down is None
    &&& i.group_name is None
    &&& i.options is None
    &&& i.properties is None
    &&& i.validation is None
    &&& i.aliases is None
}

fn stub_input(
    name: &str,
    input_type: &str,
    label: &str,
    default_value: Option<&str>,
    required: bool,
    visible_rule: Option<&str>,
) -> (i: TaskInput)
    ensures
        input_row(i) == (name@, Some(input_type@), Some(label@), str_opt(default_value), Some(required), str_opt(
            visible_rule,
        )),
        i.options is None && i.properties is None && i.validation is None && i.aliases is None,
        i.help_mark_down is None && i.group_name is None,
{
    TaskInput {
        name: String::from_str(name),
        input_type: Some(String::from_str(input_type)),
        label: Some(String::from_str(label)),
        default_value: match default_value {
            Some(d) => Some(String::from_str(d)),
            None => None,
        },
        required: Some(required),
        help_mark_down: None,
        group_name: None,
        visible_rule: match visible_rule {
            Some(v) => Some(String::from_str(v)),
            None => None,
        },
        options: None,
        properties: None,
        validation: None,
        aliases: None,
    }
}

fn two_strings(a: &str, b: &str) -> (v: Vec<String>)
    ensures
        v@.map_values(|s: String| s@) == seq![a@, b@],
{
    let mut v = Vec::new();
    v.push(String::from_str(a));
    v.push(String::from_str(b));
    assert(v@.map_values(|s: String| s@) =~= seq![a@, b@]);
    v
}

fn one_string(a: &str) -> (v: Vec<String>)
    ensures
        v@.map_values(|s: String| s@) == seq![a@],
{
    let mut v = Vec::new();
    v.push(String::from_str(a));
    assert(v@.map_values(|s: String| s@) =~= seq![a@]);
    v
}

/// A stub manifest for a built-in Azure DevOps task (Bash, PowerShell or
/// CmdLine) at the major version that the version's first `.`-separated
/// part gives; none for other tasks or an unreadable version.
pub fn create_builtin_task_stub(name: &str, version: &str) -> (r: Option<TaskManifest>)
    ensures
        match r {
            Some(m) => {
                &&& builtin_task(name@)
                &&& parse_u32(major_part(version@)) == Some(m.version.major)
                &&& m.version.minor == 0 && m.version.patch == 0
                &&& m.name@ == name@
                &&& m.id@ == builtin_id(name@)
                &&& m.execution is None && m.pre_job_execution is None && m.post_job_execution is None
                &&& m.inputs@.map_values(|i: TaskInput| input_row(i)) == builtin_input_rows(name@)
                &&& opt_text(m.friendly_name) == Some(builtin_texts(name@).0)
                &&& opt_text(m.description) == Some(builtin_texts(name@).1)
                &&& opt_text(m.instance_name_format) == Some(builtin_texts(name@).2)
                &&& opt_text(m.category) == Some("Utility"@)
                &&& opt_text(m.author) == Some("Microsoft Corporation"@)
                &&& m.visibility matches Some(v) && v@.map_values(|x: String| x@) == seq!["Build"@, "Release"@]
                &&& m.runs_on matches Some(v) && v@.map_values(|x: String| x@) == seq!["Agent"@]
                &&& m.help_url is None && m.help_mark_down is None && m.minimum_agent_version is None
                &&& m.groups is None && m.output_variables is None && m.data_source_bindings is None
                &&& m.messages is None && m.restrictions is None && m.demands is None
                &&& forall|k: int| 0 <= k < m.inputs@.len() ==> bare_input(#[trigger] m.inputs@[k])
            },
            None => !builtin_task(name@) || parse_u32(major_part(version@)) is None,
        },
{
    let v = chars_of(version);
    let dot = chars_of(".");
    let first = match find_exec(v.as_slice(), dot.as_slice()) {
        Some(i) => string_from(slice_chars(v.as_slice(), 0, i).as_slice()),
        None => String::from_str(version),
    };
    let major = match parse_u32_str(first.as_str()) {
        Some(m) => m,
        None => {
            return None;
        },
    };
    let (id, friendly, description, instance) = if crate::template::str_eq(name, "Bash") {
        ("6c731c3c-3c68-459a-a5c9-bde6e6595b5b", "Bash", "Run a Bash script", "Bash Script")
    } else if crate::template::str_eq(name, "PowerShell") {
        (
            "e213ff0f-5d5c-4791-802d-52ea3e7be1f1",
            "PowerShell",
            "Run a PowerShell script",
            "PowerShell Script",
        )
    } else if crate::template::str_eq(name, "CmdLine") {
        (
            "d9bafed4-0b18-4f58-968d-86655b4d2ce9",
            "Command line",
            "Run a command line script",
            "Command Line Script",
        )
    } else {
        return None;
    };
    let mut inputs: Vec<TaskInput> = Vec::new();
    proof {
        reveal_strlit("CmdLine");
        reveal_strlit("Bash");
        reveal_strlit("PowerShell");
        assert("CmdLine"@.len() == 7);
        assert("Bash"@.len() == 4);
        assert("PowerShell"@.len() == 10);
    }
    if crate::template::str_eq(name, "CmdLine") {
        inputs.push(stub_input("script", "multiLine", "Script", None, true, None));
        inputs.push(stub_input("workingDirectory", "filePath", "Working Directory", None, false, None));
        assert(inputs@.map_values(|i: TaskInput| input_row(i)) =~= builtin_input_rows(name@));
    } else {
        inputs.push(stub_input("targetType", "radio", "Type", Some("inline"), false, None));
        inputs.push(
            stub_input("script", "multiLine", "Script", None, true, Some("targetType = inline")),
        );
        inputs.push(stub_input("workingDirectory", "filePath", "Working Directory", None, false, None));
        if crate::template::str_eq(name, "PowerShell") {
            inputs.push(
                stub_input("pwsh", "boolean", "Use PowerShell Core", Some("false"), false, None),
            );
            assert(inputs@.map_values(|i: TaskInput| input_row(i)) =~= builtin_input_rows(name@));
        } else {
            assert(inputs@.map_values(|i: TaskInput| input_row(i)) =~= builtin_input_rows(name@));
        }
    }
    assert(forall|k: int| 0 <= k < inputs@.len() ==> bare_input(#[trigger] inputs@[k]));
    let manifest = TaskManifest {
        id: String::from_str(id),
        name: String::from_str(name),
        friendly_name: Some(String::from_str(friendly)),
        description: Some(String::from_str(description)),
        help_url: None,
        help_mark_down: None,
        category: Some(String::from_str("Utility")),
        visibility: Some(two_strings("Build", "Release")),
        runs_on: Some(one_string("Agent")),
        author: Some(String::from_str("Microsoft Corporation")),
        version: TaskVersion { major, minor: 0, patch: 0 },
        minimum_agent_version: None,
        instance_name_format: Some(String::from_str(instance)),
        groups: None,
        inputs,
        output_variables: None,
        execution: None,
        pre_job_execution: None,
        post_job_execution: None,
        data_source_bindings: None,
        messages: None,
        restrictions: None,
        demands: None,
    };
    Some(manifest)
}

} // verus!
