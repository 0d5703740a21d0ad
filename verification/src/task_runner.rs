//! Running Azure DevOps tasks: checking a task's required inputs, merging
//! them with the manifest's defaults, and deciding how the task runs: which
//! shell runs which script for the built-in Bash, PowerShell and CmdLine
//! tasks, and which interpreter runs a task's own handler.  Reading script
//! files, probing for interpreters and running processes are the caller's.

use vstd::prelude::*;
use std::path::PathBuf;
use crate::manifest::{default_pairs, io_error_text, primary_handler, TaskInput};
use crate::runners::{Shell, ShellConfig, ShellRunner};
use crate::task_cache::{path_join, CachedTask, TaskCache, TaskCacheError};
use crate::template::str_eq;
use crate::text::{all_ascii, ascii_upper, chars_of, find, find_exec, slice_chars, string_from, trim, trim_chars};

verus! {

broadcast use vstd::string::group_string_axioms;

/// Errors that can occur when running tasks.
#[derive(Debug)]
pub enum TaskRunnerError {
    CacheError(TaskCacheError),
    ExecutionFailed(String),
    UnsupportedExecution(String),
    MissingInput(String),
    IoError(std::io::Error),
}

impl TaskRunnerError {
    /// The text that displaying this error gives.
    pub fn to_display_string(&self) -> (r: String)
        ensures
            match self {
                TaskRunnerError::ExecutionFailed(m) => r@ == "Task execution failed: "@ + m@,
                TaskRunnerError::UnsupportedExecution(m) => r@ == "Unsupported task execution type: "@
                    + m@,
                TaskRunnerError::MissingInput(m) => r@ == "Missing required input: "@ + m@,
                TaskRunnerError::CacheError(_) => exists|t: Seq<char>| r@ == "Task cache error: "@ + t,
                TaskRunnerError::IoError(_) => exists|t: Seq<char>| r@ == "IO error: "@ + t,
            },
    {
        let (mut r, rest) = match self {
            TaskRunnerError::CacheError(e) => (String::from_str("Task cache error: "), e.to_display_string()),
            TaskRunnerError::ExecutionFailed(m) => (String::from_str("Task execution failed: "), m.clone()),
            TaskRunnerError::UnsupportedExecution(m) => (
                String::from_str("Unsupported task execution type: "),
                m.clone(),
            ),
            TaskRunnerError::MissingInput(m) => (String::from_str("Missing required input: "), m.clone()),
            TaskRunnerError::IoError(e) => (String::from_str("IO error: "), io_error_text(e)),
        };
        let ghost head = r@;
        r.append(rest.as_str());
        proof {
            assert(r@ == head + rest@);
        }
        r
    }
}

// ---------------------------------------------------------------------------
// Inputs
// ---------------------------------------------------------------------------

/// Input pairs as character sequences.
pub open spec fn pairs_view(v: Seq<(String, String)>) -> Seq<(Seq<char>, Seq<char>)> {
    v.map_values(|p: (String, String)| (p.0@, p.1@))
}

/// The value given last for `key`.
pub open spec fn input_of(pairs: Seq<(Seq<char>, Seq<char>)>, key: Seq<char>) -> Option<Seq<char>>
    decreases pairs.len(),
{
    if pairs.len() == 0 {
        None
    } else if pairs.last().0 == key {
        Some(pairs.last().1)
    } else {
        input_of(pairs.drop_last(), key)
    }
}

/// The position of the first pair with key `key`.
pub open spec fn pair_index(pairs: Seq<(Seq<char>, Seq<char>)>, key: Seq<char>) -> Option<int>
    decreases pairs.len(),
{
    if pairs.len() == 0 {
        None
    } else {
        match pair_index(pairs.drop_last(), key) {
            Some(i) => Some(i),
            None => if pairs.last().0 == key {
                Some(pairs.len() - 1)
            } else {
                None
            },
        }
    }
}

/// The pairs with `key` set to `value`: the pair with that key keeps its
/// place and takes the value, else the pair is added at the end.
pub open spec fn pair_insert(pairs: Seq<(Seq<char>, Seq<char>)>, key: Seq<char>, value: Seq<char>) -> Seq<
    (Seq<char>, Seq<char>),
> {
    match pair_index(pairs, key) {
        Some(i) => pairs.update(i, (key, value)),
        None => pairs.push((key, value)),
    }
}

/// The pairs `acc` with each of `more` set, in order.
pub open spec fn insert_all(acc: Seq<(Seq<char>, Seq<char>)>, more: Seq<(Seq<char>, Seq<char>)>) -> Seq<
    (Seq<char>, Seq<char>),
>
    decreases more.len(),
{
    if more.len() == 0 {
        acc
    } else {
        let done = insert_all(acc, more.drop_last());
        pair_insert(done, more.last().0, more.last().1)
    }
}

/// `s` without the characters `c` at its end.
pub open spec fn strip_trailing(s: Seq<char>, c: char) -> Seq<char>
    decreases s.len(),
{
    if s.len() > 0 && s.last() == c {
        strip_trailing(s.drop_last(), c)
    } else {
        s
    }
}

/// The input that a visibility rule `name = value` (or `name != value`)
/// tests: the text before the first `=`, trimmed, without trailing `!`s,
/// trimmed again.
pub open spec fn rule_input(rule: Seq<char>) -> Option<Seq<char>> {
    match find(rule, "="@) {
        Some(p) => Some(trim(strip_trailing(trim(rule.subrange(0, p)), '!'))),
        None => None,
    }
}

/// Some alias of the input is provided.
pub open spec fn alias_provided(input: TaskInput, provided: Seq<(Seq<char>, Seq<char>)>) -> bool {
    input.aliases matches Some(al) && exists|j: int|
        0 <= j < al@.len() && #[trigger] input_of(provided, al@[j]@) is Some
}

/// A required input that is neither provided (by name or alias) nor
/// defaulted, and not hidden by a visibility rule whose input is missing.
pub open spec fn input_missing(input: TaskInput, provided: Seq<(Seq<char>, Seq<char>)>) -> bool {
    &&& input.required == Some(true)
    &&& input_of(provided, input.name@) is None
    &&& input.default_value is None
    &&& !alias_provided(input, provided)
    &&& !(input.visible_rule matches Some(rule) && rule_input(rule@) matches Some(ci) && input_of(
        provided,
        ci,
    ) is None)
}

/// The position of the first missing input.
pub open spec fn first_missing(inputs: Seq<TaskInput>, provided: Seq<(Seq<char>, Seq<char>)>) -> Option<int>
    decreases inputs.len(),
{
    if inputs.len() == 0 {
        None
    } else {
        match first_missing(inputs.drop_last(), provided) {
            Some(i) => Some(i),
            None => if input_missing(inputs.last(), provided) {
                Some(inputs.len() - 1)
            } else {
                None
            },
        }
    }
}

proof fn lemma_first_missing(inputs: Seq<TaskInput>, provided: Seq<(Seq<char>, Seq<char>)>)
    ensures
        match first_missing(inputs, provided) {
            Some(i) => 0 <= i < inputs.len() && input_missing(inputs[i], provided) && forall|j: int|
                0 <= j < i ==> !input_missing(#[trigger] inputs[j], provided),
            None => forall|j: int| 0 <= j < inputs.len() ==> !input_missing(#[trigger] inputs[j], provided),
        },
    decreases inputs.len(),
{
    if inputs.len() > 0 {
        let d = inputs.drop_last();
        lemma_first_missing(d, provided);
        assert forall|j: int| 0 <= j < d.len() implies d[j] == inputs[j] by {}
    }
}

/// The value given last for `key` among the pairs.
pub fn find_input<'a>(pairs: &'a Vec<(String, String)>, key: &str) -> (r: Option<&'a String>)
    ensures
        match input_of(pairs_view(pairs@), key@) {
            Some(v) => r matches Some(s) && s@ == v,
            None => r is None,
        },
{
    let ghost pv = pairs_view(pairs@);
    let mut i: usize = pairs.len();
    proof {
        assert(pv.subrange(0, i as int) == pv);
    }
    while i > 0
        invariant
            i <= pairs@.len(),
            pv == pairs_view(pairs@),
            input_of(pv, key@) == input_of(pv.subrange(0, i as int), key@),
        decreases i,
    {
        let ghost pre = pv.subrange(0, i as int);
        proof {
            assert(pre.drop_last() == pv.subrange(0, i - 1));
            assert(pre.last() == (pairs@[i - 1].0@, pairs@[i - 1].1@));
        }
        if str_eq(pairs[i - 1].0.as_str(), key) {
            return Some(&pairs[i - 1].1);
        }
        i = i - 1;
    }
    None
}

/// Sets `key` to `value` among the pairs, as `pair_insert` says.
pub(crate) fn set_input(pairs: &mut Vec<(String, String)>, key: String, value: String)
    ensures
        pairs_view(final(pairs)@) == pair_insert(pairs_view(old(pairs)@), key@, value@),
{
    let ghost pv = pairs_view(pairs@);
    let mut i: usize = 0;
    while i < pairs.len()
        invariant
            i <= pairs@.len(),
            pv == pairs_view(pairs@),
            pv == pairs_view(old(pairs)@),
            forall|j: int| 0 <= j < i ==> pv[j].0 != key@,
        decreases pairs@.len() - i,
    {
        if str_eq(pairs[i].0.as_str(), key.as_str()) {
            proof {
                assert(pv[i as int] == (pairs@[i as int].0@, pairs@[i as int].1@));
                lemma_pair_index(pv, key@);
                assert(pair_index(pv, key@) == Some(i as int)) by {
                    match pair_index(pv, key@) {
                        Some(j) => {
                            assert(!(j < i));
                            assert(!(j > i));
                        },
                        None => {},
                    }
                }
            }
            pairs.set(i, (key, value));
            proof {
                assert(pairs_view(pairs@) =~= pv.update(i as int, (key@, value@)));
            }
            return;
        }
        i = i + 1;
    }
    proof {
        lemma_pair_index(pv, key@);
    }
    pairs.push((key, value));
    proof {
        assert(pairs_view(pairs@) =~= pv.push((key@, value@)));
    }
}

proof fn lemma_pair_index(pairs: Seq<(Seq<char>, Seq<char>)>, key: Seq<char>)
    ensures
        match pair_index(pairs, key) {
            Some(i) => 0 <= i < pairs.len() && pairs[i].0 == key && forall|j: int| 0 <= j < i ==> pairs[j].0 != key,
            None => forall|j: int| 0 <= j < pairs.len() ==> pairs[j].0 != key,
        },
    decreases pairs.len(),
{
    if pairs.len() > 0 {
        let d = pairs.drop_last();
        lemma_pair_index(d, key);
        assert forall|j: int| 0 <= j < d.len() implies d[j] == pairs[j] by {}
    }
}

/// `rule_input` of a rule.
fn rule_input_of(rule: &String) -> (r: Option<String>)
    ensures
        match rule_input(rule@) {
            Some(ci) => r matches Some(s) && s@ == ci,
            None => r is None,
        },
{
    let cs = chars_of(rule.as_str());
    let eq = chars_of("=");
    match find_exec(cs.as_slice(), eq.as_slice()) {
        Some(p) => {
            let head = trim_chars(slice_chars(cs.as_slice(), 0, p).as_slice());
            let mut n: usize = head.len();
            proof {
                assert(head@.subrange(0, n as int) == head@);
            }
            while n > 0 && head[n - 1] == '!'
                invariant
                    n <= head@.len(),
                    strip_trailing(head@, '!') == strip_trailing(head@.subrange(0, n as int), '!'),
                decreases n,
            {
                proof {
                    assert(head@.subrange(0, n as int).drop_last() == head@.subrange(0, n - 1));
                }
                n = n - 1;
            }
            let stripped = slice_chars(head.as_slice(), 0, n);
            let t = trim_chars(stripped.as_slice());
            Some(string_from(t.as_slice()))
        },
        None => None,
    }
}

/// Whether an input is missing, as `input_missing` says.
fn is_missing(input: &TaskInput, provided: &Vec<(String, String)>) -> (b: bool)
    ensures
        b == input_missing(*input, pairs_view(provided@)),
{
    let pv = Ghost(pairs_view(provided@));
    if input.required != Some(true) {
        return false;
    }
    if find_input(provided, input.name.as_str()).is_some() || input.default_value.is_some() {
        return false;
    }
    match &input.aliases {
        Some(al) => {
            let mut j: usize = 0;
            while j < al.len()
                invariant
                    j <= al@.len(),
                    forall|k: int| 0 <= k < j ==> input_of(pv@, al@[k]@) is None,
                    pv@ == pairs_view(provided@),
                    input.aliases == Some(*al),
                decreases al@.len() - j,
            {
                if find_input(provided, al[j].as_str()).is_some() {
                    proof {
                        assert(input_of(pv@, al@[j as int]@) is Some);
                        assert(alias_provided(*input, pairs_view(provided@)));
                    }
                    return false;
                }
                j = j + 1;
            }
        },
        None => {},
    }
    match &input.visible_rule {
        Some(rule) => match rule_input_of(rule) {
            Some(ci) => {
                if find_input(provided, ci.as_str()).is_none() {
                    return false;
                }
            },
            None => {},
        },
        None => {},
    }
    true
}

// ---------------------------------------------------------------------------
// How a task runs
// ---------------------------------------------------------------------------

/// The shell that runs a built-in task's script.
#[derive(Debug, Clone, Copy, PartialEq, Eq, Structural)]
pub enum TaskShell {
    Bash,
    Pwsh,
    PowerShell,
    /// The platform's default shell.
    Script,
}

/// Where a built-in task's script comes from.
#[derive(Debug)]
pub enum TaskScript {
    /// The script text itself.
    Inline(String),
    /// A file to read, as given: relative paths are under the working
    /// directory.
    File(String),
}

/// The interpreter that runs a task's own handler.
#[derive(Debug)]
pub enum HandlerRun {
    /// `node <target>`, with the runner's Node.js executable.
    Node,
    /// `& '<target>'` under PowerShell Core.
    PowerShell,
}

/// How a task runs.
#[derive(Debug)]
pub enum TaskPlan {
    /// A built-in task: a script run by a shell.
    Script { shell: TaskShell, script: TaskScript, config: ShellConfig, display_name: String },
    /// The task's own handler at `target`, run in the task's directory with
    /// each input in the environment as `INPUT_<NAME>`; `run` is how, or why
    /// not, once the target is found to exist.
    Handler {
        target: PathBuf,
        input_env: Vec<(String, String)>,
        run: Result<HandlerRun, TaskRunnerError>,
        display_name: Option<String>,
    },
}

/// The upper-case form of `s`, as `str::to_uppercase` gives it.
pub uninterp spec fn uppercase(s: Seq<char>) -> Seq<char>;

/// The upper-case form of a text: letter by letter where it is ASCII, and
/// what `str::to_uppercase` gives otherwise.
pub open spec fn upper_text(s: Seq<char>) -> Seq<char> {
    if all_ascii(s) {
        s.map_values(|c: char| ascii_upper(c))
    } else {
        uppercase(s)
    }
}

/// `str::to_uppercase`: the Unicode upper-case mapping of each character,
/// named `uppercase`; on an ASCII text it maps each letter to its ASCII
/// upper case and keeps the rest.
#[verifier::external_body]
fn to_uppercase_text(s: &str) -> (r: String)
    ensures
        r@ == uppercase(s@),
        all_ascii(s@) ==> r@ == s@.map_values(|c: char| ascii_upper(c)),
{
    s.to_uppercase()
}

/// `s` with spaces and dots made underscores.
pub open spec fn underscored(s: Seq<char>) -> Seq<char> {
    s.map_values(|c: char| if c == ' ' || c == '.' { '_' } else { c })
}

/// The environment variable that carries input `key`: `INPUT_` and the
/// key in upper case with spaces and dots made underscores.
pub open spec fn input_env_name(key: Seq<char>) -> Seq<char> {
    "INPUT_"@ + underscored(upper_text(key))
}

/// On an ASCII key, the environment variable of an input is `INPUT_`
/// followed by the key character for character: lower-case letters in
/// upper case, spaces and dots as underscores, every other character kept.
pub proof fn lemma_input_env_name(key: Seq<char>)
    requires
        all_ascii(key),
    ensures
        input_env_name(key).len() == key.len() + 6,
        input_env_name(key).subrange(0, 6) == "INPUT_"@,
        forall|i: int|
            0 <= i < key.len() ==> #[trigger] input_env_name(key)[6 + i] == (if key[i] == ' ' || key[i] == '.' {
                '_'
            } else if 'a' <= key[i] <= 'z' {
                ((key[i] as int) - 32) as char
            } else {
                key[i]
            }),
        forall|i: int| 0 <= i < key.len() ==> 'a' <= key[i] <= 'z' ==> 'A' <= #[trigger] input_env_name(key)[6 + i] <= 'Z',
{
    reveal_strlit("INPUT_");
    let n = input_env_name(key);
    let u = upper_text(key);
    assert(u == key.map_values(|c: char| ascii_upper(c)));
    assert(n.subrange(0, 6) =~= "INPUT_"@);
    assert forall|i: int| 0 <= i < key.len() implies #[trigger] n[6 + i] == (if key[i] == ' ' || key[i] == '.' {
        '_'
    } else if 'a' <= key[i] <= 'z' {
        ((key[i] as int) - 32) as char
    } else {
        key[i]
    }) by {
        assert(n[6 + i] == underscored(u)[i]);
        assert(u[i] == ascii_upper(key[i]));
    }
}

/// The environment entries for the inputs, in order.
pub open spec fn input_env(inputs: Seq<(Seq<char>, Seq<char>)>) -> Seq<(Seq<char>, Seq<char>)> {
    inputs.map_values(|p: (Seq<char>, Seq<char>)| (input_env_name(p.0), p.1))
}

fn input_env_key(key: &String) -> (r: String)
    ensures
        r@ == input_env_name(key@),
{
    let up = chars_of(to_uppercase_text(key.as_str()).as_str());
    let mut r = String::from_str("INPUT_");
    let ghost head = r@;
    let mut i: usize = 0;
    while i < up.len()
        invariant
            i <= up@.len(),
            head == "INPUT_"@,
            r@ == head + underscored(up@.subrange(0, i as int)),
        decreases up@.len() - i,
    {
        let c = up[i];
        if c == ' ' || c == '.' {
            r.push('_');
        } else {
            r.push(c);
        }
        proof {
            assert(underscored(up@.subrange(0, i + 1)) == underscored(up@.subrange(0, i as int)).push(
                if c == ' ' || c == '.' { '_' } else { c },
            ));
        }
        i = i + 1;
    }
    proof {
        assert(up@.subrange(0, up@.len() as int) == up@);
    }
    r
}

/// Whether the input `key` is set to `true`.
fn input_is_true(inputs: &Vec<(String, String)>, key: &str) -> (b: bool)
    ensures
        b == (input_of(pairs_view(inputs@), key@) == Some("true"@)),
{
    proof {
        reveal_strlit("true");
    }
    match find_input(inputs, key) {
        Some(v) => str_eq(v.as_str(), "true"),
        None => false,
    }
}

fn copy_input(inputs: &Vec<(String, String)>, key: &str) -> (r: Option<String>)
    ensures
        match input_of(pairs_view(inputs@), key@) {
            Some(v) => r matches Some(s) && s@ == v,
            None => r is None,
        },
{
    match find_input(inputs, key) {
        Some(v) => Some(v.clone()),
        None => None,
    }
}

/// The script of a Bash or PowerShell task: the `script` input for an
/// inline target (the default), the `filePath` input for a file target.
pub open spec fn target_script(inputs: Seq<(Seq<char>, Seq<char>)>) -> Result<TaskScriptView, TaskErrorView> {
    let target = match input_of(inputs, "targetType"@) {
        Some(t) => t,
        None => "inline"@,
    };
    if target == "inline"@ {
        match input_of(inputs, "script"@) {
            Some(s) => Ok(TaskScriptView::Inline(s)),
            None => Err(TaskErrorView::MissingInput("script"@)),
        }
    } else if target == "filePath"@ {
        match input_of(inputs, "filePath"@) {
            Some(f) => Ok(TaskScriptView::File(f)),
            None => Err(TaskErrorView::MissingInput("filePath"@)),
        }
    } else {
        Err(TaskErrorView::ExecutionFailed("Unknown targetType: "@ + target))
    }
}

/// A task script as character sequences.
pub enum TaskScriptView {
    Inline(Seq<char>),
    File(Seq<char>),
}

/// A task error that the plan gives, as character sequences.
pub enum TaskErrorView {
    ExecutionFailed(Seq<char>),
    UnsupportedExecution(Seq<char>),
    MissingInput(Seq<char>),
}

impl TaskScript {
    pub open spec fn view(self) -> TaskScriptView {
        match self {
            TaskScript::Inline(s) => TaskScriptView::Inline(s@),
            TaskScript::File(f) => TaskScriptView::File(f@),
        }
    }
}

/// `e` is the error that `v` describes.
pub open spec fn error_is(e: TaskRunnerError, v: TaskErrorView) -> bool {
    match (e, v) {
        (TaskRunnerError::ExecutionFailed(m), TaskErrorView::ExecutionFailed(n)) => m@ == n,
        (TaskRunnerError::UnsupportedExecution(m), TaskErrorView::UnsupportedExecution(n)) => m@ == n,
        (TaskRunnerError::MissingInput(m), TaskErrorView::MissingInput(n)) => m@ == n,
        _ => false,
    }
}

/// The shell configuration of a built-in task: its `workingDirectory`,
/// `failOnStderr` (true only for `true`) and, for PowerShell,
/// `errorActionPreference` inputs.
pub open spec fn task_config(config: ShellConfig, inputs: Seq<(Seq<char>, Seq<char>)>, preference: bool) -> bool {
    &&& match input_of(inputs, "workingDirectory"@) {
        Some(w) => config.working_dir matches Some(x) && x@ == w,
        None => config.working_dir is None,
    }
    &&& config.fail_on_stderr == (input_of(inputs, "failOnStderr"@) == Some("true"@))
    &&& if preference {
        match input_of(inputs, "errorActionPreference"@) {
            Some(p) => config.error_action_preference matches Some(x) && x@ == p,
            None => config.error_action_preference is None,
        }
    } else {
        config.error_action_preference is None
    }
    &&& config.timeout is None
}

fn read_target_script(inputs: &Vec<(String, String)>) -> (r: Result<TaskScript, TaskRunnerError>)
    ensures
        match target_script(pairs_view(inputs@)) {
            Ok(s) => r matches Ok(x) && x.view() == s,
            Err(v) => r matches Err(e) && error_is(e, v),
        },
{
    proof {
        reveal_strlit("inline");
        reveal_strlit("filePath");
    }
    let target = match copy_input(inputs, "targetType") {
        Some(t) => t,
        None => String::from_str("inline"),
    };
    if str_eq(target.as_str(), "inline") {
        match copy_input(inputs, "script") {
            Some(s) => Ok(TaskScript::Inline(s)),
            None => Err(TaskRunnerError::MissingInput(String::from_str("script"))),
        }
    } else if str_eq(target.as_str(), "filePath") {
        match copy_input(inputs, "filePath") {
            Some(f) => Ok(TaskScript::File(f)),
            None => Err(TaskRunnerError::MissingInput(String::from_str("filePath"))),
        }
    } else {
        let mut m = String::from_str("Unknown targetType: ");
        m.append(target.as_str());
        Err(TaskRunnerError::ExecutionFailed(m))
    }
}

fn config_of(inputs: &Vec<(String, String)>, preference: bool) -> (c: ShellConfig)
    ensures
        task_config(c, pairs_view(inputs@), preference),
{
    ShellConfig {
        working_dir: copy_input(inputs, "workingDirectory"),
        fail_on_stderr: input_is_true(inputs, "failOnStderr"),
        error_action_preference: if preference {
            copy_input(inputs, "errorActionPreference")
        } else {
            None
        },
        timeout: None,
    }
}


/// The manifest declares a Node.js handler.
pub open spec fn node_handler(m: crate::manifest::TaskManifest) -> bool {
    m.execution matches Some(e) && (e.node is Some || e.node10 is Some || e.node16 is Some || e.node20 is Some)
}

/// The manifest declares a PowerShell handler.
pub open spec fn powershell_handler(m: crate::manifest::TaskManifest) -> bool {
    m.execution matches Some(e) && (e.powershell is Some || e.powershell3 is Some)
}

/// `r` is how the built-in Bash task runs with `inputs`.
pub open spec fn bash_plan(inputs: Seq<(Seq<char>, Seq<char>)>, r: Result<TaskPlan, TaskRunnerError>) -> bool {
    match target_script(inputs) {
        Ok(s) => r matches Ok(TaskPlan::Script { shell, script, config, display_name }) && shell
            == TaskShell::Bash && script.view() == s && task_config(config, inputs, false)
            && display_name@ == "Bash"@,
        Err(v) => r matches Err(e) && error_is(e, v),
    }
}

/// `r` is how the built-in PowerShell task runs with `inputs`.
pub open spec fn powershell_plan(inputs: Seq<(Seq<char>, Seq<char>)>, r: Result<TaskPlan, TaskRunnerError>) -> bool {
    match target_script(inputs) {
        Ok(s) => r matches Ok(TaskPlan::Script { shell, script, config, display_name }) && shell == (
        if input_of(inputs, "pwsh"@) == Some("true"@) {
            TaskShell::Pwsh
        } else {
            TaskShell::PowerShell
        }) && script.view() == s && task_config(config, inputs, true) && display_name@ == "PowerShell"@,
        Err(v) => r matches Err(e) && error_is(e, v),
    }
}

/// `r` is how the built-in CmdLine task runs with `inputs`.
pub open spec fn cmdline_plan(inputs: Seq<(Seq<char>, Seq<char>)>, r: Result<TaskPlan, TaskRunnerError>) -> bool {
    match input_of(inputs, "script"@) {
        Some(s) => r matches Ok(TaskPlan::Script { shell, script, config, display_name }) && shell
            == TaskShell::Script && script.view() == TaskScriptView::Inline(s) && task_config(
            config,
            inputs,
            false,
        ) && display_name@ == "Command Line"@,
        None => r matches Err(TaskRunnerError::MissingInput(n)) && n@ == "script"@,
    }
}

/// `r` is how `task` runs its own handler with `inputs`, on a runner that
/// has (or lacks) a Node.js executable.
pub open spec fn handler_plan(
    task: CachedTask,
    has_node: bool,
    inputs: Seq<(Seq<char>, Seq<char>)>,
    r: Result<TaskPlan, TaskRunnerError>,
) -> bool {
    if task.manifest.execution matches Some(e) && primary_handler(e) is Some {
        r matches Ok(TaskPlan::Handler { input_env: env, run, display_name, .. }) && pairs_view(env@)
            == input_env(inputs) && display_name == task.manifest.friendly_name && if node_handler(
            task.manifest,
        ) {
            if has_node {
                run matches Ok(HandlerRun::Node)
            } else {
                run matches Err(TaskRunnerError::ExecutionFailed(m)) && m@ == "Node.js not found"@
            }
        } else if powershell_handler(task.manifest) {
            run matches Ok(HandlerRun::PowerShell)
        } else {
            run matches Err(TaskRunnerError::UnsupportedExecution(m)) && m@ == "Unknown execution type for task: "@
                + task.name@
        }
    } else {
        r matches Err(TaskRunnerError::UnsupportedExecution(m)) && m@ == "No execution defined"@
    }
}

/// Task runner for Azure DevOps tasks: the cache its tasks come from, the
/// shell runner, and the interpreters found for handlers.
pub struct TaskRunner {
    cache: TaskCache,
    shell_runner: ShellRunner,
    node_path: Option<PathBuf>,
    powershell_path: Option<PathBuf>,
}

impl TaskRunner {
    pub closed spec fn node(&self) -> Option<PathBuf> {
        self.node_path
    }

    pub closed spec fn powershell(&self) -> Option<PathBuf> {
        self.powershell_path
    }

    /// The task cache that this runner reads tasks from.
    pub closed spec fn task_cache(&self) -> TaskCache {
        self.cache
    }

    /// The runner of shell scripts.
    pub closed spec fn shells(&self) -> ShellRunner {
        self.shell_runner
    }

    /// A runner over a cache in `cache_dir`, with the interpreters that were
    /// found on this machine.
    pub fn new(cache_dir: PathBuf, node_path: Option<PathBuf>, powershell_path: Option<PathBuf>) -> (r: Self)
        ensures
            r.node() == node_path,
            r.powershell() == powershell_path,
            r.task_cache().configuration().cache_dir == cache_dir,
            r.task_cache().configuration().allow_download,
            r.task_cache().configuration().task_sources@.len() == 1,
            r.shells().default_shell == Shell::Default,
    {
        TaskRunner {
            cache: TaskCache::with_cache_dir(cache_dir),
            shell_runner: ShellRunner::new(),
            node_path,
            powershell_path,
        }
    }

    /// A runner over a given cache, with the interpreters that were found on
    /// this machine.
    pub fn with_cache(cache: TaskCache, node_path: Option<PathBuf>, powershell_path: Option<PathBuf>) -> (r: Self)
        ensures
            r.node() == node_path,
            r.powershell() == powershell_path,
            r.task_cache() == cache,
            r.shells().default_shell == Shell::Default,
    {
        TaskRunner { cache, shell_runner: ShellRunner::new(), node_path, powershell_path }
    }

    /// Sets the Node.js executable.
    pub fn with_node_path(self, path: PathBuf) -> (r: Self)
        ensures
            r.node() == Some(path),
            r.powershell() == self.powershell(),
            r.task_cache() == self.task_cache(),
            r.shells() == self.shells(),
    {
        let mut r = self;
        r.node_path = Some(path);
        r
    }

    /// Sets the PowerShell executable.
    pub fn with_powershell_path(self, path: PathBuf) -> (r: Self)
        ensures
            r.powershell() == Some(path),
            r.node() == self.node(),
            r.task_cache() == self.task_cache(),
            r.shells() == self.shells(),
    {
        let mut r = self;
        r.powershell_path = Some(path);
        r
    }

    /// The Node.js executable, if one was found.
    pub fn node_path(&self) -> (r: &Option<PathBuf>)
        ensures
            *r == self.node(),
    {
        &self.node_path
    }

    /// The PowerShell executable, if one was found.
    pub fn powershell_path(&self) -> (r: &Option<PathBuf>)
        ensures
            *r == self.powershell(),
    {
        &self.powershell_path
    }

    /// The task cache.
    pub fn cache(&self) -> (r: &TaskCache)
        ensures
            *r == self.task_cache(),
    {
        &self.cache
    }

    /// The shell runner.
    pub fn shell_runner(&self) -> (r: &ShellRunner)
        ensures
            *r == self.shells(),
    {
        &self.shell_runner
    }

    /// Checks that every required input is provided: by name or alias, by a
    /// default, or hidden by a visibility rule whose input is not provided.
    /// The first input (in manifest order) that is missing is reported.
    pub fn validate_inputs(&self, task: &CachedTask, inputs: &Vec<(String, String)>) -> (r: Result<(), TaskRunnerError>)
        ensures
            match first_missing(task.manifest.inputs@, pairs_view(inputs@)) {
                Some(i) => r matches Err(TaskRunnerError::MissingInput(n)) && n@ == task.manifest.inputs@[i].name@,
                None => r is Ok,
            },
    {
        let ghost decl = task.manifest.inputs@;
        let ghost pv = pairs_view(inputs@);
        let mut i: usize = 0;
        while i < task.manifest.inputs.len()
            invariant
                i <= decl.len(),
                decl == task.manifest.inputs@,
                pv == pairs_view(inputs@),
                first_missing(decl.subrange(0, i as int), pv) is None,
            decreases decl.len() - i,
        {
            let ghost pre = decl.subrange(0, i + 1);
            proof {
                assert(pre.drop_last() == decl.subrange(0, i as int));
                assert(pre.last() == decl[i as int]);
            }
            if is_missing(&task.manifest.inputs[i], inputs) {
                proof {
                    assert(first_missing(pre, pv) == Some(i as int));
                    lemma_first_missing_prefix(decl, pv, i as int + 1);
                }
                return Err(TaskRunnerError::MissingInput(task.manifest.inputs[i].name.clone()));
            }
            i = i + 1;
        }
        proof {
            assert(decl.subrange(0, decl.len() as int) == decl);
        }
        Ok(())
    }

    /// The inputs the task runs with: the manifest's defaults, each provided
    /// input replacing the default of its name or added after them.
    pub fn merge_inputs(&self, task: &CachedTask, inputs: &Vec<(String, String)>) -> (r: Vec<(String, String)>)
        ensures
            pairs_view(r@) == insert_all(
                insert_all(Seq::empty(), default_pairs(task.manifest.inputs@)),
                pairs_view(inputs@),
            ),
    {
        let defaults = task.manifest.default_values();
        let mut merged: Vec<(String, String)> = defaults;
        let ghost base = pairs_view(merged@);
        let ghost iv = pairs_view(inputs@);
        let mut j: usize = 0;
        while j < inputs.len()
            invariant
                j <= inputs@.len(),
                iv == pairs_view(inputs@),
                base == insert_all(Seq::empty(), default_pairs(task.manifest.inputs@)),
                pairs_view(merged@) == insert_all(base, iv.subrange(0, j as int)),
            decreases inputs@.len() - j,
        {
            proof {
                assert(iv.subrange(0, j + 1).drop_last() == iv.subrange(0, j as int));
            }
            set_input(&mut merged, inputs[j].0.clone(), inputs[j].1.clone());
            j = j + 1;
        }
        proof {
            assert(iv.subrange(0, iv.len() as int) == iv);
        }
        merged
    }

    /// How the built-in Bash task runs: its script (inline or from a file)
    /// under bash, with the configuration its inputs give.
    pub fn bash_task(&self, inputs: &Vec<(String, String)>) -> (r: Result<TaskPlan, TaskRunnerError>)
        ensures
            bash_plan(pairs_view(inputs@), r),
    {
        let script = match read_target_script(inputs) {
            Ok(s) => s,
            Err(e) => return Err(e),
        };
        Ok(TaskPlan::Script {
            shell: TaskShell::Bash,
            script,
            config: config_of(inputs, false),
            display_name: String::from_str("Bash"),
        })
    }

    /// How the built-in PowerShell task runs: its script (inline or from a
    /// file) under `pwsh` when the `pwsh` input is `true`, else under
    /// Windows PowerShell, with the configuration its inputs give.
    pub fn powershell_task(&self, inputs: &Vec<(String, String)>) -> (r: Result<TaskPlan, TaskRunnerError>)
        ensures
            powershell_plan(pairs_view(inputs@), r),
    {
        let use_pwsh = input_is_true(inputs, "pwsh");
        let script = match read_target_script(inputs) {
            Ok(s) => s,
            Err(e) => return Err(e),
        };
        Ok(TaskPlan::Script {
            shell: if use_pwsh { TaskShell::Pwsh } else { TaskShell::PowerShell },
            script,
            config: config_of(inputs, true),
            display_name: String::from_str("PowerShell"),
        })
    }

    /// How the built-in CmdLine task runs: its `script` input under the
    /// default shell, with the configuration its inputs give.
    pub fn cmdline_task(&self, inputs: &Vec<(String, String)>) -> (r: Result<TaskPlan, TaskRunnerError>)
        ensures
            cmdline_plan(pairs_view(inputs@), r),
    {
        let script = match copy_input(inputs, "script") {
            Some(s) => s,
            None => return Err(TaskRunnerError::MissingInput(String::from_str("script"))),
        };
        Ok(TaskPlan::Script {
            shell: TaskShell::Script,
            script: TaskScript::Inline(script),
            config: config_of(inputs, false),
            display_name: String::from_str("Command Line"),
        })
    }

    /// How a task runs its own handler: the handler's target under the task
    /// directory, the inputs as `INPUT_` environment entries, and the
    /// interpreter: Node.js for a Node handler (an error if none was found),
    /// PowerShell for a PowerShell handler, else an unsupported execution.
    /// A manifest without a handler is an unsupported execution.
    pub fn generic_task(&self, task: &CachedTask, inputs: &Vec<(String, String)>) -> (r: Result<TaskPlan, TaskRunnerError>)
        ensures
            handler_plan(*task, self.node() is Some, pairs_view(inputs@), r),
    {
        let target = match task.execution_target() {
            Some(t) => t,
            None => return Err(TaskRunnerError::UnsupportedExecution(String::from_str("No execution defined"))),
        };
        let mut env: Vec<(String, String)> = Vec::new();
        let ghost iv = pairs_view(inputs@);
        let mut i: usize = 0;
        while i < inputs.len()
            invariant
                i <= inputs@.len(),
                iv == pairs_view(inputs@),
                pairs_view(env@) == input_env(iv.subrange(0, i as int)),
            decreases inputs@.len() - i,
        {
            let k = input_env_key(&inputs[i].0);
            let ghost before = pairs_view(env@);
            env.push((k, inputs[i].1.clone()));
            proof {
                assert(pairs_view(env@) =~= before.push((k@, inputs@[i as int].1@)));
                assert(input_env(iv.subrange(0, i + 1)) =~= input_env(iv.subrange(0, i as int)).push(
                    (input_env_name(iv[i as int].0), iv[i as int].1),
                ));
            }
            i = i + 1;
        }
        proof {
            assert(iv.subrange(0, iv.len() as int) == iv);
        }
        let run = if task.manifest.is_node_task() {
            match &self.node_path {
                Some(_) => Ok(HandlerRun::Node),
                None => Err(TaskRunnerError::ExecutionFailed(String::from_str("Node.js not found"))),
            }
        } else if task.manifest.is_powershell_task() {
            Ok(HandlerRun::PowerShell)
        } else {
            let mut m = String::from_str("Unknown execution type for task: ");
            m.append(task.name.as_str());
            Err(TaskRunnerError::UnsupportedExecution(m))
        };
        Ok(TaskPlan::Handler {
            target,
            input_env: env,
            run,
            display_name: crate::models::clone_opt_string(&task.manifest.friendly_name),
        })
    }

    /// How a task runs, by its name: the built-in Bash, PowerShell and
    /// CmdLine tasks run their script; any other task its own handler.
    pub fn task_plan(&self, task: &CachedTask, inputs: &Vec<(String, String)>) -> (r: Result<TaskPlan, TaskRunnerError>)
        ensures
            task.name@ == "Bash"@ ==> bash_plan(pairs_view(inputs@), r),
            task.name@ == "PowerShell"@ ==> powershell_plan(pairs_view(inputs@), r),
            task.name@ == "CmdLine"@ ==> cmdline_plan(pairs_view(inputs@), r),
            task.name@ != "Bash"@ && task.name@ != "PowerShell"@ && task.name@ != "CmdLine"@ ==> handler_plan(
                *task,
                self.node() is Some,
                pairs_view(inputs@),
                r,
            ),
    {
        proof {
            reveal_strlit("Bash");
            reveal_strlit("PowerShell");
            reveal_strlit("CmdLine");
            assert("PowerShell"@.len() != "Bash"@.len());
            assert("CmdLine"@.len() != "Bash"@.len());
            assert("CmdLine"@.len() != "PowerShell"@.len());
        }
        if str_eq(task.name.as_str(), "Bash") {
            self.bash_task(inputs)
        } else if str_eq(task.name.as_str(), "PowerShell") {
            self.powershell_task(inputs)
        } else if str_eq(task.name.as_str(), "CmdLine") {
            self.cmdline_task(inputs)
        } else {
            self.generic_task(task, inputs)
        }
    }
}

/// No key occurs twice.
pub open spec fn keys_unique(p: Seq<(Seq<char>, Seq<char>)>) -> bool {
    forall|i: int, j: int| 0 <= i < j < p.len() ==> p[i].0 != p[j].0
}

proof fn lemma_input_of_unique(p: Seq<(Seq<char>, Seq<char>)>, key: Seq<char>)
    requires
        keys_unique(p),
    ensures
        forall|i: int| 0 <= i < p.len() && p[i].0 == key ==> input_of(p, key) == Some(p[i].1),
        (forall|i: int| 0 <= i < p.len() ==> p[i].0 != key) ==> input_of(p, key) is None,
    decreases p.len(),
{
    if p.len() > 0 {
        let d = p.drop_last();
        assert(keys_unique(d)) by {
            assert forall|i: int, j: int| 0 <= i < j < d.len() implies d[i].0 != d[j].0 by {
                assert(d[i] == p[i] && d[j] == p[j]);
            }
        }
        lemma_input_of_unique(d, key);
        assert forall|i: int| 0 <= i < d.len() implies d[i] == p[i] by {}
    }
}

pub(crate) proof fn lemma_pair_insert(p: Seq<(Seq<char>, Seq<char>)>, k: Seq<char>, v: Seq<char>, key: Seq<char>)
    requires
        keys_unique(p),
    ensures
        keys_unique(pair_insert(p, k, v)),
        input_of(pair_insert(p, k, v), key) == if key == k {
            Some(v)
        } else {
            input_of(p, key)
        },
{
    lemma_pair_index(p, k);
    let q = pair_insert(p, k, v);
    match pair_index(p, k) {
        Some(i) => {
            assert(q == p.update(i, (k, v)));
        },
        None => {
            assert(q == p.push((k, v)));
        },
    }
    assert(keys_unique(q));
    lemma_input_of_unique(p, key);
    lemma_input_of_unique(q, key);
    if key == k {
        match pair_index(p, k) {
            Some(i) => assert(q[i].0 == key),
            None => assert(q[q.len() - 1].0 == key),
        }
    } else {
        if exists|j: int| 0 <= j < p.len() && p[j].0 == key {
            let j = choose|j: int| 0 <= j < p.len() && p[j].0 == key;
            assert(q[j] == p[j]);
        } else {
            assert forall|j: int| 0 <= j < q.len() implies q[j].0 != key by {
                if j < p.len() {
                    assert(q[j].0 == p[j].0 || q[j].0 == k);
                }
            }
        }
    }
}

proof fn lemma_insert_all(acc: Seq<(Seq<char>, Seq<char>)>, more: Seq<(Seq<char>, Seq<char>)>, key: Seq<char>)
    requires
        keys_unique(acc),
    ensures
        keys_unique(insert_all(acc, more)),
        input_of(insert_all(acc, more), key) == match input_of(more, key) {
            Some(v) => Some(v),
            None => input_of(acc, key),
        },
    decreases more.len(),
{
    if more.len() > 0 {
        let d = more.drop_last();
        lemma_insert_all(acc, d, key);
        lemma_pair_insert(insert_all(acc, d), more.last().0, more.last().1, key);
    }
}

/// The inputs a task runs with give, for each name, the value provided last
/// for it, else the manifest's default for it (the last one declared).
pub proof fn lemma_provided_inputs_override_defaults(
    defaults: Seq<(Seq<char>, Seq<char>)>,
    provided: Seq<(Seq<char>, Seq<char>)>,
    key: Seq<char>,
)
    ensures
        input_of(insert_all(insert_all(Seq::empty(), defaults), provided), key) == match input_of(
            provided,
            key,
        ) {
            Some(v) => Some(v),
            None => input_of(defaults, key),
        },
{
    let empty = Seq::<(Seq<char>, Seq<char>)>::empty();
    assert(keys_unique(empty));
    lemma_insert_all(empty, defaults, key);
    lemma_insert_all(insert_all(empty, defaults), provided, key);
}

proof fn lemma_first_missing_prefix(inputs: Seq<TaskInput>, provided: Seq<(Seq<char>, Seq<char>)>, j: int)
    requires
        0 <= j <= inputs.len(),
        first_missing(inputs.subrange(0, j), provided) is Some,
    ensures
        first_missing(inputs, provided) == first_missing(inputs.subrange(0, j), provided),
    decreases inputs.len() - j,
{
    if j < inputs.len() {
        let next = inputs.subrange(0, j + 1);
        assert(next.drop_last() == inputs.subrange(0, j));
        lemma_first_missing_prefix(inputs, provided, j + 1);
    } else {
        assert(inputs.subrange(0, j) == inputs);
    }
}

} // verus!
