//! What the shell runner decides around the processes it starts: which
//! program runs a script, how a PowerShell script is prefixed, how a finished
//! command becomes a step result, and which logging commands its output
//! carries.

use vstd::prelude::*;
use std::collections::HashMap;
use std::time::Duration;
use crate::execution::{prop_flags, SetVariable};
use crate::models::{StepResult, StepStatus};
use crate::template::str_eq;
use crate::text::{
    chars_of, find, find_exec, lines, lines_of, occurs_at_exec, slice_chars, split, split_str,
    starts_with, string_from, trim, trim_chars,
};

verus! {

broadcast use vstd::string::group_string_axioms;

/// Shell types supported by the runner.
#[derive(Debug, Clone, Copy, PartialEq, Eq, Structural)]
pub enum Shell {
    /// Default shell (sh on Unix, cmd on Windows)
    Default,
    /// Bash shell
    Bash,
    /// PowerShell Core (cross-platform)
    Pwsh,
    /// Windows PowerShell (Windows only, falls back to pwsh)
    PowerShell,
}

/// The program that runs a shell's scripts and the arguments before the
/// script, on Windows or elsewhere.
pub open spec fn shell_command(shell: Shell, on_windows: bool) -> (Seq<char>, Seq<Seq<char>>) {
    match shell {
        Shell::Default => if on_windows {
            ("cmd"@, seq!["/C"@])
        } else {
            ("sh"@, seq!["-c"@])
        },
        Shell::Bash => ("bash"@, seq!["-c"@]),
        Shell::Pwsh => ("pwsh"@, seq!["-NoLogo"@, "-NoProfile"@, "-Command"@]),
        Shell::PowerShell => if on_windows {
            ("powershell.exe"@, seq!["-NoLogo"@, "-NoProfile"@, "-Command"@])
        } else {
            ("pwsh"@, seq!["-NoLogo"@, "-NoProfile"@, "-Command"@])
        },
    }
}

fn words(a: &'static str) -> (v: Vec<&'static str>)
    ensures
        v@.map_values(|s: &str| s@) == seq![a@],
{
    let mut v = Vec::new();
    v.push(a);
    assert(v@.map_values(|s: &str| s@) =~= seq![a@]);
    v
}

fn pwsh_flags() -> (v: Vec<&'static str>)
    ensures
        v@.map_values(|s: &str| s@) == seq!["-NoLogo"@, "-NoProfile"@, "-Command"@],
{
    let mut v = Vec::new();
    v.push("-NoLogo");
    v.push("-NoProfile");
    v.push("-Command");
    assert(v@.map_values(|s: &str| s@) =~= seq!["-NoLogo"@, "-NoProfile"@, "-Command"@]);
    v
}

impl Shell {
    /// Get the shell executable and arguments (Windows PowerShell falls back
    /// to `pwsh` off Windows; the default shell is `cmd /C` on Windows).
    pub fn get_command(&self, on_windows: bool) -> (r: (&'static str, Vec<&'static str>))
        ensures
            (r.0@, r.1@.map_values(|s: &str| s@)) == shell_command(*self, on_windows),
    {
        match self {
            Shell::Default => {
                if on_windows {
                    ("cmd", words("/C"))
                } else {
                    ("sh", words("-c"))
                }
            },
            Shell::Bash => ("bash", words("-c")),
            Shell::Pwsh => ("pwsh", pwsh_flags()),
            Shell::PowerShell => {
                if on_windows {
                    ("powershell.exe", pwsh_flags())
                } else {
                    ("pwsh", pwsh_flags())
                }
            },
        }
    }
}

/// Configuration for shell execution.
#[derive(Debug, Clone)]
pub struct ShellConfig {
    /// Working directory for the script
    pub working_dir: Option<String>,
    /// Fail if there's output to stderr
    pub fail_on_stderr: bool,
    /// Error action preference (for PowerShell)
    pub error_action_preference: Option<String>,
    /// Timeout in seconds (None = no timeout)
    pub timeout: Option<Duration>,
}

impl Default for ShellConfig {
    fn default() -> (c: Self)
        ensures
            c.working_dir is None,
            !c.fail_on_stderr,
            c.error_action_preference is None,
            c.timeout is None,
    {
        ShellConfig { working_dir: None, fail_on_stderr: false, error_action_preference: None, timeout: None }
    }
}

/// A PowerShell script as it is run: prefixed with the error action
/// preference when the configuration sets one.
pub open spec fn powershell_script_text(preference: Option<Seq<char>>, script: Seq<char>) -> Seq<char> {
    match preference {
        Some(p) => "$ErrorActionPreference = "@ + seq!['\''] + p + seq!['\'', '\n'] + script,
        None => script,
    }
}

pub fn powershell_script(config: &ShellConfig, script: &str) -> (r: String)
    ensures
        r@ == powershell_script_text(
            match config.error_action_preference {
                Some(p) => Some(p@),
                None => None,
            },
            script@,
        ),
{
    match &config.error_action_preference {
        Some(p) => {
            let mut r = String::from_str("$ErrorActionPreference = ");
            r.push('\'');
            r.append(p.as_str());
            r.push('\'');
            r.push('\n');
            r.append(script);
            r
        },
        None => String::from_str(script),
    }
}

/// The runner's choice of default shell.
#[derive(Debug, Clone, Copy)]
pub struct ShellRunner {
    pub default_shell: Shell,
}

impl ShellRunner {
    /// Create a new shell runner with the default shell.
    pub fn new() -> (r: Self)
        ensures
            r.default_shell == Shell::Default,
    {
        ShellRunner { default_shell: Shell::Default }
    }

    /// Create a shell runner with a specific default shell.
    pub fn with_default_shell(shell: Shell) -> (r: Self)
        ensures
            r.default_shell == shell,
    {
        ShellRunner { default_shell: shell }
    }

    /// The status of a finished script: failed without an exit code or with a
    /// non-zero one, or with standard error output under `failOnStderr`.
    pub open spec fn status_of(exit_code: Option<i32>, fail_on_stderr: bool, stderr: Seq<char>) -> StepStatus {
        if match exit_code {
            Some(c) => c != 0,
            None => true,
        } {
            StepStatus::Failed
        } else if fail_on_stderr && stderr.len() > 0 {
            StepStatus::Failed
        } else {
            StepStatus::Succeeded
        }
    }

    /// A script succeeds exactly when it exited with code 0 and did not
    /// write to standard error under `failOnStderr`; otherwise it failed
    /// (a non-zero code, or no code at all, always fails).
    pub proof fn lemma_script_status(exit_code: Option<i32>, fail_on_stderr: bool, stderr: Seq<char>)
        ensures
            Self::status_of(exit_code, fail_on_stderr, stderr) == StepStatus::Succeeded <==> (exit_code
                == Some(0i32) && !(fail_on_stderr && stderr.len() > 0)),
            Self::status_of(exit_code, fail_on_stderr, stderr) == StepStatus::Succeeded || Self::status_of(
                exit_code,
                fail_on_stderr,
                stderr,
            ) == StepStatus::Failed,
            forall|c: i32| c != 0 && exit_code == Some(c) ==> Self::status_of(exit_code, fail_on_stderr, stderr)
                == StepStatus::Failed,
    {
    }

    /// Convert what a finished script produced to a step result: standard
    /// output becomes the output, non-empty standard error the error.
    pub fn to_step_result(
        &self,
        stdout: String,
        stderr: String,
        exit_code: Option<i32>,
        outputs: HashMap<String, String>,
        step_name: Option<String>,
        display_name: Option<String>,
        fail_on_stderr: bool,
        duration: Duration,
    ) -> (r: StepResult)
        ensures
            r.status == Self::status_of(exit_code, fail_on_stderr, stderr@),
            r.output == stdout,
            if stderr@.len() == 0 {
                r.error is None
            } else {
                r.error == Some(stderr)
            },
            r.step_name == step_name,
            r.display_name == display_name,
            r.duration == duration,
            r.exit_code == exit_code,
            r.outputs == outputs,
    {
        let failed_exit = match exit_code {
            Some(c) => c != 0,
            None => true,
        };
        let stderr_empty = stderr.as_str().unicode_len() == 0;
        let status = if failed_exit {
            StepStatus::Failed
        } else if fail_on_stderr && !stderr_empty {
            StepStatus::Failed
        } else {
            StepStatus::Succeeded
        };
        StepResult {
            step_name,
            display_name,
            status,
            output: stdout,
            error: if stderr_empty {
                None
            } else {
                Some(stderr)
            },
            duration,
            exit_code,
            outputs,
        }
    }
}

// ---------------------------------------------------------------------------
// Logging commands the shell runner understands
// ---------------------------------------------------------------------------

/// A logging command in a script's output.
#[derive(Debug, Clone)]
pub enum LoggingCommand {
    /// `##vso[task.setvariable ...]value` (also spelled `setVariable`)
    SetVariable(SetVariable),
    /// `##vso[task.prependpath]path`
    PrependPath(String),
    /// `##vso[task.uploadfile]path`
    UploadFile(String),
    /// `##vso[build.addbuildtag]tag`
    AddBuildTag(String),
    /// `##vso[task.complete result=...]`: the result named last
    TaskResult(String),
}

/// A logging command as character sequences.
pub enum LoggingCommandView {
    SetVariable(Seq<char>, Seq<char>, bool, bool),
    PrependPath(Seq<char>),
    UploadFile(Seq<char>),
    AddBuildTag(Seq<char>),
    TaskResult(Seq<char>),
}

impl LoggingCommand {
    pub open spec fn view(self) -> LoggingCommandView {
        match self {
            LoggingCommand::SetVariable(c) => LoggingCommandView::SetVariable(
                c.name@,
                c.value@,
                c.is_output,
                c.is_secret,
            ),
            LoggingCommand::PrependPath(p) => LoggingCommandView::PrependPath(p@),
            LoggingCommand::UploadFile(p) => LoggingCommandView::UploadFile(p@),
            LoggingCommand::AddBuildTag(t) => LoggingCommandView::AddBuildTag(t@),
            LoggingCommand::TaskResult(r) => LoggingCommandView::TaskResult(r@),
        }
    }
}

/// A set-variable command's body (after the command name): properties up to
/// the first `]`, value after it; nothing without a variable name.
pub open spec fn set_variable_body(rest: Seq<char>) -> Option<LoggingCommandView> {
    match find(rest, "]"@) {
        Some(p) => {
            let (v, o, s) = prop_flags(split(rest.subrange(0, p), ";"@));
            match v {
                Some(name) => Some(
                    LoggingCommandView::SetVariable(name, rest.subrange(p + 1, rest.len() as int), o, s),
                ),
                None => None,
            }
        },
        None => None,
    }
}

/// The result that the properties of a task-complete command name last.
pub open spec fn last_result(props: Seq<Seq<char>>) -> Option<Seq<char>>
    decreases props.len(),
{
    if props.len() == 0 {
        None
    } else {
        let p = trim(props.last());
        if starts_with(p, "result="@) {
            Some(p.subrange("result="@.len() as int, p.len() as int))
        } else {
            last_result(props.drop_last())
        }
    }
}

/// The text of `line` after `prefix`.
pub open spec fn after(line: Seq<char>, prefix: Seq<char>) -> Seq<char> {
    line.subrange(prefix.len() as int, line.len() as int)
}

/// The logging command on one line of a script's output, if any.
pub open spec fn runner_line_command(line: Seq<char>) -> Option<LoggingCommandView> {
    if starts_with(line, "##vso[task.setvariable"@) {
        set_variable_body(after(line, "##vso[task.setvariable"@))
    } else if starts_with(line, "##vso[task.setVariable"@) {
        set_variable_body(after(line, "##vso[task.setVariable"@))
    } else if starts_with(line, "##vso[task.prependpath]"@) {
        Some(LoggingCommandView::PrependPath(after(line, "##vso[task.prependpath]"@)))
    } else if starts_with(line, "##vso[task.uploadfile]"@) {
        Some(LoggingCommandView::UploadFile(after(line, "##vso[task.uploadfile]"@)))
    } else if starts_with(line, "##vso[build.addbuildtag]"@) {
        Some(LoggingCommandView::AddBuildTag(after(line, "##vso[build.addbuildtag]"@)))
    } else if starts_with(line, "##vso[task.complete"@) {
        let rest = after(line, "##vso[task.complete"@);
        match find(rest, "]"@) {
            Some(p) => match last_result(split(rest.subrange(0, p), ";"@)) {
                Some(r) => Some(LoggingCommandView::TaskResult(r)),
                None => None,
            },
            None => None,
        }
    } else {
        None
    }
}

/// Each logging command read back from the line that writes it: a path to
/// prepend, a file to upload and a build tag are the whole text after the
/// command; a set-variable command (either spelling) is what its body says.
pub proof fn lemma_runner_command_lines(t: Seq<char>)
    ensures
        runner_line_command("##vso[task.prependpath]"@ + t) == Some(LoggingCommandView::PrependPath(t)),
        runner_line_command("##vso[task.uploadfile]"@ + t) == Some(LoggingCommandView::UploadFile(t)),
        runner_line_command("##vso[build.addbuildtag]"@ + t) == Some(LoggingCommandView::AddBuildTag(t)),
        runner_line_command("##vso[task.setvariable"@ + t) == set_variable_body(t),
        runner_line_command("##vso[task.setVariable"@ + t) == set_variable_body(t),
{
    let sv = "##vso[task.setvariable"@;
    let sv2 = "##vso[task.setVariable"@;
    let pp = "##vso[task.prependpath]"@;
    let uf = "##vso[task.uploadfile]"@;
    let ab = "##vso[build.addbuildtag]"@;
    reveal_strlit("##vso[task.setvariable");
    reveal_strlit("##vso[task.setVariable");
    reveal_strlit("##vso[task.prependpath]");
    reveal_strlit("##vso[task.uploadfile]");
    reveal_strlit("##vso[build.addbuildtag]");
    crate::text::lemma_starts_with_prefix(sv, t, sv, 0);
    crate::text::lemma_starts_with_prefix(sv2, t, sv, 14);
    crate::text::lemma_starts_with_prefix(sv2, t, sv2, 0);
    crate::text::lemma_starts_with_prefix(pp, t, sv, 11);
    crate::text::lemma_starts_with_prefix(pp, t, sv2, 11);
    crate::text::lemma_starts_with_prefix(pp, t, pp, 0);
    crate::text::lemma_starts_with_prefix(uf, t, sv, 11);
    crate::text::lemma_starts_with_prefix(uf, t, sv2, 11);
    crate::text::lemma_starts_with_prefix(uf, t, pp, 11);
    crate::text::lemma_starts_with_prefix(uf, t, uf, 0);
    crate::text::lemma_starts_with_prefix(ab, t, sv, 6);
    crate::text::lemma_starts_with_prefix(ab, t, sv2, 6);
    crate::text::lemma_starts_with_prefix(ab, t, pp, 6);
    crate::text::lemma_starts_with_prefix(ab, t, uf, 6);
    crate::text::lemma_starts_with_prefix(ab, t, ab, 0);
    assert(after(sv + t, sv) =~= t);
    assert(after(sv2 + t, sv2) =~= t);
    assert(after(pp + t, pp) =~= t);
    assert(after(uf + t, uf) =~= t);
    assert(after(ab + t, ab) =~= t);
}

/// A set-variable body read back: `<props>]<value>`, with no `]` in the
/// properties, is the command the properties describe with exactly that
/// value, and nothing where no property names the variable.
pub proof fn lemma_set_variable_body(props: Seq<char>, value: Seq<char>)
    requires
        !props.contains(']'),
    ensures
        ({
            let (v, o, s) = prop_flags(split(props, ";"@));
            set_variable_body(props + "]"@ + value) == match v {
                Some(n) => Some(LoggingCommandView::SetVariable(n, value, o, s)),
                None => None,
            }
        }),
{
    reveal_strlit("]");
    let rest = props + "]"@ + value;
    assert forall|k: int| 0 <= k < props.len() implies rest[k] != ']' by {
        assert(rest[k] == props[k]);
        if props[k] == ']' {
            assert(props.contains(']'));
        }
    }
    assert(rest[props.len() as int] == ']');
    crate::text::lemma_find_char(rest, ']', props.len() as int);
    assert("]"@ =~= seq![']']);
    assert(find(rest, "]"@) == Some(props.len() as int));
    assert(rest.subrange(0, props.len() as int) =~= props);
    assert(rest.subrange(props.len() as int + 1, rest.len() as int) =~= value);
}

/// The logging commands of a list of output lines, in order.
pub open spec fn runner_commands(ls: Seq<Seq<char>>) -> Seq<LoggingCommandView>
    decreases ls.len(),
{
    if ls.len() == 0 {
        Seq::empty()
    } else {
        runner_commands(ls.drop_last()) + match runner_line_command(ls.last()) {
            Some(c) => seq![c],
            None => Seq::empty(),
        }
    }
}

fn begins_with(v: &[char], lit: &str) -> (b: bool)
    ensures
        b == starts_with(v@, lit@),
{
    let p = chars_of(lit);
    let b = occurs_at_exec(v, p.as_slice(), 0);
    b
}

fn rest_after(v: &[char], lit: &str) -> (r: Vec<char>)
    requires
        starts_with(v@, lit@),
    ensures
        r@ == after(v@, lit@),
{
    let n = lit.unicode_len();
    slice_chars(v, n, v.len())
}

fn parse_set_variable_body(rest: &[char]) -> (r: Option<LoggingCommand>)
    ensures
        match r {
            Some(c) => set_variable_body(rest@) == Some(c.view()),
            None => set_variable_body(rest@) is None,
        },
{
    let close = chars_of("]");
    let p = match find_exec(rest, close.as_slice()) {
        Some(p) => p,
        None => {
            return None;
        },
    };
    proof {
        reveal_strlit("]");
        assert("]"@.len() == 1);
        reveal_strlit(";");
        assert(";"@.len() == 1);
    }
    let n = rest.len();
    assert(p + 1 <= n);
    let props = string_from(slice_chars(rest, 0, p).as_slice());
    let value = string_from(slice_chars(rest, p + 1, n).as_slice());
    let pieces = split_str(props.as_str(), ";");
    let ghost pv = pieces@.map_values(|q: String| q@);
    let mut name: Option<String> = None;
    let mut is_output = false;
    let mut is_secret = false;
    let mut k: usize = 0;
    while k < pieces.len()
        invariant
            k <= pieces@.len(),
            pv == pieces@.map_values(|q: String| q@),
            prop_flags(pv.subrange(0, k as int)) == (
                match name {
                    Some(n) => Some(n@),
                    None => None::<Seq<char>>,
                },
                is_output,
                is_secret,
            ),
        decreases pieces@.len() - k,
    {
        let prop = trim_chars(chars_of(pieces[k].as_str()).as_slice());
        proof {
            reveal_strlit("variable=");
            assert("variable="@.len() == 9);
            let pre = pv.subrange(0, k + 1);
            assert(pre.drop_last() == pv.subrange(0, k as int));
            assert(pre.last() == pieces@[k as int]@);
        }
        if begins_with(prop.as_slice(), "variable=") {
            name = Some(string_from(slice_chars(prop.as_slice(), 9, prop.len()).as_slice()));
        } else if crate::text::chars_eq_str(prop.as_slice(), "isoutput=true")
            || crate::text::chars_eq_str(prop.as_slice(), "isOutput=true") {
            is_output = true;
        } else if crate::text::chars_eq_str(prop.as_slice(), "issecret=true")
            || crate::text::chars_eq_str(prop.as_slice(), "isSecret=true") {
            is_secret = true;
        }
        k = k + 1;
    }
    assert(pv.subrange(0, pieces@.len() as int) == pv);
    match name {
        Some(n) => Some(LoggingCommand::SetVariable(SetVariable { name: n, value, is_output, is_secret })),
        None => None,
    }
}

fn parse_task_complete(rest: &[char]) -> (r: Option<String>)
    ensures
        match r {
            Some(x) => (match find(rest@, "]"@) {
                Some(p) => last_result(split(rest@.subrange(0, p), ";"@)),
                None => None,
            }) == Some(x@),
            None => (match find(rest@, "]"@) {
                Some(p) => last_result(split(rest@.subrange(0, p), ";"@)),
                None => None,
            }) is None,
        },
{
    let close = chars_of("]");
    let p = match find_exec(rest, close.as_slice()) {
        Some(p) => p,
        None => {
            return None;
        },
    };
    proof {
        reveal_strlit(";");
        assert(";"@.len() == 1);
    }
    let props = string_from(slice_chars(rest, 0, p).as_slice());
    let pieces = split_str(props.as_str(), ";");
    let ghost pv = pieces@.map_values(|q: String| q@);
    let mut result: Option<String> = None;
    let mut k: usize = 0;
    while k < pieces.len()
        invariant
            k <= pieces@.len(),
            pv == pieces@.map_values(|q: String| q@),
            last_result(pv.subrange(0, k as int)) == match result {
                Some(x) => Some(x@),
                None => None::<Seq<char>>,
            },
        decreases pieces@.len() - k,
    {
        let prop = trim_chars(chars_of(pieces[k].as_str()).as_slice());
        proof {
            reveal_strlit("result=");
            assert("result="@.len() == 7);
            let pre = pv.subrange(0, k + 1);
            assert(pre.drop_last() == pv.subrange(0, k as int));
            assert(pre.last() == pieces@[k as int]@);
        }
        if begins_with(prop.as_slice(), "result=") {
            result = Some(string_from(slice_chars(prop.as_slice(), 7, prop.len()).as_slice()));
        }
        k = k + 1;
    }
    assert(pv.subrange(0, pieces@.len() as int) == pv);
    result
}

/// The logging command on one line of a script's output, if it holds one.
pub fn parse_runner_line(line: &str) -> (r: Option<LoggingCommand>)
    ensures
        match r {
            Some(c) => runner_line_command(line@) == Some(c.view()),
            None => runner_line_command(line@) is None,
        },
{
    let v = chars_of(line);
    let vs = v.as_slice();
    if begins_with(vs, "##vso[task.setvariable") {
        parse_set_variable_body(rest_after(vs, "##vso[task.setvariable").as_slice())
    } else if begins_with(vs, "##vso[task.setVariable") {
        parse_set_variable_body(rest_after(vs, "##vso[task.setVariable").as_slice())
    } else if begins_with(vs, "##vso[task.prependpath]") {
        let rest = rest_after(vs, "##vso[task.prependpath]");
        Some(LoggingCommand::PrependPath(string_from(rest.as_slice())))
    } else if begins_with(vs, "##vso[task.uploadfile]") {
        let rest = rest_after(vs, "##vso[task.uploadfile]");
        Some(LoggingCommand::UploadFile(string_from(rest.as_slice())))
    } else if begins_with(vs, "##vso[build.addbuildtag]") {
        let rest = rest_after(vs, "##vso[build.addbuildtag]");
        Some(LoggingCommand::AddBuildTag(string_from(rest.as_slice())))
    } else if begins_with(vs, "##vso[task.complete") {
        let rest = rest_after(vs, "##vso[task.complete");
        match parse_task_complete(rest.as_slice()) {
            Some(x) => Some(LoggingCommand::TaskResult(x)),
            None => None,
        }
    } else {
        None
    }
}

/// The logging commands in a script's output, line by line in order.
pub fn parse_runner_commands(output: &str) -> (r: Vec<LoggingCommand>)
    ensures
        r@.map_values(|c: LoggingCommand| c.view()) == runner_commands(lines(output@)),
{
    let ls = lines_of(output);
    let ghost lv = ls@.map_values(|l: String| l@);
    let mut out: Vec<LoggingCommand> = Vec::new();
    let mut i: usize = 0;
    while i < ls.len()
        invariant
            i <= ls@.len(),
            lv == ls@.map_values(|l: String| l@),
            lv == lines(output@),
            out@.map_values(|c: LoggingCommand| c.view()) == runner_commands(lv.subrange(0, i as int)),
        decreases ls@.len() - i,
    {
        let ghost before = out@.map_values(|c: LoggingCommand| c.view());
        proof {
            let pre = lv.subrange(0, i + 1);
            assert(pre.drop_last() == lv.subrange(0, i as int));
            assert(pre.last() == ls@[i as int]@);
        }
        match parse_runner_line(ls[i].as_str()) {
            Some(c) => {
                out.push(c);
                assert(out@.map_values(|c: LoggingCommand| c.view()) == before.push(c.view()));
            },
            None => {
                assert(before + Seq::<LoggingCommandView>::empty() == before);
            },
        }
        i = i + 1;
    }
    assert(lv.subrange(0, ls@.len() as int) == lv);
    out
}


// ---------------------------------------------------------------------------
// What the logging commands leave behind
// ---------------------------------------------------------------------------

/// A variable that a script's commands set: a text, or a list that
/// commands append to.
#[derive(Debug, Clone)]
pub enum RunnerValue {
    Text(String),
    List(Vec<String>),
}

pub enum RunnerValueView {
    Text(Seq<char>),
    List(Seq<Seq<char>>),
}

impl RunnerValue {
    pub open spec fn view(self) -> RunnerValueView {
        match self {
            RunnerValue::Text(t) => RunnerValueView::Text(t@),
            RunnerValue::List(l) => RunnerValueView::List(l@.map_values(|s: String| s@)),
        }
    }
}

/// The outputs and the variables that a script's logging commands set, in
/// the order each name was first set.
#[derive(Debug, Clone)]
pub struct CommandEffects {
    /// Output variables (`isoutput=true`), by name.
    pub outputs: Vec<(String, String)>,
    /// Variables that are not secret, by name, with the lists
    /// `_PREPEND_PATH`, `_UPLOAD_FILES`, `_BUILD_TAGS` and the text
    /// `_TASK_RESULT`.
    pub variables: Vec<(String, RunnerValue)>,
}

pub type OutputsView = Seq<(Seq<char>, Seq<char>)>;

pub type VariablesView = Seq<(Seq<char>, RunnerValueView)>;

pub open spec fn outputs_view(o: Seq<(String, String)>) -> OutputsView {
    o.map_values(|p: (String, String)| (p.0@, p.1@))
}

pub open spec fn variables_view(v: Seq<(String, RunnerValue)>) -> VariablesView {
    v.map_values(|p: (String, RunnerValue)| (p.0@, p.1.view()))
}

impl CommandEffects {
    pub open spec fn view(self) -> (OutputsView, VariablesView) {
        (outputs_view(self.outputs@), variables_view(self.variables@))
    }
}

/// The first index from `i` on whose key is `k`.
pub open spec fn key_index_from(keys: Seq<Seq<char>>, k: Seq<char>, i: int) -> Option<int>
    decreases keys.len() - i,
{
    if i < 0 || i >= keys.len() {
        None
    } else if keys[i] == k {
        Some(i)
    } else {
        key_index_from(keys, k, i + 1)
    }
}

/// `o` with `k` set to `v`: the entry of that name takes the value, else one
/// is added at the end.
pub open spec fn put_output(o: OutputsView, k: Seq<char>, v: Seq<char>) -> OutputsView {
    match key_index_from(o.map_values(|p: (Seq<char>, Seq<char>)| p.0), k, 0) {
        Some(i) => o.update(i, (k, v)),
        None => o.push((k, v)),
    }
}

/// `vs` with `k` set to `v`, as [`put_output`] does.
pub open spec fn put_variable(vs: VariablesView, k: Seq<char>, v: RunnerValueView) -> VariablesView {
    match key_index_from(vs.map_values(|p: (Seq<char>, RunnerValueView)| p.0), k, 0) {
        Some(i) => vs.update(i, (k, v)),
        None => vs.push((k, v)),
    }
}

/// `vs` with `item` appended to the list named `k`; a new list where there
/// is no such variable, nothing where it holds a text.
pub open spec fn append_to_list(vs: VariablesView, k: Seq<char>, item: Seq<char>) -> VariablesView {
    match key_index_from(vs.map_values(|p: (Seq<char>, RunnerValueView)| p.0), k, 0) {
        Some(i) => match vs[i].1 {
            RunnerValueView::List(l) => vs.update(i, (k, RunnerValueView::List(l.push(item)))),
            RunnerValueView::Text(_) => vs,
        },
        None => vs.push((k, RunnerValueView::List(seq![item]))),
    }
}

/// The value of output `k`, if it is set.
pub open spec fn output_value(o: OutputsView, k: Seq<char>) -> Option<Seq<char>> {
    match key_index_from(o.map_values(|p: (Seq<char>, Seq<char>)| p.0), k, 0) {
        Some(i) => Some(o[i].1),
        None => None,
    }
}

/// The value of variable `k`, if it is set.
pub open spec fn variable_value(vs: VariablesView, k: Seq<char>) -> Option<RunnerValueView> {
    match key_index_from(vs.map_values(|p: (Seq<char>, RunnerValueView)| p.0), k, 0) {
        Some(i) => Some(vs[i].1),
        None => None,
    }
}

proof fn lemma_key_index_from(keys: Seq<Seq<char>>, k: Seq<char>, i: int)
    requires
        0 <= i,
    ensures
        match key_index_from(keys, k, i) {
            Some(j) => i <= j < keys.len() && keys[j] == k && forall|m: int| i <= m < j ==> keys[m] != k,
            None => forall|m: int| i <= m < keys.len() ==> keys[m] != k,
        },
    decreases keys.len() - i,
{
    if i < keys.len() && keys[i] != k {
        lemma_key_index_from(keys, k, i + 1);
    }
}

/// The first index of `k` is the one where `k` stands first.
proof fn lemma_key_index_is(keys: Seq<Seq<char>>, k: Seq<char>, j: Option<int>)
    requires
        match j {
            Some(j) => 0 <= j < keys.len() && keys[j] == k && forall|m: int| 0 <= m < j ==> keys[m] != k,
            None => forall|m: int| 0 <= m < keys.len() ==> keys[m] != k,
        },
    ensures
        key_index_from(keys, k, 0) == j,
{
    lemma_key_index_from(keys, k, 0);
    match key_index_from(keys, k, 0) {
        Some(x) => match j {
            Some(y) => {
                if x < y {
                    assert(keys[x] != k);
                } else if y < x {
                    assert(keys[y] != k);
                }
            },
            None => {
                assert(keys[x] != k);
            },
        },
        None => match j {
            Some(y) => {
                assert(keys[y] != k);
            },
            None => {},
        },
    }
}

/// A read gives back what the last write wrote: after setting output `k` to
/// `v`, output `k` is `v`, and every other output is as it was.
pub proof fn lemma_put_output_reads_back(o: OutputsView, k: Seq<char>, v: Seq<char>, k2: Seq<char>)
    ensures
        output_value(put_output(o, k, v), k) == Some(v),
        k2 != k ==> output_value(put_output(o, k, v), k2) == output_value(o, k2),
{
    let keys = o.map_values(|p: (Seq<char>, Seq<char>)| p.0);
    let n = put_output(o, k, v);
    let nkeys = n.map_values(|p: (Seq<char>, Seq<char>)| p.0);
    lemma_key_index_from(keys, k, 0);
    lemma_key_index_from(keys, k2, 0);
    match key_index_from(keys, k, 0) {
        Some(i) => {
            assert(nkeys =~= keys);
        },
        None => {
            assert(nkeys =~= keys.push(k));
            lemma_key_index_is(nkeys, k, Some(o.len() as int));
            if k2 != k {
                match key_index_from(keys, k2, 0) {
                    Some(j) => {
                        lemma_key_index_is(nkeys, k2, Some(j));
                    },
                    None => {
                        lemma_key_index_is(nkeys, k2, None);
                    },
                }
            }
        },
    }
}

/// As for outputs: after setting variable `k` to `v`, variable `k` is `v`,
/// and every other variable is as it was.
pub proof fn lemma_put_variable_reads_back(vs: VariablesView, k: Seq<char>, v: RunnerValueView, k2: Seq<char>)
    ensures
        variable_value(put_variable(vs, k, v), k) == Some(v),
        k2 != k ==> variable_value(put_variable(vs, k, v), k2) == variable_value(vs, k2),
{
    let keys = vs.map_values(|p: (Seq<char>, RunnerValueView)| p.0);
    let n = put_variable(vs, k, v);
    let nkeys = n.map_values(|p: (Seq<char>, RunnerValueView)| p.0);
    lemma_key_index_from(keys, k, 0);
    lemma_key_index_from(keys, k2, 0);
    match key_index_from(keys, k, 0) {
        Some(i) => {
            assert(nkeys =~= keys);
        },
        None => {
            assert(nkeys =~= keys.push(k));
            lemma_key_index_is(nkeys, k, Some(vs.len() as int));
            if k2 != k {
                match key_index_from(keys, k2, 0) {
                    Some(j) => {
                        lemma_key_index_is(nkeys, k2, Some(j));
                    },
                    None => {
                        lemma_key_index_is(nkeys, k2, None);
                    },
                }
            }
        },
    }
}

/// What one logging command does to the outputs and variables.
pub open spec fn apply_command(acc: (OutputsView, VariablesView), c: LoggingCommandView) -> (
    OutputsView,
    VariablesView,
) {
    let (o, v) = acc;
    match c {
        LoggingCommandView::SetVariable(name, value, is_output, is_secret) => (
            if is_output {
                put_output(o, name, value)
            } else {
                o
            },
            if !is_secret {
                put_variable(v, name, RunnerValueView::Text(value))
            } else {
                v
            },
        ),
        LoggingCommandView::PrependPath(p) => (o, append_to_list(v, "_PREPEND_PATH"@, p)),
        LoggingCommandView::UploadFile(p) => (o, append_to_list(v, "_UPLOAD_FILES"@, p)),
        LoggingCommandView::AddBuildTag(t) => (o, append_to_list(v, "_BUILD_TAGS"@, t)),
        LoggingCommandView::TaskResult(r) => (o, put_variable(v, "_TASK_RESULT"@, RunnerValueView::Text(r))),
    }
}

/// The outputs and variables that a list of commands leaves, applied in order.
pub open spec fn command_effects(cmds: Seq<LoggingCommandView>) -> (OutputsView, VariablesView)
    decreases cmds.len(),
{
    if cmds.len() == 0 {
        (Seq::empty(), Seq::empty())
    } else {
        apply_command(command_effects(cmds.drop_last()), cmds.last())
    }
}

/// What a set-variable command leaves: an output command sets the output
/// to its value (and no other command touches the outputs); a command that
/// is not secret sets the variable to its value, and a secret one leaves
/// the variables as they were.
pub proof fn lemma_set_variable_effect(
    acc: (OutputsView, VariablesView),
    name: Seq<char>,
    value: Seq<char>,
    is_output: bool,
    is_secret: bool,
)
    ensures
        ({
            let r = apply_command(acc, LoggingCommandView::SetVariable(name, value, is_output, is_secret));
            &&& is_output ==> output_value(r.0, name) == Some(value)
            &&& !is_output ==> r.0 == acc.0
            &&& !is_secret ==> variable_value(r.1, name) == Some(RunnerValueView::Text(value))
            &&& is_secret ==> r.1 == acc.1
        }),
{
    lemma_put_output_reads_back(acc.0, name, value, name);
    lemma_put_variable_reads_back(acc.1, name, RunnerValueView::Text(value), name);
}

fn find_output(o: &Vec<(String, String)>, k: &str) -> (r: Option<usize>)
    ensures
        match r {
            Some(i) => key_index_from(outputs_view(o@).map_values(|p: (Seq<char>, Seq<char>)| p.0), k@, 0) == Some(i as int),
            None => key_index_from(outputs_view(o@).map_values(|p: (Seq<char>, Seq<char>)| p.0), k@, 0) is None,
        },
{
    let ghost keys = outputs_view(o@).map_values(|p: (Seq<char>, Seq<char>)| p.0);
    let mut i: usize = 0;
    while i < o.len()
        invariant
            i <= o@.len(),
            keys == outputs_view(o@).map_values(|p: (Seq<char>, Seq<char>)| p.0),
            key_index_from(keys, k@, 0) == key_index_from(keys, k@, i as int),
        decreases o@.len() - i,
    {
        assert(keys[i as int] == o@[i as int].0@);
        if str_eq(o[i].0.as_str(), k) {
            return Some(i);
        }
        i = i + 1;
    }
    None
}

fn find_variable(vs: &Vec<(String, RunnerValue)>, k: &str) -> (r: Option<usize>)
    ensures
        match r {
            Some(i) => key_index_from(variables_view(vs@).map_values(|p: (Seq<char>, RunnerValueView)| p.0), k@, 0) == Some(i as int),
            None => key_index_from(variables_view(vs@).map_values(|p: (Seq<char>, RunnerValueView)| p.0), k@, 0) is None,
        },
{
    let ghost keys = variables_view(vs@).map_values(|p: (Seq<char>, RunnerValueView)| p.0);
    let mut i: usize = 0;
    while i < vs.len()
        invariant
            i <= vs@.len(),
            keys == variables_view(vs@).map_values(|p: (Seq<char>, RunnerValueView)| p.0),
            key_index_from(keys, k@, 0) == key_index_from(keys, k@, i as int),
        decreases vs@.len() - i,
    {
        assert(keys[i as int] == vs@[i as int].0@);
        if str_eq(vs[i].0.as_str(), k) {
            return Some(i);
        }
        i = i + 1;
    }
    None
}

proof fn lemma_key_index_range(keys: Seq<Seq<char>>, k: Seq<char>, i: int)
    requires
        0 <= i,
    ensures
        key_index_from(keys, k, i) matches Some(j) ==> i <= j < keys.len(),
    decreases keys.len() - i,
{
    if i < keys.len() && keys[i] != k {
        lemma_key_index_range(keys, k, i + 1);
    }
}

fn set_output(o: &mut Vec<(String, String)>, k: String, v: String)
    ensures
        outputs_view(final(o)@) == put_output(outputs_view(old(o)@), k@, v@),
{
    let ghost keys = outputs_view(o@).map_values(|p: (Seq<char>, Seq<char>)| p.0);
    proof {
        lemma_key_index_range(keys, k@, 0);
    }
    match find_output(o, k.as_str()) {
        Some(i) => {
            o.set(i, (k, v));
            assert(outputs_view(o@) =~= outputs_view(old(o)@).update(i as int, (k@, v@)));
        },
        None => {
            o.push((k, v));
            assert(outputs_view(o@) =~= outputs_view(old(o)@).push((k@, v@)));
        },
    }
}

fn set_variable(vs: &mut Vec<(String, RunnerValue)>, k: String, v: RunnerValue)
    ensures
        variables_view(final(vs)@) == put_variable(variables_view(old(vs)@), k@, v.view()),
{
    let ghost keys = variables_view(vs@).map_values(|p: (Seq<char>, RunnerValueView)| p.0);
    let ghost vv = v.view();
    proof {
        lemma_key_index_range(keys, k@, 0);
    }
    match find_variable(vs, k.as_str()) {
        Some(i) => {
            vs.set(i, (k, v));
            assert(variables_view(vs@) =~= variables_view(old(vs)@).update(i as int, (k@, vv)));
        },
        None => {
            vs.push((k, v));
            assert(variables_view(vs@) =~= variables_view(old(vs)@).push((k@, vv)));
        },
    }
}

fn copy_list(v: &Vec<String>) -> (r: Vec<String>)
    ensures
        r@.map_values(|s: String| s@) == v@.map_values(|s: String| s@),
{
    let mut r: Vec<String> = Vec::new();
    let mut i: usize = 0;
    while i < v.len()
        invariant
            i <= v@.len(),
            r@.len() == i,
            r@.map_values(|s: String| s@) == v@.subrange(0, i as int).map_values(|s: String| s@),
        decreases v@.len() - i,
    {
        let ghost before = r@;
        r.push(v[i].clone());
        proof {
            assert(v@.subrange(0, i + 1) == v@.subrange(0, i as int).push(v@[i as int]));
            assert(r@ == before.push(r@[i as int]));
            assert(r@.map_values(|s: String| s@) =~= before.map_values(|s: String| s@).push(v@[i as int]@));
            assert(v@.subrange(0, i + 1).map_values(|s: String| s@) =~= v@.subrange(0, i as int).map_values(
                |s: String| s@,
            ).push(v@[i as int]@));
        }
        i = i + 1;
    }
    assert(v@.subrange(0, v@.len() as int) == v@);
    r
}

fn append_item(vs: &mut Vec<(String, RunnerValue)>, k: &str, item: String)
    ensures
        variables_view(final(vs)@) == append_to_list(variables_view(old(vs)@), k@, item@),
{
    let ghost keys = variables_view(vs@).map_values(|p: (Seq<char>, RunnerValueView)| p.0);
    proof {
        lemma_key_index_range(keys, k@, 0);
    }
    match find_variable(vs, k) {
        Some(i) => {
            let ghost old_entry = variables_view(vs@)[i as int];
            assert(old_entry == (vs@[i as int].0@, vs@[i as int].1.view()));
            let mut list: Option<Vec<String>> = None;
            match &vs[i].1 {
                RunnerValue::List(l) => {
                    let mut l2 = copy_list(l);
                    l2.push(item);
                    list = Some(l2);
                },
                RunnerValue::Text(_) => {},
            }
            match list {
                Some(l2) => {
                    let ghost nv = RunnerValue::List(l2).view();
                    assert(l2@.map_values(|s: String| s@) =~= match old_entry.1 {
                        RunnerValueView::List(l) => l.push(item@),
                        RunnerValueView::Text(_) => Seq::empty(),
                    });
                    vs.set(i, (k.to_string(), RunnerValue::List(l2)));
                    assert(variables_view(vs@) =~= variables_view(old(vs)@).update(i as int, (k@, nv)));
                },
                None => {},
            }
        },
        None => {
            let ghost nv = RunnerValueView::List(seq![item@]);
            let mut l: Vec<String> = Vec::new();
            l.push(item);
            assert(RunnerValue::List(l).view() == nv) by {
                assert(l@.map_values(|s: String| s@) =~= seq![item@]);
            }
            vs.push((k.to_string(), RunnerValue::List(l)));
            assert(variables_view(vs@) =~= variables_view(old(vs)@).push((k@, nv)));
        },
    }
}

/// The outputs and variables that a script's output sets through its
/// logging commands, line by line in order: an output variable for each
/// `isoutput=true`, a variable for each set-variable that is not secret, the
/// paths to prepend, the files to upload and the build tags gathered into
/// `_PREPEND_PATH`, `_UPLOAD_FILES` and `_BUILD_TAGS`, and the last task
/// result in `_TASK_RESULT`.
pub fn parse_logging_commands(output: &str) -> (r: CommandEffects)
    ensures
        r.view() == command_effects(runner_commands(lines(output@))),
{
    let cmds = parse_runner_commands(output);
    let ghost cv = cmds@.map_values(|c: LoggingCommand| c.view());
    let mut outputs: Vec<(String, String)> = Vec::new();
    let mut variables: Vec<(String, RunnerValue)> = Vec::new();
    let mut i: usize = 0;
    proof {
        assert(outputs_view(outputs@) =~= Seq::<(Seq<char>, Seq<char>)>::empty());
        assert(variables_view(variables@) =~= Seq::<(Seq<char>, RunnerValueView)>::empty());
        assert(cv.subrange(0, 0) =~= Seq::<LoggingCommandView>::empty());
    }
    while i < cmds.len()
        invariant
            i <= cmds@.len(),
            cv == cmds@.map_values(|c: LoggingCommand| c.view()),
            (outputs_view(outputs@), variables_view(variables@)) == command_effects(cv.subrange(0, i as int)),
        decreases cmds@.len() - i,
    {
        proof {
            let pre = cv.subrange(0, i + 1);
            assert(pre.drop_last() =~= cv.subrange(0, i as int));
            assert(pre.last() == cmds@[i as int].view());
        }
        match &cmds[i] {
            LoggingCommand::SetVariable(c) => {
                if c.is_output {
                    set_output(&mut outputs, c.name.clone(), c.value.clone());
                }
                if !c.is_secret {
                    let v = RunnerValue::Text(c.value.clone());
                    set_variable(&mut variables, c.name.clone(), v);
                }
            },
            LoggingCommand::PrependPath(p) => {
                append_item(&mut variables, "_PREPEND_PATH", p.clone());
            },
            LoggingCommand::UploadFile(p) => {
                append_item(&mut variables, "_UPLOAD_FILES", p.clone());
            },
            LoggingCommand::AddBuildTag(t) => {
                append_item(&mut variables, "_BUILD_TAGS", t.clone());
            },
            LoggingCommand::TaskResult(r) => {
                set_variable(&mut variables, "_TASK_RESULT".to_string(), RunnerValue::Text(r.clone()));
            },
        }
        i = i + 1;
    }
    assert(cv.subrange(0, cmds@.len() as int) =~= cv);
    CommandEffects { outputs, variables }
}

} // verus!
