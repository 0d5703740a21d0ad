//! Azure DevOps task manifests (`task.json`): the model, what the runner
//! reads from one, and the stub manifests of the built-in tasks.

use vstd::prelude::*;
use std::collections::HashMap;
use crate::text::{decimal, u64_to_decimal};
use crate::task_runner::{insert_all, keys_unique, lemma_pair_insert, pairs_view, set_input};

verus! {

broadcast use vstd::string::group_string_axioms;

/// An I/O error of the standard library, carried through opaquely.
#[verifier::external_type_specification]
#[verifier::external_body]
pub struct ExIoError(std::io::Error);

/// A JSON error of the JSON library, carried through opaquely.
#[verifier::external_type_specification]
#[verifier::external_body]
pub struct ExJsonError(serde_json::Error);

/// Errors that can occur when parsing task manifests.
#[derive(Debug)]
pub enum TaskManifestError {
    IoError(std::io::Error),
    ParseError(serde_json::Error),
    NotFound(String),
    Invalid(String),
}

/// The text of an I/O error, as its `Display` writes it.  Nothing is stated
/// of it: the text comes from the operating system.
#[verifier::external_body]
pub(crate) fn io_error_text(e: &std::io::Error) -> (r: String) {
    e.to_string()
}

/// What the `Display` of a JSON error writes: its cause and position.
pub uninterp spec fn json_error_message(err: serde_json::Error) -> Seq<char>;

/// The text of a JSON error, as its `Display` writes it; named
/// `json_error_message`, a function of the error alone.
#[verifier::external_body]
fn json_error_text(e: &serde_json::Error) -> (r: String)
    ensures
        r@ == json_error_message(*e),
{
    e.to_string()
}

/// The text of a manifest error, where it does not come from the operating
/// system (an I/O error's text does).
pub open spec fn manifest_error_text(e: TaskManifestError) -> Option<Seq<char>> {
    match e {
        TaskManifestError::IoError(_) => None,
        TaskManifestError::ParseError(j) => Some("Failed to parse task manifest: "@ + json_error_message(j)),
        TaskManifestError::NotFound(p) => Some("Task manifest not found at: "@ + p@),
        TaskManifestError::Invalid(m) => Some("Invalid task manifest: "@ + m@),
    }
}

impl TaskManifestError {
    /// The text that displaying this error gives.
    pub fn to_display_string(&self) -> (r: String)
        ensures
            manifest_error_text(*self) matches Some(t) ==> r@ == t,
            self is IoError ==> exists|t: Seq<char>| r@ == "Failed to read task manifest: "@ + t,
    {
        match self {
            TaskManifestError::IoError(e) => {
                let mut r = String::from_str("Failed to read task manifest: ");
                let t = io_error_text(e);
                r.append(t.as_str());
                assert(r@ == "Failed to read task manifest: "@ + t@);
                r
            },
            TaskManifestError::ParseError(e) => {
                let mut r = String::from_str("Failed to parse task manifest: ");
                let t = json_error_text(e);
                r.append(t.as_str());
                r
            },
            TaskManifestError::NotFound(p) => {
                let mut r = String::from_str("Task manifest not found at: ");
                r.append(p.as_str());
                r
            },
            TaskManifestError::Invalid(m) => {
                let mut r = String::from_str("Invalid task manifest: ");
                r.append(m.as_str());
                r
            },
        }
    }
}

/// Task manifest (task.json)
#[derive(Debug, Clone)]
pub struct TaskManifest {
    /// Unique task ID
    pub id: String,

    /// Task name
    pub name: String,

    /// Friendly name for display
    pub friendly_name: Option<String>,

    /// Task description
    pub description: Option<String>,

    /// Help URL
    pub help_url: Option<String>,

    /// Help markdown file
    pub help_mark_down: Option<String>,

    /// Task category
    pub category: Option<String>,

    /// Visibility in different contexts
    pub visibility: Option<Vec<String>>,

    /// Whether to run on the agent
    pub runs_on: Option<Vec<String>>,

    /// Task author
    pub author: Option<String>,

    /// Version information
    pub version: TaskVersion,

    /// Minimum agent version required
    pub minimum_agent_version: Option<String>,

    /// Instance name format
    pub instance_name_format: Option<String>,

    /// Variable groups
    pub groups: Option<Vec<TaskGroup>>,

    /// Task inputs
    pub inputs: Vec<TaskInput>,

    /// Output variables
    pub output_variables: Option<Vec<TaskOutputVariable>>,

    /// Task execution
    pub execution: Option<TaskExecutionSection>,

    /// Pre-job execution
    pub pre_job_execution: Option<TaskExecutionSection>,

    /// Post-job execution (cleanup)
    pub post_job_execution: Option<TaskExecutionSection>,

    /// Data source bindings
    pub data_source_bindings: Option<Vec<DataSourceBinding>>,

    /// Messages for localization
    pub messages: Option<HashMap<String, String>>,

    /// Restrictions
    pub restrictions: Option<TaskRestrictions>,

    /// Demands (capabilities required on agent)
    pub demands: Option<Vec<String>>,
}

/// Task version information
#[derive(Debug, Clone)]
pub struct TaskVersion {
    pub major: u32,
    pub minor: u32,
    pub patch: u32,
}

/// Task input grouping
#[derive(Debug, Clone)]
pub struct TaskGroup {
    pub name: String,
    pub display_name: Option<String>,
    pub is_expanded: Option<bool>,
}

/// Task input definition
#[derive(Debug, Clone)]
pub struct TaskInput {
    /// Input name
    pub name: String,

    /// Input type
    pub input_type: Option<String>,

    /// Display label
    pub label: Option<String>,

    /// Default value
    pub default_value: Option<String>,

    /// Whether input is required
    pub required: Option<bool>,

    /// Help text
    pub help_mark_down: Option<String>,

    /// Group this input belongs to
    pub group_name: Option<String>,

    /// Visibility rules
    pub visible_rule: Option<String>,

    /// Options for select/picklist inputs
    pub options: Option<HashMap<String, String>>,

    /// Properties
    pub properties: Option<InputProperties>,

    /// Validation
    pub validation: Option<InputValidation>,

    /// Aliases for the input name
    pub aliases: Option<Vec<String>>,
}

/// Input properties
#[derive(Debug, Clone)]
pub struct InputProperties {
    pub editable_options: Option<String>,
    pub multi_select: Option<String>,
    pub multi_select_flatlist: Option<String>,
    pub disable_manage_link: Option<String>,
    pub is_search_required: Option<String>,
}

/// Input validation
#[derive(Debug, Clone)]
pub struct InputValidation {
    pub expression: Option<String>,
    pub message: Option<String>,
}

/// Task output variable
#[derive(Debug, Clone)]
pub struct TaskOutputVariable {
    pub name: String,
    pub description: Option<String>,
}

/// Task execution section containing all execution handlers
#[derive(Debug, Clone)]
pub struct TaskExecutionSection {
    /// Node.js handler (legacy)
    pub node: Option<TaskExecution>,

    /// Node 10 handler
    pub node10: Option<TaskExecution>,

    /// Node 16 handler
    pub node16: Option<TaskExecution>,

    /// Node 20 handler
    pub node20: Option<TaskExecution>,

    /// PowerShell handler (legacy)
    pub powershell: Option<TaskExecution>,

    /// PowerShell 3 handler
    pub powershell3: Option<TaskExecution>,
}

/// Execution handler
#[derive(Debug, Clone)]
pub struct TaskExecution {
    /// Script target file
    pub target: String,

    /// Working directory
    pub working_directory: Option<String>,

    /// Platforms this handler runs on
    pub platforms: Option<Vec<String>>,

    /// Argument format
    pub argument_format: Option<String>,
}

/// Data source binding for service connection
#[derive(Debug, Clone)]
pub struct DataSourceBinding {
    pub target: String,
    pub endpoint_id: Option<String>,
    pub data_source_name: Option<String>,
    pub parameters: Option<HashMap<String, String>>,
    pub result_template: Option<String>,
}

/// Task restrictions
#[derive(Debug, Clone)]
pub struct TaskRestrictions {
    pub commands: Option<TaskCommandRestrictions>,
    pub settable_variables: Option<TaskSettableVariables>,
}

#[derive(Debug, Clone)]
pub struct TaskCommandRestrictions {
    pub mode: Option<String>,
}

#[derive(Debug, Clone)]
pub struct TaskSettableVariables {
    pub allowed: Option<Vec<String>>,
}

/// The handler a task runs with: the first of Node, Node10, Node16, Node20,
/// PowerShell3 and PowerShell that the section declares.
pub open spec fn primary_handler(e: TaskExecutionSection) -> Option<TaskExecution> {
    if e.node is Some {
        e.node
    } else if e.node10 is Some {
        e.node10
    } else if e.node16 is Some {
        e.node16
    } else if e.node20 is Some {
        e.node20
    } else if e.powershell3 is Some {
        e.powershell3
    } else {
        e.powershell
    }
}

/// The names of the required inputs, in order.
pub open spec fn required_names(inputs: Seq<TaskInput>) -> Seq<Seq<char>>
    decreases inputs.len(),
{
    if inputs.len() == 0 {
        Seq::empty()
    } else {
        required_names(inputs.drop_last()) + if inputs.last().required == Some(true) {
            seq![inputs.last().name@]
        } else {
            Seq::empty()
        }
    }
}

/// The `(name, default value)` pairs of the inputs that have a default, in
/// order.
pub open spec fn default_pairs(inputs: Seq<TaskInput>) -> Seq<(Seq<char>, Seq<char>)>
    decreases inputs.len(),
{
    if inputs.len() == 0 {
        Seq::empty()
    } else {
        default_pairs(inputs.drop_last()) + match inputs.last().default_value {
            Some(v) => seq![(inputs.last().name@, v@)],
            None => Seq::empty(),
        }
    }
}

impl TaskManifest {
    /// Get the full version string (major.minor.patch).
    pub fn version_string(&self) -> (r: String)
        ensures
            r@ == decimal(self.version.major as nat) + seq!['.'] + decimal(self.version.minor as nat)
                + seq!['.'] + decimal(self.version.patch as nat),
    {
        let mut r = u64_to_decimal(self.version.major as u64);
        r.push('.');
        let minor = u64_to_decimal(self.version.minor as u64);
        r.append(minor.as_str());
        r.push('.');
        let patch = u64_to_decimal(self.version.patch as u64);
        r.append(patch.as_str());
        r
    }

    /// Get the primary execution method.
    pub fn primary_execution(&self) -> (r: Option<&TaskExecution>)
        ensures
            match self.execution {
                Some(e) => match primary_handler(e) {
                    Some(x) => r matches Some(y) && *y == x,
                    None => r is None,
                },
                None => r is None,
            },
    {
        match &self.execution {
            Some(e) => {
                if e.node.is_some() {
                    e.node.as_ref()
                } else if e.node10.is_some() {
                    e.node10.as_ref()
                } else if e.node16.is_some() {
                    e.node16.as_ref()
                } else if e.node20.is_some() {
                    e.node20.as_ref()
                } else if e.powershell3.is_some() {
                    e.powershell3.as_ref()
                } else {
                    e.powershell.as_ref()
                }
            },
            None => None,
        }
    }

    /// Check if this is a Node.js task.
    pub fn is_node_task(&self) -> (b: bool)
        ensures
            b == (self.execution matches Some(e) && (e.node is Some || e.node10 is Some
                || e.node16 is Some || e.node20 is Some)),
    {
        match &self.execution {
            Some(e) => e.node.is_some() || e.node10.is_some() || e.node16.is_some()
                || e.node20.is_some(),
            None => false,
        }
    }

    /// Check if this is a PowerShell task.
    pub fn is_powershell_task(&self) -> (b: bool)
        ensures
            b == (self.execution matches Some(e) && (e.powershell is Some || e.powershell3 is Some)),
    {
        match &self.execution {
            Some(e) => e.powershell.is_some() || e.powershell3.is_some(),
            None => false,
        }
    }

    /// Get required input names.
    pub fn required_inputs(&self) -> (r: Vec<&str>)
        ensures
            r@.map_values(|s: &str| s@) == required_names(self.inputs@),
    {
        let mut r: Vec<&str> = Vec::new();
        let mut i: usize = 0;
        while i < self.inputs.len()
            invariant
                i <= self.inputs@.len(),
                r@.map_values(|s: &str| s@) == required_names(self.inputs@.subrange(0, i as int)),
            decreases self.inputs@.len() - i,
        {
            let ghost before = r@.map_values(|s: &str| s@);
            let input = &self.inputs[i];
            proof {
                let pre = self.inputs@.subrange(0, i + 1);
                assert(pre.drop_last() == self.inputs@.subrange(0, i as int));
                assert(pre.last() == *input);
            }
            let req = match input.required {
                Some(b) => b,
                None => false,
            };
            if req {
                r.push(input.name.as_str());
                assert(r@.map_values(|s: &str| s@) == before.push(input.name@));
            } else {
                assert(before + Seq::<Seq<char>>::empty() == before);
            }
            i = i + 1;
        }
        assert(self.inputs@.subrange(0, self.inputs@.len() as int) == self.inputs@);
        r
    }

    /// The default value of each input that has one, by input name: each
    /// name once, in the order it first occurs, with the default given last
    /// for it.
    pub fn default_values(&self) -> (r: Vec<(String, String)>)
        ensures
            pairs_view(r@) == insert_all(Seq::empty(), default_pairs(self.inputs@)),
            keys_unique(pairs_view(r@)),
    {
        let mut r: Vec<(String, String)> = Vec::new();
        let mut i: usize = 0;
        proof {
            assert(pairs_view(r@) =~= Seq::<(Seq<char>, Seq<char>)>::empty());
            assert(keys_unique(Seq::<(Seq<char>, Seq<char>)>::empty()));
        }
        while i < self.inputs.len()
            invariant
                i <= self.inputs@.len(),
                pairs_view(r@) == insert_all(Seq::empty(), default_pairs(self.inputs@.subrange(0, i as int))),
                keys_unique(pairs_view(r@)),
            decreases self.inputs@.len() - i,
        {
            let ghost before = default_pairs(self.inputs@.subrange(0, i as int));
            let input = &self.inputs[i];
            proof {
                let pre = self.inputs@.subrange(0, i + 1);
                assert(pre.drop_last() == self.inputs@.subrange(0, i as int));
                assert(pre.last() == *input);
            }
            match &input.default_value {
                Some(v) => {
                    let ghost old_r = pairs_view(r@);
                    set_input(&mut r, input.name.clone(), v.clone());
                    proof {
                        let more = before + seq![(input.name@, v@)];
                        assert(more.drop_last() == before);
                        lemma_pair_insert(old_r, input.name@, v@, input.name@);
                    }
                },
                None => {
                    assert(before + Seq::<(Seq<char>, Seq<char>)>::empty() == before);
                },
            }
            i = i + 1;
        }
        assert(self.inputs@.subrange(0, self.inputs@.len() as int) == self.inputs@);
        r
    }
}

impl TaskExecution {
    /// Get the execution type as a string: handlers are taken to be Node
    /// handlers.
    pub fn execution_type(&self) -> (r: &'static str)
        ensures
            r@ == "Node"@,
    {
        "Node"
    }
}

} // verus!
