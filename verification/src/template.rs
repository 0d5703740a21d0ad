//! Template machinery that does not touch the file system or evaluate
//! expressions: template errors, the `${{ ... }}` directive keys, the
//! if/elseif/else chain that decides which branch of a sequence is expanded,
//! and the include stack that bounds nesting and rejects cycles.

use vstd::prelude::*;
use crate::parse_error::{ParseError, ParseErrorKind};
use crate::text::{
    chars_of, ends_with, find, find_exec, join, join_strings, occurs_at_exec, slice_chars,
    starts_with, string_from, trim, trim_chars, usize_to_decimal, decimal,
};
use crate::task_cache::{joined_path, path_join};

verus! {

broadcast use vstd::string::group_string_axioms;

/// A path of the standard library, carried through opaquely.
#[verifier::external_type_specification]
#[verifier::external_body]
pub struct ExPathBuf(std::path::PathBuf);

/// Cloning a path.  Nothing is stated of the copy: paths are opaque here.
pub assume_specification[ <std::path::PathBuf as Clone>::clone ](p: &std::path::PathBuf) -> std::path::PathBuf;

/// Maximum template inclusion depth to prevent infinite recursion.
pub const MAX_TEMPLATE_DEPTH: usize = 50;

// ---------------------------------------------------------------------------
// Template errors
// ---------------------------------------------------------------------------

#[derive(Debug, Clone, Copy, PartialEq, Eq, Structural)]
pub enum TemplateErrorKind {
    /// Template file not found
    NotFound,
    /// Circular template inclusion
    CircularReference,
    /// Maximum depth exceeded
    MaxDepthExceeded,
    /// Invalid parameter
    InvalidParameter,
    /// Parameter type mismatch
    TypeMismatch,
    /// Required parameter missing
    MissingParameter,
    /// Parse error in template file
    ParseError,
    /// Expression evaluation error in template
    ExpressionError,
}

/// Error specific to template resolution.
#[derive(Debug, Clone)]
pub struct TemplateError {
    pub message: String,
    pub template_path: Option<String>,
    pub kind: TemplateErrorKind,
}

/// The text that displaying a template error gives.
pub open spec fn template_error_text(e: TemplateError) -> Seq<char> {
    match e.template_path {
        Some(p) => "template error in "@ + seq!['\''] + p@ + seq!['\'', ':', ' '] + e.message@,
        None => "template error: "@ + e.message@,
    }
}

impl TemplateError {
    pub fn new(message: &str, kind: TemplateErrorKind) -> (e: Self)
        ensures
            e.message@ == message@,
            e.template_path is None,
            e.kind == kind,
    {
        TemplateError { message: String::from_str(message), template_path: None, kind }
    }

    pub fn with_path(self, path: &str) -> (e: Self)
        ensures
            e.template_path matches Some(p) && p@ == path@,
            e.message == self.message,
            e.kind == self.kind,
    {
        let mut e = self;
        e.template_path = Some(String::from_str(path));
        e
    }

    /// The text that displaying this error gives.
    pub fn to_display_string(&self) -> (r: String)
        ensures
            r@ == template_error_text(*self),
    {
        match &self.template_path {
            Some(p) => {
                let mut r = String::from_str("template error in ");
                r.push('\'');
                r.append(p.as_str());
                r.push('\'');
                r.push(':');
                r.push(' ');
                r.append(self.message.as_str());
                r
            },
            None => {
                let mut r = String::from_str("template error: ");
                r.append(self.message.as_str());
                r
            },
        }
    }

    /// This error as a parse error of kind `TemplateError`, located nowhere.
    pub fn to_parse_error(&self) -> (e: ParseError)
        ensures
            e.message@ == template_error_text(*self),
            e.line == 0,
            e.column == 0,
            e.context@ == Seq::<char>::empty(),
            e.suggestion is None,
            e.kind == ParseErrorKind::TemplateError,
    {
        let text = self.to_display_string();
        ParseError::new(text.as_str(), 0, 0).with_kind(ParseErrorKind::TemplateError)
    }
}

// ---------------------------------------------------------------------------
// Directive keys
// ---------------------------------------------------------------------------

/// Parsed template directive from a YAML key.
#[derive(Debug, Clone)]
pub enum TemplateDirective {
    /// `${{ if <condition> }}`
    If(String),
    /// `${{ elseif <condition> }}` or `${{ else if <condition> }}`
    ElseIf(String),
    /// `${{ else }}`
    Else,
    /// `${{ each <var> in <collection> }}`
    Each(String, String),
}

/// A directive as character sequences.
pub enum DirectiveView {
    If(Seq<char>),
    ElseIf(Seq<char>),
    Else,
    Each(Seq<char>, Seq<char>),
}

impl TemplateDirective {
    pub open spec fn view(self) -> DirectiveView {
        match self {
            TemplateDirective::If(c) => DirectiveView::If(c@),
            TemplateDirective::ElseIf(c) => DirectiveView::ElseIf(c@),
            TemplateDirective::Else => DirectiveView::Else,
            TemplateDirective::Each(v, c) => DirectiveView::Each(v@, c@),
        }
    }
}

/// The directive that an `each` body `rest` (after "each ") describes:
/// `<var> in <collection>`, both non-empty after trimming.
pub open spec fn each_directive(rest: Seq<char>) -> Option<DirectiveView> {
    let r = trim(rest);
    match find(r, " in "@) {
        Some(p) => {
            let var = trim(r.subrange(0, p));
            let coll = trim(r.subrange(p + " in "@.len(), r.len() as int));
            if var.len() > 0 && coll.len() > 0 {
                Some(DirectiveView::Each(var, coll))
            } else {
                None
            }
        },
        None => None,
    }
}

/// The directive that the inner text of `${{ ... }}` (already trimmed)
/// describes.
pub open spec fn inner_directive(inner: Seq<char>) -> Option<DirectiveView> {
    if starts_with(inner, "if "@) {
        Some(DirectiveView::If(trim(inner.subrange("if "@.len() as int, inner.len() as int))))
    } else if starts_with(inner, "elseif "@) {
        Some(
            DirectiveView::ElseIf(
                trim(inner.subrange("elseif "@.len() as int, inner.len() as int)),
            ),
        )
    } else if starts_with(inner, "else if "@) {
        Some(
            DirectiveView::ElseIf(
                trim(inner.subrange("else if "@.len() as int, inner.len() as int)),
            ),
        )
    } else if inner == "else"@ {
        Some(DirectiveView::Else)
    } else if starts_with(inner, "each "@) {
        each_directive(inner.subrange("each "@.len() as int, inner.len() as int))
    } else {
        None
    }
}

/// The directive that a YAML key spells, if any: the trimmed key must read
/// `${{ ... }}` with one of the directive forms inside.
pub open spec fn directive_of(key: Seq<char>) -> Option<DirectiveView> {
    let t = trim(key);
    if starts_with(t, "${{"@) && ends_with(t, "}}"@) && "${{"@.len() + "}}"@.len() <= t.len() {
        inner_directive(trim(t.subrange("${{"@.len() as int, t.len() - "}}"@.len())))
    } else {
        None
    }
}

/// Whether `v` begins with the characters of `lit`.
fn begins_with(v: &[char], lit: &str) -> (b: bool)
    ensures
        b == starts_with(v@, lit@),
{
    let p = chars_of(lit);
    let b = occurs_at_exec(v, p.as_slice(), 0);
    b
}

/// The trimmed text of `v` after its first `skip` characters.
fn trimmed_rest(v: &[char], skip: usize) -> (r: String)
    requires
        skip <= v@.len(),
    ensures
        r@ == trim(v@.subrange(skip as int, v@.len() as int)),
{
    let rest = slice_chars(v, skip, v.len());
    let t = trim_chars(rest.as_slice());
    string_from(t.as_slice())
}

fn parse_each(rest: &[char]) -> (r: Option<TemplateDirective>)
    ensures
        match r {
            Some(d) => each_directive(rest@) == Some(d.view()),
            None => each_directive(rest@) is None,
        },
{
    let t = trim_chars(rest);
    let sep = chars_of(" in ");
    match find_exec(t.as_slice(), sep.as_slice()) {
        Some(p) => {
            let n = t.len();
            assert(p + sep@.len() <= n);
            let var = trim_chars(slice_chars(t.as_slice(), 0, p).as_slice());
            let coll = trim_chars(slice_chars(t.as_slice(), p + sep.len(), n).as_slice());
            if var.len() > 0 && coll.len() > 0 {
                Some(
                    TemplateDirective::Each(
                        string_from(var.as_slice()),
                        string_from(coll.as_slice()),
                    ),
                )
            } else {
                None
            }
        },
        None => None,
    }
}

// ---------------------------------------------------------------------------
// The if/elseif/else chain of a sequence
// ---------------------------------------------------------------------------

/// What a sequence item is, as far as the branch chain is concerned.
#[derive(Debug, Clone, Copy, PartialEq, Eq, Structural)]
pub enum ItemKind {
    If,
    ElseIf,
    Else,
    Each,
    Plain,
}

/// What to do with a sequence item.
#[derive(Debug, Clone, Copy, PartialEq, Eq, Structural)]
pub enum ChainStep {
    /// Evaluate the branch condition, then report it with `resolve`.
    Evaluate,
    /// Expand the branch body (an `else` whose chain took no branch yet).
    Expand,
    /// Leave the branch out: its chain already took a branch.
    Skip,
    /// Expand the body once per element of the collection.
    Iterate,
    /// Not a directive: process the item itself.
    Recurse,
}

/// The state of the if/elseif/else chain while a sequence is walked: whether
/// a chain is open, and whether one of its branches was taken.
#[derive(Debug, Clone, Copy, PartialEq, Eq, Structural)]
pub struct BranchChain {
    pub active: bool,
    pub taken: bool,
}

/// The chain state once an item of `kind` is met: an `if` opens a new chain,
/// an `elseif`/`else` continues the open one (or opens one), anything else
/// closes it.
pub open spec fn chain_enter(s: BranchChain, kind: ItemKind) -> BranchChain {
    match kind {
        ItemKind::If => BranchChain { active: true, taken: false },
        ItemKind::ElseIf | ItemKind::Else => {
            if s.active {
                s
            } else {
                BranchChain { active: true, taken: false }
            }
        },
        _ => BranchChain { active: false, taken: false },
    }
}

/// What is done with an item of `kind` met in state `s`.
pub open spec fn chain_step(s: BranchChain, kind: ItemKind) -> ChainStep {
    let e = chain_enter(s, kind);
    match kind {
        ItemKind::If => ChainStep::Evaluate,
        ItemKind::ElseIf => if e.taken {
            ChainStep::Skip
        } else {
            ChainStep::Evaluate
        },
        ItemKind::Else => if e.taken {
            ChainStep::Skip
        } else {
            ChainStep::Expand
        },
        ItemKind::Each => ChainStep::Iterate,
        ItemKind::Plain => ChainStep::Recurse,
    }
}

/// Whether a branch of `kind` whose condition evaluates to `cond` would be
/// taken were its chain still open: an `else` always would.
pub open spec fn branch_holds(kind: ItemKind, cond: bool) -> bool {
    kind == ItemKind::Else || cond
}

/// One item in state `s`, its condition evaluating to `cond`: the next state
/// and whether the item's branch body is expanded.
pub open spec fn chain_item(s: BranchChain, kind: ItemKind, cond: bool) -> (BranchChain, bool) {
    let e = chain_enter(s, kind);
    match chain_step(s, kind) {
        ChainStep::Evaluate => if cond {
            (BranchChain { active: e.active, taken: true }, true)
        } else {
            (e, false)
        },
        ChainStep::Expand => (BranchChain { active: e.active, taken: true }, true),
        _ => (e, false),
    }
}

/// Walks the items (kind and condition value) from state `s`: for each item,
/// whether its branch body is expanded.
pub open spec fn chain_run(s: BranchChain, items: Seq<(ItemKind, bool)>) -> Seq<bool>
    decreases items.len(),
{
    if items.len() == 0 {
        Seq::empty()
    } else {
        let (next, expanded) = chain_item(s, items[0].0, items[0].1);
        seq![expanded] + chain_run(next, items.drop_first())
    }
}

impl BranchChain {
    /// The state before the first item of a sequence.
    pub fn new() -> (c: Self)
        ensures
            !c.active,
            !c.taken,
    {
        BranchChain { active: false, taken: false }
    }

    /// Meets an item of `kind`: returns what to do with it.  For `Expand` the
    /// branch counts as taken at once; for `Evaluate` the caller reports the
    /// condition with `resolve`.
    pub fn enter(&mut self, kind: ItemKind) -> (step: ChainStep)
        ensures
            step == chain_step(*old(self), kind),
            step == ChainStep::Expand ==> *final(self) == chain_item(*old(self), kind, true).0,
            step != ChainStep::Expand ==> *final(self) == chain_enter(*old(self), kind),
    {
        match kind {
            ItemKind::If => {
                self.active = true;
                self.taken = false;
                ChainStep::Evaluate
            },
            ItemKind::ElseIf => {
                if !self.active {
                    self.active = true;
                    self.taken = false;
                }
                if self.taken {
                    ChainStep::Skip
                } else {
                    ChainStep::Evaluate
                }
            },
            ItemKind::Else => {
                if !self.active {
                    self.active = true;
                    self.taken = false;
                }
                if self.taken {
                    ChainStep::Skip
                } else {
                    self.taken = true;
                    ChainStep::Expand
                }
            },
            _ => {
                self.active = false;
                self.taken = false;
                if kind == ItemKind::Each {
                    ChainStep::Iterate
                } else {
                    ChainStep::Recurse
                }
            },
        }
    }

    /// Reports the value of the condition that `enter` asked to evaluate:
    /// returns whether the branch body is expanded.
    pub fn resolve(&mut self, holds: bool) -> (expand: bool)
        ensures
            expand == holds,
            final(self).active == old(self).active,
            final(self).taken == (old(self).taken || holds),
    {
        if holds {
            self.taken = true;
        }
        holds
    }
}

proof fn lemma_chain_continues(s: BranchChain, items: Seq<(ItemKind, bool)>)
    requires
        s.active,
        forall|i: int|
            0 <= i < items.len() ==> (#[trigger] items[i]).0 == ItemKind::ElseIf || items[i].0
                == ItemKind::Else,
    ensures
        chain_run(s, items).len() == items.len(),
        forall|i: int|
            0 <= i < items.len() ==> #[trigger] chain_run(s, items)[i] == (!s.taken
                && branch_holds(items[i].0, items[i].1) && forall|j: int|
                0 <= j < i ==> !branch_holds(items[j].0, items[j].1)),
    decreases items.len(),
{
    if items.len() > 0 {
        let (next, first) = chain_item(s, items[0].0, items[0].1);
        let rest = items.drop_first();
        assert forall|i: int| 0 <= i < rest.len() implies (#[trigger] rest[i]).0 == ItemKind::ElseIf
            || rest[i].0 == ItemKind::Else by {
            assert(rest[i] == items[i + 1]);
        }
        lemma_chain_continues(next, rest);
        assert(next.active);
        assert(next.taken == (s.taken || branch_holds(items[0].0, items[0].1)));
        let run = chain_run(s, items);
        assert(run == seq![first] + chain_run(next, rest));
        assert forall|i: int| 0 <= i < items.len() implies #[trigger] run[i] == (!s.taken
            && branch_holds(items[i].0, items[i].1) && forall|j: int|
            0 <= j < i ==> !branch_holds(items[j].0, items[j].1)) by {
            if i > 0 {
                assert(run[i] == chain_run(next, rest)[i - 1]);
                assert(rest[i - 1] == items[i]);
                if forall|j: int| 0 <= j < i ==> !branch_holds(items[j].0, items[j].1) {
                    assert forall|j: int| 0 <= j < i - 1 implies !branch_holds(
                        rest[j].0,
                        rest[j].1,
                    ) by {
                        assert(rest[j] == items[j + 1]);
                    }
                } else {
                    let j0 = choose|j: int|
                        0 <= j < i && branch_holds(items[j].0, items[j].1);
                    if j0 > 0 {
                        assert(rest[j0 - 1] == items[j0]);
                    }
                }
            }
        }
    }
}

/// In an if/elseif/else chain (an `if` followed only by `elseif`s and
/// `else`s), exactly the first branch whose condition holds is expanded, an
/// `else` counting as a branch that always holds; every other branch is left
/// out, whatever state the walk was in before the `if`.
pub proof fn lemma_first_true_branch(s: BranchChain, items: Seq<(ItemKind, bool)>)
    requires
        items.len() > 0,
        items[0].0 == ItemKind::If,
        forall|i: int|
            1 <= i < items.len() ==> (#[trigger] items[i]).0 == ItemKind::ElseIf || items[i].0
                == ItemKind::Else,
    ensures
        chain_run(s, items).len() == items.len(),
        forall|i: int|
            0 <= i < items.len() ==> #[trigger] chain_run(s, items)[i] == (branch_holds(
                items[i].0,
                items[i].1,
            ) && forall|j: int| 0 <= j < i ==> !branch_holds(items[j].0, items[j].1)),
{
    let (next, first) = chain_item(s, items[0].0, items[0].1);
    let rest = items.drop_first();
    assert forall|i: int| 0 <= i < rest.len() implies (#[trigger] rest[i]).0 == ItemKind::ElseIf
        || rest[i].0 == ItemKind::Else by {
        assert(rest[i] == items[i + 1]);
    }
    lemma_chain_continues(next, rest);
    let run = chain_run(s, items);
    assert(run == seq![first] + chain_run(next, rest));
    assert(first == items[0].1);
    assert(next.taken == items[0].1);
    assert forall|i: int| 0 <= i < items.len() implies #[trigger] run[i] == (branch_holds(
        items[i].0,
        items[i].1,
    ) && forall|j: int| 0 <= j < i ==> !branch_holds(items[j].0, items[j].1)) by {
        if i > 0 {
            assert(run[i] == chain_run(next, rest)[i - 1]);
            assert(rest[i - 1] == items[i]);
            if forall|j: int| 0 <= j < i ==> !branch_holds(items[j].0, items[j].1) {
                assert(!branch_holds(items[0].0, items[0].1));
                assert forall|j: int| 0 <= j < i - 1 implies !branch_holds(rest[j].0, rest[j].1) by {
                    assert(rest[j] == items[j + 1]);
                }
            } else {
                let j0 = choose|j: int| 0 <= j < i && branch_holds(items[j].0, items[j].1);
                if j0 > 0 {
                    assert(rest[j0 - 1] == items[j0]);
                }
            }
        }
    }
}


// ---------------------------------------------------------------------------
// The engine's state: repository paths and the include stack
// ---------------------------------------------------------------------------

/// Template resolution engine state: the repository root that template
/// references are relative to, the resource repositories that
/// `path@repo` references name, and the stack of templates being included,
/// which bounds nesting and rejects cycles.
pub struct TemplateEngine {
    repo_root: std::path::PathBuf,
    resource_repos: Vec<(String, std::path::PathBuf)>,
    include_stack: Vec<String>,
}

/// The path registered last under `name` in a list of registrations.
pub open spec fn repo_lookup(
    repos: Seq<(Seq<char>, std::path::PathBuf)>,
    name: Seq<char>,
) -> Option<std::path::PathBuf>
    decreases repos.len(),
{
    if repos.len() == 0 {
        None
    } else if repos.last().0 == name {
        Some(repos.last().1)
    } else {
        repo_lookup(repos.drop_last(), name)
    }
}

/// Message of the error for an include beyond the depth limit.
pub open spec fn depth_message(stack: Seq<Seq<char>>) -> Seq<char> {
    "maximum template inclusion depth ("@ + decimal(MAX_TEMPLATE_DEPTH as nat)
        + ") exceeded. Include stack:\n  "@ + join(stack, "\n  -> "@)
}

/// Message of the error for an include of a template already being included.
pub open spec fn cycle_message(stack: Seq<Seq<char>>, path: Seq<char>) -> Seq<char> {
    "circular template reference detected:\n  "@ + join(stack.push(path), "\n  -> "@)
}

impl TemplateEngine {
    /// Reads a YAML key as a template directive: `${{ if c }}`, `${{ elseif c }}`
    /// (also `${{ else if c }}`), `${{ else }}` or `${{ each v in c }}`.
    pub fn parse_directive(key: &str) -> (r: Option<TemplateDirective>)
        ensures
            match r {
                Some(d) => directive_of(key@) == Some(d.view()),
                None => directive_of(key@) is None,
            },
    {
        let t = trim_chars(chars_of(key).as_slice());
        let open = chars_of("${{");
        let close = chars_of("}}");
        if !begins_with(t.as_slice(), "${{") {
            return None;
        }
        let n = t.len();
        if close.len() > n || !occurs_at_exec(t.as_slice(), close.as_slice(), n - close.len()) {
            return None;
        }
        proof {
            reveal_strlit("${{");
            reveal_strlit("}}");
            assert(t@.subrange(n - 2, n as int) == "}}"@);
            assert(t@.subrange(0, 3) == "${{"@);
            let pre = t@.subrange(0, 3);
            let post = t@.subrange(n - 2, n as int);
            assert(pre[1] == '{' && pre[2] == '{');
            assert(post[0] == '}');
            assert(pre[1] == t@[1] && pre[2] == t@[2]);
            assert(post[0] == t@[n - 2]);
            assert(n >= 5);
        }
        let inner = trim_chars(slice_chars(t.as_slice(), open.len(), n - close.len()).as_slice());
        let iv = inner.as_slice();
        proof {
            reveal_strlit("if ");
            reveal_strlit("elseif ");
            reveal_strlit("else if ");
            reveal_strlit("each ");
        }
        if begins_with(iv, "if ") {
            Some(TemplateDirective::If(trimmed_rest(iv, 3)))
        } else if begins_with(iv, "elseif ") {
            Some(TemplateDirective::ElseIf(trimmed_rest(iv, 7)))
        } else if begins_with(iv, "else if ") {
            Some(TemplateDirective::ElseIf(trimmed_rest(iv, 8)))
        } else if crate::text::chars_eq_str(iv, "else") {
            Some(TemplateDirective::Else)
        } else if begins_with(iv, "each ") {
            let rest = slice_chars(iv, 5, iv.len());
            parse_each(rest.as_slice())
        } else {
            None
        }
    }

    /// The include stack: the templates being included, outermost first.
    pub closed spec fn stack(&self) -> Seq<Seq<char>> {
        self.include_stack@.map_values(|t: String| t@)
    }

    /// The resource repositories in the order they were registered.
    pub closed spec fn repos(&self) -> Seq<(Seq<char>, std::path::PathBuf)> {
        self.resource_repos@.map_values(|e: (String, std::path::PathBuf)| (e.0@, e.1))
    }

    pub closed spec fn root(&self) -> std::path::PathBuf {
        self.repo_root
    }

    /// The include stack never holds a template twice and never grows past
    /// the depth limit.
    pub open spec fn wf(&self) -> bool {
        &&& self.stack().len() <= MAX_TEMPLATE_DEPTH
        &&& self.stack().no_duplicates()
    }

    /// Create a new template engine.
    pub fn new(repo_root: std::path::PathBuf) -> (e: Self)
        ensures
            e.wf(),
            e.root() == repo_root,
            e.repos() == Seq::<(Seq<char>, std::path::PathBuf)>::empty(),
            e.stack() == Seq::<Seq<char>>::empty(),
    {
        let e = TemplateEngine { repo_root, resource_repos: Vec::new(), include_stack: Vec::new() };
        assert(e.stack() =~= Seq::<Seq<char>>::empty());
        assert(e.repos() =~= Seq::<(Seq<char>, std::path::PathBuf)>::empty());
        e
    }

    /// Add a resource repository path for cross-repo template references; a
    /// later registration of a name replaces an earlier one.
    pub fn with_resource_repo(self, name: String, path: std::path::PathBuf) -> (e: Self)
        ensures
            e.repos() == self.repos().push((name@, path)),
            e.stack() == self.stack(),
            e.root() == self.root(),
    {
        let mut e = self;
        let ghost before = e.resource_repos@;
        e.resource_repos.push((name, path));
        assert(e.repos() =~= self.repos().push((name@, path)));
        e
    }

    /// The repository root that local template references are relative to.
    pub fn repo_root(&self) -> (r: &std::path::PathBuf)
        ensures
            *r == self.root(),
    {
        &self.repo_root
    }

    /// The path registered for resource repository `name`, if any.
    pub fn resource_repo(&self, name: &str) -> (r: Option<&std::path::PathBuf>)
        ensures
            match r {
                Some(p) => repo_lookup(self.repos(), name@) == Some(*p),
                None => repo_lookup(self.repos(), name@) is None,
            },
    {
        let ghost all = self.repos();
        let mut i = self.resource_repos.len();
        assert(all.subrange(0, i as int) == all);
        while i > 0
            invariant
                i <= self.resource_repos@.len(),
                all == self.repos(),
                repo_lookup(all, name@) == repo_lookup(all.subrange(0, i as int), name@),
            decreases i,
        {
            let entry = &self.resource_repos[i - 1];
            let ghost pre = all.subrange(0, i as int);
            assert(pre.last() == (entry.0@, entry.1));
            assert(pre.drop_last() == all.subrange(0, i - 1));
            if str_eq(entry.0.as_str(), name) {
                return Some(&entry.1);
            }
            i = i - 1;
        }
        None
    }

    /// The templates being included, outermost first.
    pub fn include_stack(&self) -> (r: &Vec<String>)
        ensures
            r@.map_values(|t: String| t@) == self.stack(),
    {
        &self.include_stack
    }

    /// Push a template onto the include stack, checking the depth limit and
    /// cycles.  On failure the stack is left as it was.
    pub fn push_template(&mut self, canonical_path: &str) -> (r: Result<(), ParseError>)
        requires
            old(self).wf(),
        ensures
            final(self).wf(),
            final(self).root() == old(self).root(),
            final(self).repos() == old(self).repos(),
            old(self).stack().len() >= MAX_TEMPLATE_DEPTH ==> {
                &&& r matches Err(e) && e.message@ == "template error: "@ + depth_message(
                    old(self).stack(),
                ) && e.kind == ParseErrorKind::TemplateError
                &&& final(self).stack() == old(self).stack()
            },
            old(self).stack().len() < MAX_TEMPLATE_DEPTH && old(self).stack().contains(
                canonical_path@,
            ) ==> {
                &&& r matches Err(e) && e.message@ == "template error: "@ + cycle_message(
                    old(self).stack(),
                    canonical_path@,
                ) && e.kind == ParseErrorKind::TemplateError
                &&& final(self).stack() == old(self).stack()
            },
            old(self).stack().len() < MAX_TEMPLATE_DEPTH && !old(self).stack().contains(
                canonical_path@,
            ) ==> r is Ok && final(self).stack() == old(self).stack().push(canonical_path@),
    {
        let ghost st = self.stack();
        if self.include_stack.len() >= MAX_TEMPLATE_DEPTH {
            let mut msg = String::from_str("maximum template inclusion depth (");
            let d = usize_to_decimal(MAX_TEMPLATE_DEPTH);
            msg.append(d.as_str());
            msg.append(") exceeded. Include stack:\n  ");
            let listed = join_strings(&self.include_stack, "\n  -> ");
            msg.append(listed.as_str());
            let err = TemplateError::new(msg.as_str(), TemplateErrorKind::MaxDepthExceeded);
            return Err(err.to_parse_error());
        }
        let mut i: usize = 0;
        while i < self.include_stack.len()
            invariant
                i <= self.include_stack@.len(),
                st == self.stack(),
                *self == *old(self),
                st == old(self).stack(),
                st.len() < MAX_TEMPLATE_DEPTH,
                old(self).wf(),
                forall|k: int| 0 <= k < i ==> st[k] != canonical_path@,
            decreases self.include_stack@.len() - i,
        {
            assert(st[i as int] == self.include_stack@[i as int]@);
            if str_eq(self.include_stack[i].as_str(), canonical_path) {
                let mut cycle: Vec<String> = Vec::new();
                let mut k: usize = 0;
                while k < self.include_stack.len()
                    invariant
                        k <= self.include_stack@.len(),
                        st == self.stack(),
                        *self == *old(self),
                        st == old(self).stack(),
                        st.len() < MAX_TEMPLATE_DEPTH,
                        old(self).wf(),
                        cycle@.map_values(|t: String| t@) == st.subrange(0, k as int),
                    decreases self.include_stack@.len() - k,
                {
                    let ghost before = cycle@.map_values(|t: String| t@);
                    let t = self.include_stack[k].clone();
                    cycle.push(t);
                    assert(cycle@.map_values(|t: String| t@) == before.push(st[k as int]));
                    assert(st.subrange(0, k + 1) == st.subrange(0, k as int).push(st[k as int]));
                    k = k + 1;
                }
                let ghost before = cycle@.map_values(|t: String| t@);
                cycle.push(String::from_str(canonical_path));
                assert(st.subrange(0, st.len() as int) == st);
                assert(cycle@.map_values(|t: String| t@) == before.push(canonical_path@));
                let mut msg = String::from_str("circular template reference detected:\n  ");
                let listed = join_strings(&cycle, "\n  -> ");
                msg.append(listed.as_str());
                let err = TemplateError::new(msg.as_str(), TemplateErrorKind::CircularReference);
                proof {
                    assert(st[i as int] == canonical_path@);
                }
                return Err(err.to_parse_error());
            }
            i = i + 1;
        }
        let ghost before = self.include_stack@;
        self.include_stack.push(String::from_str(canonical_path));
        proof {
            assert(self.stack() =~= st.push(canonical_path@));
            assert(!st.contains(canonical_path@));
        }
        Ok(())
    }

    /// Pop the current template from the include stack.
    pub fn pop_template(&mut self)
        requires
            old(self).wf(),
        ensures
            final(self).wf(),
            final(self).root() == old(self).root(),
            final(self).repos() == old(self).repos(),
            final(self).stack() == if old(self).stack().len() == 0 {
                old(self).stack()
            } else {
                old(self).stack().drop_last()
            },
    {
        let ghost st = self.stack();
        let _ = self.include_stack.pop();
        proof {
            if st.len() > 0 {
                assert(self.stack() =~= st.drop_last());
                assert forall|a: int, b: int|
                    0 <= a < b < st.drop_last().len() implies st.drop_last()[a] != st.drop_last()[b] by {
                    assert(st.drop_last()[a] == st[a] && st.drop_last()[b] == st[b]);
                }
            } else {
                assert(self.stack() =~= st);
            }
        }
    }
}

/// Whether two string slices hold the same characters.
pub fn str_eq(a: &str, b: &str) -> (r: bool)
    ensures
        r == (a@ == b@),
{
    let av = chars_of(a);
    crate::text::chars_eq_str(av.as_slice(), b)
}

// ---------------------------------------------------------------------------
// Template files
// ---------------------------------------------------------------------------

/// The text that `Path::display` shows for a path: a function of the path
/// alone.
pub uninterp spec fn path_display(p: std::path::PathBuf) -> Seq<char>;

/// `Path::display`, as a string: the text named `path_display`.
#[verifier::external_body]
fn path_text(p: &std::path::PathBuf) -> (r: String)
    ensures
        r@ == path_display(*p),
{
    p.display().to_string()
}

/// A reference split at its first '@': the text before it and after it.
pub open spec fn split_at_sign(r: Seq<char>) -> Option<(Seq<char>, Seq<char>)> {
    match find(r, seq!['@']) {
        Some(i) => Some((r.subrange(0, i), r.subrange(i + 1, r.len() as int))),
        None => None,
    }
}

/// The files to look in for the template `r`, in order, each with whether a
/// miss there ends the search.  For `a@b`: in resource repository `a` at
/// path `b`, and nothing else; where no repository `a` is registered, in
/// repository `b` at path `a` (written the other way round).  Then, for
/// every reference that does not name repository `a`, `r` under the root.
pub open spec fn candidates_spec(
    repos: Seq<(Seq<char>, std::path::PathBuf)>,
    root: std::path::PathBuf,
    r: Seq<char>,
) -> Seq<(std::path::PathBuf, bool)> {
    let local = seq![(joined_path(root, r), true)];
    match split_at_sign(r) {
        Some((a, b)) => match repo_lookup(repos, a) {
            Some(p) => seq![(joined_path(p, b), true)],
            None => match repo_lookup(repos, b) {
                Some(q) => seq![(joined_path(q, a), false)] + local,
                None => local,
            },
        },
        None => local,
    }
}

/// The message of the error for a template `r` found in none of its files:
/// the repository it names and where it looked there, or else where it
/// looked under the root.
pub open spec fn not_found_message(
    repos: Seq<(Seq<char>, std::path::PathBuf)>,
    root: std::path::PathBuf,
    r: Seq<char>,
) -> Seq<char> {
    let local = "template '"@ + r + "' not found (looked in "@ + path_display(joined_path(root, r)) + ")"@;
    match split_at_sign(r) {
        Some((a, b)) => match repo_lookup(repos, a) {
            Some(p) => "template '"@ + b + "' not found in repository '"@ + a + "' (looked in "@
                + path_display(joined_path(p, b)) + ")"@,
            None => local,
        },
        None => local,
    }
}

fn split_reference(r: &str) -> (parts: Option<(String, String)>)
    ensures
        match parts {
            Some((a, b)) => split_at_sign(r@) == Some((a@, b@)),
            None => split_at_sign(r@) is None,
        },
{
    let v = chars_of(r);
    let mut at: Vec<char> = Vec::new();
    at.push('@');
    assert(at@ =~= seq!['@']);
    match find_exec(v.as_slice(), at.as_slice()) {
        Some(i) => {
            assert(crate::text::occurs_at(v@, at@, i as int));
            let n = v.len();
            assert(i + 1 <= n);
            let a = string_from(slice_chars(v.as_slice(), 0, i).as_slice());
            let b = string_from(slice_chars(v.as_slice(), i + 1, n).as_slice());
            Some((a, b))
        },
        None => None,
    }
}

fn push_str(out: &mut String, s: &str)
    ensures
        final(out)@ == old(out)@ + s@,
{
    out.append(s);
}

impl TemplateEngine {
    /// The files to look in for a template reference, in order, each with
    /// whether a miss there ends the search (see [`candidates_spec`]).
    pub fn template_candidates(&self, template_ref: &str) -> (r: Vec<(std::path::PathBuf, bool)>)
        ensures
            r@ == candidates_spec(self.repos(), self.root(), template_ref@),
    {
        let mut out: Vec<(std::path::PathBuf, bool)> = Vec::new();
        match split_reference(template_ref) {
            Some((a, b)) => match self.resource_repo(a.as_str()) {
                Some(p) => {
                    out.push((path_join(p, b.as_str()), true));
                    assert(out@ =~= candidates_spec(self.repos(), self.root(), template_ref@));
                    return out;
                },
                None => match self.resource_repo(b.as_str()) {
                    Some(q) => {
                        out.push((path_join(q, a.as_str()), false));
                    },
                    None => {},
                },
            },
            None => {},
        }
        out.push((path_join(&self.repo_root, template_ref), true));
        assert(out@ =~= candidates_spec(self.repos(), self.root(), template_ref@));
        out
    }

    /// The file of a template reference, given `hit`, the place in
    /// [`TemplateEngine::template_candidates`] of the first file that
    /// exists (none, or a place past the end, where none does); else the
    /// not-found error for the reference.
    pub fn located(&self, template_ref: &str, hit: Option<usize>) -> (r: Result<std::path::PathBuf, ParseError>)
        ensures
            ({
                let c = candidates_spec(self.repos(), self.root(), template_ref@);
                match hit {
                    Some(i) if i < c.len() => r == Ok::<std::path::PathBuf, ParseError>(c[i as int].0),
                    _ => r matches Err(e) && e.kind == ParseErrorKind::TemplateError && e.line == 0
                        && e.column == 0 && e.message@ == "template error in "@ + seq!['\''] + template_ref@
                        + seq!['\'', ':', ' '] + not_found_message(self.repos(), self.root(), template_ref@),
                }
            }),
    {
        let mut cands = self.template_candidates(template_ref);
        if let Some(i) = hit {
            if i < cands.len() {
                let (p, _) = cands.remove(i);
                return Ok(p);
            }
        }
        let mut msg = String::new();
        let ghost local = "template '"@ + template_ref@ + "' not found (looked in "@ + path_display(
            joined_path(self.root(), template_ref@),
        ) + ")"@;
        let mut done = false;
        match split_reference(template_ref) {
            Some((a, b)) => match self.resource_repo(a.as_str()) {
                Some(p) => {
                    let full = path_join(p, b.as_str());
                    push_str(&mut msg, "template '");
                    push_str(&mut msg, b.as_str());
                    push_str(&mut msg, "' not found in repository '");
                    push_str(&mut msg, a.as_str());
                    push_str(&mut msg, "' (looked in ");
                    let shown = path_text(&full);
                    push_str(&mut msg, shown.as_str());
                    push_str(&mut msg, ")");
                    done = true;
                },
                None => {},
            },
            None => {},
        }
        if !done {
            let full = path_join(&self.repo_root, template_ref);
            push_str(&mut msg, "template '");
            push_str(&mut msg, template_ref);
            push_str(&mut msg, "' not found (looked in ");
            let shown = path_text(&full);
            push_str(&mut msg, shown.as_str());
            push_str(&mut msg, ")");
        }
        assert(msg@ =~= not_found_message(self.repos(), self.root(), template_ref@));
        let e = TemplateError::new(msg.as_str(), TemplateErrorKind::NotFound).with_path(template_ref);
        let pe = e.to_parse_error();
        assert(pe.message@ =~= "template error in "@ + seq!['\''] + template_ref@ + seq!['\'', ':', ' '] + not_found_message(
            self.repos(),
            self.root(),
            template_ref@,
        ));
        Err(pe)
    }
}

/// Entering a template and leaving it again restores the include stack.
pub proof fn lemma_push_pop_restores(before: Seq<Seq<char>>, path: Seq<char>)
    ensures
        before.push(path).drop_last() == before,
{
    assert(before.push(path).drop_last() =~= before);
}

} // verus!
