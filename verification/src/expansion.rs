//! Expansion of the `${{ if }}`, `${{ elseif }}`, `${{ else }}` and
//! `${{ each }}` directives of a YAML tree, with compile-time expressions
//! substituted in its strings.  The tree is this library's own: scalars,
//! sequences, and mappings whose entries keep their order.  Evaluating an
//! expression is the caller's part: it is handed in as functions over the
//! caller's scope.

use vstd::prelude::*;
use crate::parse_error::{ParseError, ParseErrorKind};
use crate::text::{chars_of, lemma_trim_keeps_out, trim};
use crate::template::{
    chain_enter, chain_item, chain_step, directive_of, str_eq, BranchChain, ChainStep,
    DirectiveView, ItemKind, TemplateDirective, TemplateEngine, TemplateError, TemplateErrorKind,
};

verus! {

broadcast use vstd::string::group_string_axioms;

/// A YAML value.
#[derive(Debug, PartialEq)]
pub enum YamlNode {
    Null,
    Bool(bool),
    /// A number, as its canonical text.
    Number(String),
    String(String),
    Sequence(Vec<YamlNode>),
    /// Entries in order; no two keys are equal.
    Mapping(Vec<(YamlNode, YamlNode)>),
    /// A tagged value: `!tag value`.
    Tagged(String, Box<YamlNode>),
}

/// A YAML value with its text as character sequences.
pub enum NodeView {
    Null,
    Bool(bool),
    Number(Seq<char>),
    Str(Seq<char>),
    Sequence(Seq<NodeView>),
    Mapping(Seq<(NodeView, NodeView)>),
    Tagged(Seq<char>, Box<NodeView>),
}

pub open spec fn node_view(n: YamlNode) -> NodeView
    decreases n,
{
    match n {
        YamlNode::Null => NodeView::Null,
        YamlNode::Bool(b) => NodeView::Bool(b),
        YamlNode::Number(t) => NodeView::Number(t@),
        YamlNode::String(s) => NodeView::Str(s@),
        YamlNode::Sequence(items) => NodeView::Sequence(nodes_view(items@)),
        YamlNode::Mapping(entries) => NodeView::Mapping(entries_view(entries@)),
        YamlNode::Tagged(tag, v) => NodeView::Tagged(tag@, Box::new(node_view(*v))),
    }
}

pub open spec fn nodes_view(s: Seq<YamlNode>) -> Seq<NodeView>
    decreases s,
{
    if s.len() == 0 {
        Seq::empty()
    } else {
        nodes_view(s.subrange(0, s.len() - 1)).push(node_view(s[s.len() - 1]))
    }
}

pub open spec fn entries_view(s: Seq<(YamlNode, YamlNode)>) -> Seq<(NodeView, NodeView)>
    decreases s,
{
    if s.len() == 0 {
        Seq::empty()
    } else {
        entries_view(s.subrange(0, s.len() - 1)).push(
            (node_view(s[s.len() - 1].0), node_view(s[s.len() - 1].1)),
        )
    }
}

impl View for YamlNode {
    type V = NodeView;

    open spec fn view(&self) -> NodeView {
        node_view(*self)
    }
}

pub(crate) proof fn lemma_nodes_view(s: Seq<YamlNode>)
    ensures
        nodes_view(s).len() == s.len(),
        forall|i: int| 0 <= i < s.len() ==> #[trigger] nodes_view(s)[i] == node_view(s[i]),
    decreases s.len(),
{
    if s.len() > 0 {
        let d = s.subrange(0, s.len() - 1);
        lemma_nodes_view(d);
        assert forall|i: int| 0 <= i < s.len() implies #[trigger] nodes_view(s)[i] == node_view(s[i]) by {
            if i < s.len() - 1 {
                assert(d[i] == s[i]);
            }
        }
    }
}

pub(crate) proof fn lemma_entries_view(s: Seq<(YamlNode, YamlNode)>)
    ensures
        entries_view(s).len() == s.len(),
        forall|i: int|
            0 <= i < s.len() ==> #[trigger] entries_view(s)[i] == (node_view(s[i].0), node_view(s[i].1)),
    decreases s.len(),
{
    if s.len() > 0 {
        let d = s.subrange(0, s.len() - 1);
        lemma_entries_view(d);
        assert forall|i: int| 0 <= i < s.len() implies #[trigger] entries_view(s)[i] == (
            node_view(s[i].0),
            node_view(s[i].1),
        ) by {
            if i < s.len() - 1 {
                assert(d[i] == s[i]);
            }
        }
    }
}

/// A copy of a node.
pub fn clone_node(n: &YamlNode) -> (r: YamlNode)
    ensures
        r@ == n@,
    decreases n,
{
    match n {
        YamlNode::Null => YamlNode::Null,
        YamlNode::Bool(b) => YamlNode::Bool(*b),
        YamlNode::Number(t) => YamlNode::Number(t.clone()),
        YamlNode::String(s) => YamlNode::String(s.clone()),
        YamlNode::Sequence(items) => {
            let mut out: Vec<YamlNode> = Vec::new();
            let mut i: usize = 0;
            while i < items.len()
                invariant
                    i <= items@.len(),
                    *n == YamlNode::Sequence(*items),
                    nodes_view(out@) == nodes_view(items@.subrange(0, i as int)),
                decreases items@.len() - i,
            {
                proof {
                    assert(decreases_to!(*n => (*n)->Sequence_0));
                    assert(decreases_to!(*items => items@));
                    assert(decreases_to!(items@ => items@[i as int]));
                    assert(decreases_to!(*n => items@[i as int]));
                }
                let c = clone_node(&items[i]);
                proof {
                    assert(out@.push(c).subrange(0, out@.len() as int) == out@);
                    assert(items@.subrange(0, i + 1).subrange(0, i as int) == items@.subrange(0, i as int));
                }
                out.push(c);
                i = i + 1;
            }
            proof {
                assert(items@.subrange(0, items@.len() as int) == items@);
            }
            YamlNode::Sequence(out)
        },
        YamlNode::Mapping(entries) => {
            let mut out: Vec<(YamlNode, YamlNode)> = Vec::new();
            let mut i: usize = 0;
            while i < entries.len()
                invariant
                    i <= entries@.len(),
                    *n == YamlNode::Mapping(*entries),
                    entries_view(out@) == entries_view(entries@.subrange(0, i as int)),
                decreases entries@.len() - i,
            {
                proof {
                    assert(decreases_to!(*n => (*n)->Mapping_0));
                    assert(decreases_to!(*entries => entries@));
                    assert(decreases_to!(entries@ => entries@[i as int]));
                    assert(decreases_to!(entries@[i as int] => entries@[i as int].0));
                    assert(decreases_to!(entries@[i as int] => entries@[i as int].1));
                    assert(decreases_to!(*n => entries@[i as int].0));
                    assert(decreases_to!(*n => entries@[i as int].1));
                }
                let k = clone_node(&entries[i].0);
                let v = clone_node(&entries[i].1);
                proof {
                    assert(out@.push((k, v)).subrange(0, out@.len() as int) == out@);
                    assert(entries@.subrange(0, i + 1).subrange(0, i as int) == entries@.subrange(0, i as int));
                }
                out.push((k, v));
                i = i + 1;
            }
            proof {
                assert(entries@.subrange(0, entries@.len() as int) == entries@);
            }
            YamlNode::Mapping(out)
        },
        YamlNode::Tagged(tag, v) => YamlNode::Tagged(tag.clone(), Box::new(clone_node(v))),
    }
}

impl Clone for YamlNode {
    fn clone(&self) -> (r: Self)
        ensures
            r@ == self@,
    {
        clone_node(self)
    }
}

/// The position of the first entry whose key is `k`.
pub open spec fn key_index(es: Seq<(NodeView, NodeView)>, k: NodeView) -> Option<int>
    decreases es.len(),
{
    if es.len() == 0 {
        None
    } else {
        match key_index(es.drop_last(), k) {
            Some(i) => Some(i),
            None => if es.last().0 == k {
                Some(es.len() - 1)
            } else {
                None
            },
        }
    }
}

/// The entries after inserting `v` under `k`: an entry with key `k` keeps its
/// place and its key and takes the new value; otherwise the entry is added
/// at the end.
pub open spec fn entries_insert(es: Seq<(NodeView, NodeView)>, k: NodeView, v: NodeView) -> Seq<
    (NodeView, NodeView),
> {
    match key_index(es, k) {
        Some(i) => es.update(i, (es[i].0, v)),
        None => es.push((k, v)),
    }
}

proof fn lemma_key_index(es: Seq<(NodeView, NodeView)>, k: NodeView)
    ensures
        match key_index(es, k) {
            Some(i) => 0 <= i < es.len() && es[i].0 == k && forall|j: int| 0 <= j < i ==> es[j].0 != k,
            None => forall|j: int| 0 <= j < es.len() ==> es[j].0 != k,
        },
    decreases es.len(),
{
    if es.len() > 0 {
        let d = es.drop_last();
        lemma_key_index(d, k);
        assert forall|j: int| 0 <= j < d.len() implies d[j] == es[j] by {}
    }
}

/// Whether two nodes are equal.
pub fn node_eq(a: &YamlNode, b: &YamlNode) -> (r: bool)
    ensures
        r == (a@ == b@),
    decreases a,
{
    match (a, b) {
        (YamlNode::Null, YamlNode::Null) => true,
        (YamlNode::Bool(x), YamlNode::Bool(y)) => *x == *y,
        (YamlNode::Number(x), YamlNode::Number(y)) => str_eq(x.as_str(), y.as_str()),
        (YamlNode::String(x), YamlNode::String(y)) => str_eq(x.as_str(), y.as_str()),
        (YamlNode::Sequence(xs), YamlNode::Sequence(ys)) => {
            proof {
                assert(a@ == NodeView::Sequence(nodes_view(xs@)));
                assert(b@ == NodeView::Sequence(nodes_view(ys@)));
                lemma_nodes_view(xs@);
                lemma_nodes_view(ys@);
            }
            if xs.len() != ys.len() {
                return false;
            }
            let mut i: usize = 0;
            while i < xs.len()
                invariant
                    i <= xs@.len(),
                    xs@.len() == ys@.len(),
                    *a == YamlNode::Sequence(*xs),
                    *b == YamlNode::Sequence(*ys),
                    a@ == NodeView::Sequence(nodes_view(xs@)),
                    b@ == NodeView::Sequence(nodes_view(ys@)),
                    nodes_view(xs@).len() == xs@.len(),
                    nodes_view(ys@).len() == ys@.len(),
                    forall|j: int| 0 <= j < xs@.len() ==> #[trigger] nodes_view(xs@)[j] == node_view(xs@[j]),
                    forall|j: int| 0 <= j < ys@.len() ==> #[trigger] nodes_view(ys@)[j] == node_view(ys@[j]),
                    forall|j: int| 0 <= j < i ==> node_view(xs@[j]) == node_view(ys@[j]),
                decreases xs@.len() - i,
            {
                proof {
                    assert(decreases_to!(*a => (*a)->Sequence_0));
                    assert(decreases_to!(*xs => xs@));
                    assert(decreases_to!(xs@ => xs@[i as int]));
                }
                if !node_eq(&xs[i], &ys[i]) {
                    proof {
                        assert(nodes_view(xs@)[i as int] != nodes_view(ys@)[i as int]);
                    }
                    return false;
                }
                i = i + 1;
            }
            proof {
                assert(nodes_view(xs@) =~= nodes_view(ys@));
            }
            true
        },
        (YamlNode::Mapping(xs), YamlNode::Mapping(ys)) => {
            proof {
                assert(a@ == NodeView::Mapping(entries_view(xs@)));
                assert(b@ == NodeView::Mapping(entries_view(ys@)));
                lemma_entries_view(xs@);
                lemma_entries_view(ys@);
            }
            if xs.len() != ys.len() {
                return false;
            }
            let mut i: usize = 0;
            while i < xs.len()
                invariant
                    i <= xs@.len(),
                    xs@.len() == ys@.len(),
                    *a == YamlNode::Mapping(*xs),
                    *b == YamlNode::Mapping(*ys),
                    a@ == NodeView::Mapping(entries_view(xs@)),
                    b@ == NodeView::Mapping(entries_view(ys@)),
                    entries_view(xs@).len() == xs@.len(),
                    entries_view(ys@).len() == ys@.len(),
                    forall|j: int|
                        0 <= j < xs@.len() ==> #[trigger] entries_view(xs@)[j] == (
                            node_view(xs@[j].0),
                            node_view(xs@[j].1),
                        ),
                    forall|j: int|
                        0 <= j < ys@.len() ==> #[trigger] entries_view(ys@)[j] == (
                            node_view(ys@[j].0),
                            node_view(ys@[j].1),
                        ),
                    forall|j: int| 0 <= j < i ==> entries_view(xs@)[j] == entries_view(ys@)[j],
                decreases xs@.len() - i,
            {
                proof {
                    assert(decreases_to!(*a => (*a)->Mapping_0));
                    assert(decreases_to!(*xs => xs@));
                    assert(decreases_to!(xs@ => xs@[i as int]));
                    assert(decreases_to!(xs@[i as int] => xs@[i as int].0));
                    assert(decreases_to!(xs@[i as int] => xs@[i as int].1));
                }
                let same_key = node_eq(&xs[i].0, &ys[i].0);
                if !same_key {
                    proof {
                        assert(entries_view(xs@)[i as int] != entries_view(ys@)[i as int]);
                    }
                    return false;
                }
                let same_value = node_eq(&xs[i].1, &ys[i].1);
                if !same_value {
                    proof {
                        assert(entries_view(xs@)[i as int] != entries_view(ys@)[i as int]);
                    }
                    return false;
                }
                i = i + 1;
            }
            proof {
                assert(entries_view(xs@) =~= entries_view(ys@));
            }
            true
        },
        (YamlNode::Tagged(t, x), YamlNode::Tagged(u, y)) => {
            if !str_eq(t.as_str(), u.as_str()) {
                return false;
            }
            node_eq(x, y)
        },
        _ => false,
    }
}

/// Inserts `v` under `k`, as `entries_insert` says.
pub fn insert_entry(entries: &mut Vec<(YamlNode, YamlNode)>, k: YamlNode, v: YamlNode)
    ensures
        entries_view(final(entries)@) == entries_insert(entries_view(old(entries)@), k@, v@),
{
    let ghost ev0 = entries_view(entries@);
    proof {
        lemma_entries_view(entries@);
        lemma_key_index(ev0, k@);
    }
    let mut i: usize = 0;
    while i < entries.len()
        invariant
            i <= entries@.len(),
            ev0 == entries_view(entries@),
            ev0 == entries_view(old(entries)@),
            ev0.len() == entries@.len(),
            forall|j: int|
                0 <= j < entries@.len() ==> #[trigger] ev0[j] == (
                    node_view(entries@[j].0),
                    node_view(entries@[j].1),
                ),
            forall|j: int| 0 <= j < i ==> ev0[j].0 != k@,
        decreases entries@.len() - i,
    {
        if node_eq(&entries[i].0, &k) {
            proof {
                lemma_key_index(ev0, k@);
                assert(ev0[i as int].0 == k@);
                assert(key_index(ev0, k@) == Some(i as int)) by {
                    match key_index(ev0, k@) {
                        Some(j) => {
                            assert(!(j < i));
                            assert(!(j > i));
                        },
                        None => {},
                    }
                }
            }
            let ghost before = entries@;
            let (old_key, _old_value) = entries.remove(i);
            entries.insert(i, (old_key, v));
            proof {
                assert(old_key == before[i as int].0);
                assert(entries@ =~= before.update(i as int, (old_key, v)));
                lemma_entries_view(entries@);
                assert(entries_view(entries@) =~= ev0.update(i as int, (ev0[i as int].0, v@)));
            }
            return;
        }
        i = i + 1;
    }
    proof {
        lemma_key_index(ev0, k@);
        assert(key_index(ev0, k@) is None);
    }
    let ghost before = entries@;
    entries.push((k, v));
    proof {
        assert(entries@.subrange(0, entries@.len() - 1) == before);
    }
}

// ---------------------------------------------------------------------------
// What the caller's evaluators gave
// ---------------------------------------------------------------------------

/// The caller's part of the expansion, over its scope type `S`:
/// `condition(scope, text)` evaluates a directive condition to whether it
/// holds; `collection(scope, var, text)` evaluates an `each` collection and
/// gives, when it is an array or object, one scope per element with `var`
/// bound to it (`Ok(Err(t))`: the value `t` is neither); `substitute(scope,
/// text)` replaces the compile-time expressions of a string.
pub struct Evaluators<C, E, T> {
    pub condition: C,
    pub collection: E,
    pub substitute: T,
}

/// Each evaluator can be called on any arguments.
pub open spec fn evaluators_ready<
    S,
    C: Fn(&S, &String) -> Result<bool, String>,
    E: Fn(&S, &String, &String) -> Result<Result<Vec<S>, String>, String>,
    T: Fn(&S, &String) -> Result<String, ParseError>,
>(ev: Evaluators<C, E, T>) -> bool {
    &&& forall|s: &S, a: &String| call_requires(ev.condition, (s, a))
    &&& forall|s: &S, a: &String, b: &String| call_requires(ev.collection, (s, a, b))
    &&& forall|s: &S, a: &String| call_requires(ev.substitute, (s, a))
}

/// `condition` gave `out` for the text `c` in scope `s`.
pub open spec fn condition_gave<S, C: Fn(&S, &String) -> Result<bool, String>>(
    f: C,
    s: S,
    c: Seq<char>,
    out: Result<bool, Seq<char>>,
) -> bool {
    exists|a: String, o: Result<bool, String>|
        a@ == c && call_ensures(f, (&s, &a), o) && match (o, out) {
            (Ok(x), Ok(y)) => x == y,
            (Err(x), Err(y)) => x@ == y,
            _ => false,
        }
}

/// `collection` gave `out` for the variable `v` and the text `c` in scope `s`.
pub open spec fn collection_gave<
    S,
    E: Fn(&S, &String, &String) -> Result<Result<Vec<S>, String>, String>,
>(f: E, s: S, v: Seq<char>, c: Seq<char>, out: Result<Result<Seq<S>, Seq<char>>, Seq<char>>) -> bool {
    exists|a: String, b: String, o: Result<Result<Vec<S>, String>, String>|
        a@ == v && b@ == c && call_ensures(f, (&s, &a, &b), o) && match (o, out) {
            (Ok(Ok(x)), Ok(Ok(y))) => x@ == y,
            (Ok(Err(x)), Ok(Err(y))) => x@ == y,
            (Err(x), Err(y)) => x@ == y,
            _ => false,
        }
}

/// `substitute` gave `out` for the text `t` in scope `s`.
pub open spec fn substitute_gave<S, T: Fn(&S, &String) -> Result<String, ParseError>>(
    f: T,
    s: S,
    t: Seq<char>,
    out: Result<Seq<char>, ParseError>,
) -> bool {
    exists|a: String, o: Result<String, ParseError>|
        a@ == t && call_ensures(f, (&s, &a), o) && match (o, out) {
            (Ok(x), Ok(y)) => x@ == y,
            (Err(x), Err(y)) => x == y,
            _ => false,
        }
}

// ---------------------------------------------------------------------------
// Errors
// ---------------------------------------------------------------------------

/// `e` is the template error of kind `ExpressionError` with message `msg`,
/// as a parse error located nowhere.
pub open spec fn expression_failure(e: ParseError, msg: Seq<char>) -> bool {
    &&& e.message@ == "template error: "@ + msg
    &&& e.line == 0
    &&& e.column == 0
    &&& e.context@ == Seq::<char>::empty()
    &&& e.suggestion is None
    &&& e.kind == ParseErrorKind::TemplateError
}

/// "error evaluating if condition '<c>': <m>" (or "elseif").
pub open spec fn condition_message(kind: ItemKind, c: Seq<char>, m: Seq<char>) -> Seq<char> {
    "error evaluating "@ + (if kind == ItemKind::If {
        "if"@
    } else {
        "elseif"@
    }) + " condition '"@ + c + "': "@ + m
}

/// "error evaluating each collection '<c>': <m>".
pub open spec fn collection_message(c: Seq<char>, m: Seq<char>) -> Seq<char> {
    "error evaluating each collection '"@ + c + "': "@ + m
}

/// "each directive requires an array or object, got: <t>".
pub open spec fn not_iterable_message(t: Seq<char>) -> Seq<char> {
    "each directive requires an array or object, got: "@ + t
}

// ---------------------------------------------------------------------------
// Directives in the tree
// ---------------------------------------------------------------------------

/// The directive that a mapping key spells: a string key reading
/// `${{ ... }}` with a directive inside.
pub open spec fn key_directive(k: NodeView) -> Option<DirectiveView> {
    match k {
        NodeView::Str(t) => directive_of(t),
        _ => None,
    }
}

/// The directive of a sequence item: a mapping of one entry whose key is a
/// directive; the entry's value is the directive's body.
pub open spec fn item_directive(item: NodeView) -> Option<DirectiveView> {
    match item {
        NodeView::Mapping(es) => if es.len() == 1 {
            key_directive(es[0].0)
        } else {
            None
        },
        _ => None,
    }
}

/// The body of a directive item.
pub open spec fn item_body(item: NodeView) -> NodeView
    recommends
        item is Mapping,
        item->Mapping_0.len() == 1,
{
    item->Mapping_0[0].1
}

/// What the branch chain makes of an item.
pub open spec fn item_kind(item: NodeView) -> ItemKind {
    match item_directive(item) {
        Some(DirectiveView::If(_)) => ItemKind::If,
        Some(DirectiveView::ElseIf(_)) => ItemKind::ElseIf,
        Some(DirectiveView::Else) => ItemKind::Else,
        Some(DirectiveView::Each(_, _)) => ItemKind::Each,
        None => ItemKind::Plain,
    }
}

/// The condition text of an `if` or `elseif` item.
pub open spec fn item_condition(item: NodeView) -> Seq<char> {
    match item_directive(item) {
        Some(DirectiveView::If(c)) => c,
        Some(DirectiveView::ElseIf(c)) => c,
        _ => Seq::empty(),
    }
}

/// The chain state before the first item of a sequence.
pub open spec fn chain_start() -> BranchChain {
    BranchChain { active: false, taken: false }
}


/// Each evaluator gives one outcome per input, as a function of its
/// arguments' text and the scope.
pub open spec fn evaluators_deterministic<
    S,
    C: Fn(&S, &String) -> Result<bool, String>,
    E: Fn(&S, &String, &String) -> Result<Result<Vec<S>, String>, String>,
    T: Fn(&S, &String) -> Result<String, ParseError>,
>(ev: Evaluators<C, E, T>) -> bool {
    &&& forall|s: S, a1: String, a2: String, o1: Result<bool, String>, o2: Result<bool, String>|
        #![trigger call_ensures(ev.condition, (&s, &a1), o1), call_ensures(ev.condition, (&s, &a2), o2)]
        a1@ == a2@ && call_ensures(ev.condition, (&s, &a1), o1) && call_ensures(
            ev.condition,
            (&s, &a2),
            o2,
        ) ==> match (o1, o2) {
            (Ok(x), Ok(y)) => x == y,
            (Err(x), Err(y)) => x@ == y@,
            _ => false,
        }
    &&& forall|
        s: S,
        a1: String,
        b1: String,
        a2: String,
        b2: String,
        o1: Result<Result<Vec<S>, String>, String>,
        o2: Result<Result<Vec<S>, String>, String>,
    |
        #![trigger call_ensures(ev.collection, (&s, &a1, &b1), o1), call_ensures(ev.collection, (&s, &a2, &b2), o2)]
        a1@ == a2@ && b1@ == b2@ && call_ensures(ev.collection, (&s, &a1, &b1), o1)
            && call_ensures(ev.collection, (&s, &a2, &b2), o2) ==> match (o1, o2) {
            (Ok(Ok(x)), Ok(Ok(y))) => x@ == y@,
            (Ok(Err(x)), Ok(Err(y))) => x@ == y@,
            (Err(x), Err(y)) => x@ == y@,
            _ => false,
        }
    &&& forall|s: S, a1: String, a2: String, o1: Result<String, ParseError>, o2: Result<String, ParseError>|
        #![trigger call_ensures(ev.substitute, (&s, &a1), o1), call_ensures(ev.substitute, (&s, &a2), o2)]
        a1@ == a2@ && call_ensures(ev.substitute, (&s, &a1), o1) && call_ensures(
            ev.substitute,
            (&s, &a2),
            o2,
        ) ==> match (o1, o2) {
            (Ok(x), Ok(y)) => x@ == y@,
            (Err(x), Err(y)) => x == y,
            _ => false,
        }
}

/// What `condition` gives for the text `c` in scope `s`.
pub open spec fn condition_out<S, C: Fn(&S, &String) -> Result<bool, String>>(
    f: C,
    s: S,
    c: Seq<char>,
) -> Result<bool, Seq<char>> {
    choose|o: Result<bool, Seq<char>>| condition_gave(f, s, c, o)
}

/// What `collection` gives for the variable `v` and the text `c` in scope `s`.
pub open spec fn collection_out<
    S,
    E: Fn(&S, &String, &String) -> Result<Result<Vec<S>, String>, String>,
>(f: E, s: S, v: Seq<char>, c: Seq<char>) -> Result<Result<Seq<S>, Seq<char>>, Seq<char>> {
    choose|o: Result<Result<Seq<S>, Seq<char>>, Seq<char>>| collection_gave(f, s, v, c, o)
}

/// What `substitute` gives for the text `t` in scope `s`.
pub open spec fn substitute_out<S, T: Fn(&S, &String) -> Result<String, ParseError>>(
    f: T,
    s: S,
    t: Seq<char>,
) -> Result<Seq<char>, ParseError> {
    choose|o: Result<Seq<char>, ParseError>| substitute_gave(f, s, t, o)
}

/// What substituting the text `t` gives: `t` itself where it holds no `$`
/// (it has no expression, and nothing is evaluated), else what
/// `substitute` gives.
pub open spec fn text_out<S, T: Fn(&S, &String) -> Result<String, ParseError>>(
    f: T,
    s: S,
    t: Seq<char>,
) -> Result<Seq<char>, ParseError> {
    if t.contains('$') {
        substitute_out(f, s, t)
    } else {
        Ok(t)
    }
}

/// An error of the walk: a failed evaluation (the template error of kind
/// `ExpressionError` with this message), or the error that `substitute`
/// gave.
pub enum WalkError {
    Expression(Seq<char>),
    Given(ParseError),
}

/// `e` is the error that `w` describes.
pub open spec fn error_matches(e: ParseError, w: WalkError) -> bool {
    match w {
        WalkError::Expression(m) => expression_failure(e, m),
        WalkError::Given(g) => e == g,
    }
}

/// `r` is the result that `w` describes.
pub open spec fn node_result_matches(r: Result<YamlNode, ParseError>, w: Result<NodeView, WalkError>) -> bool {
    match (r, w) {
        (Ok(x), Ok(y)) => x@ == y,
        (Err(e), Err(v)) => error_matches(e, v),
        _ => false,
    }
}

/// `r` is the list of items that `w` describes.
pub open spec fn items_result_matches(r: Result<Vec<YamlNode>, ParseError>, w: Result<Seq<NodeView>, WalkError>) -> bool {
    match (r, w) {
        (Ok(x), Ok(y)) => nodes_view(x@) == y,
        (Err(e), Err(v)) => error_matches(e, v),
        _ => false,
    }
}

// ---------------------------------------------------------------------------
// The walk
// ---------------------------------------------------------------------------

/// Processing node `n` in scope `s`: strings have their compile-time
/// expressions substituted, sequences and mappings have their directives
/// expanded and their other items processed, other values are kept.
pub open spec fn walk_spec<
    S,
    C: Fn(&S, &String) -> Result<bool, String>,
    E: Fn(&S, &String, &String) -> Result<Result<Vec<S>, String>, String>,
    T: Fn(&S, &String) -> Result<String, ParseError>,
>(ev: Evaluators<C, E, T>, s: S, n: NodeView) -> Result<NodeView, WalkError>
    decreases n, 0nat,
{
    match n {
        NodeView::Str(t) => match text_out(ev.substitute, s, t) {
            Ok(r) => Ok(NodeView::Str(r)),
            Err(e) => Err(WalkError::Given(e)),
        },
        NodeView::Sequence(items) => match items_spec(ev, s, items) {
            Ok(r) => Ok(NodeView::Sequence(r.0)),
            Err(e) => Err(e),
        },
        NodeView::Mapping(es) => match entries_spec(ev, s, es) {
            Ok(r) => Ok(NodeView::Mapping(r)),
            Err(e) => Err(e),
        },
        _ => Ok(n),
    }
}

/// Processing the items of a sequence in order: the items produced and the
/// chain state after them.
pub open spec fn items_spec<
    S,
    C: Fn(&S, &String) -> Result<bool, String>,
    E: Fn(&S, &String, &String) -> Result<Result<Vec<S>, String>, String>,
    T: Fn(&S, &String) -> Result<String, ParseError>,
>(ev: Evaluators<C, E, T>, s: S, items: Seq<NodeView>) -> Result<(Seq<NodeView>, BranchChain), WalkError>
    decreases items, 0nat,
{
    if items.len() == 0 {
        Ok((Seq::<NodeView>::empty(), chain_start()))
    } else {
        match items_spec(ev, s, items.subrange(0, items.len() - 1)) {
            Err(e) => Err(e),
            Ok(done) => match item_spec(ev, s, items[items.len() - 1], done.1) {
                Err(e) => Err(e),
                Ok(more) => Ok((done.0 + more.0, more.1)),
            },
        }
    }
}

/// Processing one sequence item in chain state `chain`: the items it
/// produces and the chain state after it.  A plain item gives itself
/// processed; an `if` (or `elseif` whose chain took no branch yet) whose
/// condition holds, or an `else` whose chain took none, gives its expanded
/// body; an `each` gives its body expanded once per element; a failed
/// evaluation stops the walk with an expression error.
pub open spec fn item_spec<
    S,
    C: Fn(&S, &String) -> Result<bool, String>,
    E: Fn(&S, &String, &String) -> Result<Result<Vec<S>, String>, String>,
    T: Fn(&S, &String) -> Result<String, ParseError>,
>(ev: Evaluators<C, E, T>, s: S, item: NodeView, chain: BranchChain) -> Result<
    (Seq<NodeView>, BranchChain),
    WalkError,
>
    decreases item, 1nat,
{
    let kind = item_kind(item);
    let entered = chain_enter(chain, kind);
    match chain_step(chain, kind) {
        ChainStep::Recurse => match walk_spec(ev, s, item) {
            Ok(v) => Ok((seq![v], entered)),
            Err(e) => Err(e),
        },
        ChainStep::Skip => Ok((Seq::<NodeView>::empty(), entered)),
        ChainStep::Expand => match body_spec(ev, s, item_body(item)) {
            Ok(ps) => Ok((ps, chain_item(chain, kind, true).0)),
            Err(e) => Err(e),
        },
        ChainStep::Evaluate => match condition_out(ev.condition, s, item_condition(item)) {
            Err(m) => Err(WalkError::Expression(condition_message(kind, item_condition(item), m))),
            Ok(holds) => if holds {
                match body_spec(ev, s, item_body(item)) {
                    Ok(ps) => Ok((ps, chain_item(chain, kind, true).0)),
                    Err(e) => Err(e),
                }
            } else {
                Ok((Seq::<NodeView>::empty(), entered))
            },
        },
        ChainStep::Iterate => match item_directive(item) {
            Some(DirectiveView::Each(v, c)) => match collection_out(ev.collection, s, v, c) {
                Err(m) => Err(WalkError::Expression(collection_message(c, m))),
                Ok(Err(t)) => Err(WalkError::Expression(not_iterable_message(t))),
                Ok(Ok(scopes)) => match each_spec(ev, scopes, item_body(item)) {
                    Ok(ps) => Ok((ps, entered)),
                    Err(e) => Err(e),
                },
            },
            _ => Ok((Seq::<NodeView>::empty(), entered)),
        },
    }
}

/// Expanding a directive body in scope `s`: a sequence body gives its
/// processed items, any other body its processed self.
pub open spec fn body_spec<
    S,
    C: Fn(&S, &String) -> Result<bool, String>,
    E: Fn(&S, &String, &String) -> Result<Result<Vec<S>, String>, String>,
    T: Fn(&S, &String) -> Result<String, ParseError>,
>(ev: Evaluators<C, E, T>, s: S, body: NodeView) -> Result<Seq<NodeView>, WalkError>
    decreases body, 1nat,
{
    match walk_spec(ev, s, body) {
        Err(e) => Err(e),
        Ok(v) => if body is Sequence && v is Sequence {
            Ok(v->Sequence_0)
        } else {
            Ok(seq![v])
        },
    }
}

/// Expanding a body once per scope, in order.
pub open spec fn each_spec<
    S,
    C: Fn(&S, &String) -> Result<bool, String>,
    E: Fn(&S, &String, &String) -> Result<Result<Vec<S>, String>, String>,
    T: Fn(&S, &String) -> Result<String, ParseError>,
>(ev: Evaluators<C, E, T>, scopes: Seq<S>, body: NodeView) -> Result<Seq<NodeView>, WalkError>
    decreases body, scopes.len() + 2,
{
    if scopes.len() == 0 {
        Ok(Seq::<NodeView>::empty())
    } else {
        match each_spec(ev, scopes.subrange(0, scopes.len() - 1), body) {
            Err(e) => Err(e),
            Ok(done) => match body_spec(ev, scopes[scopes.len() - 1], body) {
                Err(e) => Err(e),
                Ok(more) => Ok(done + more),
            },
        }
    }
}

/// Processing the entries of a mapping in order.
pub open spec fn entries_spec<
    S,
    C: Fn(&S, &String) -> Result<bool, String>,
    E: Fn(&S, &String, &String) -> Result<Result<Vec<S>, String>, String>,
    T: Fn(&S, &String) -> Result<String, ParseError>,
>(ev: Evaluators<C, E, T>, s: S, es: Seq<(NodeView, NodeView)>) -> Result<
    Seq<(NodeView, NodeView)>,
    WalkError,
>
    decreases es, 0nat,
{
    if es.len() == 0 {
        Ok(Seq::<(NodeView, NodeView)>::empty())
    } else {
        match entries_spec(ev, s, es.subrange(0, es.len() - 1)) {
            Err(e) => Err(e),
            Ok(acc) => entry_spec(ev, s, es[es.len() - 1], acc),
        }
    }
}

/// Processing one mapping entry onto the entries `acc`: an `if` key whose
/// condition holds merges its mapping's processed entries, an `each` key
/// merges them once per element with their string keys substituted,
/// `elseif` and `else` keys are dropped, and any other entry is inserted
/// with its value processed.
pub open spec fn entry_spec<
    S,
    C: Fn(&S, &String) -> Result<bool, String>,
    E: Fn(&S, &String, &String) -> Result<Result<Vec<S>, String>, String>,
    T: Fn(&S, &String) -> Result<String, ParseError>,
>(ev: Evaluators<C, E, T>, s: S, entry: (NodeView, NodeView), acc: Seq<(NodeView, NodeView)>) -> Result<
    Seq<(NodeView, NodeView)>,
    WalkError,
>
    decreases entry, 1nat,
{
    match key_directive(entry.0) {
        Some(DirectiveView::If(c)) => match condition_out(ev.condition, s, c) {
            Err(m) => Err(WalkError::Expression(condition_message(ItemKind::If, c, m))),
            Ok(holds) => if holds && entry.1 is Mapping {
                inner_spec(ev, s, entry.1->Mapping_0, false, acc)
            } else {
                Ok(acc)
            },
        },
        Some(DirectiveView::Each(v, c)) => match collection_out(ev.collection, s, v, c) {
            Err(m) => Err(WalkError::Expression(collection_message(c, m))),
            Ok(items) => if entry.1 is Mapping {
                match items {
                    Err(t) => Err(WalkError::Expression(not_iterable_message(t))),
                    Ok(scopes) => each_entries_spec(ev, scopes, entry.1->Mapping_0, acc),
                }
            } else {
                Ok(acc)
            },
        },
        Some(_) => Ok(acc),
        None => match walk_spec(ev, s, entry.1) {
            Err(e) => Err(e),
            Ok(v) => Ok(entries_insert(acc, entry.0, v)),
        },
    }
}

/// A mapping key as it is merged: with its compile-time expressions
/// substituted if `subst` is set and it is a string, else unchanged.
pub open spec fn key_spec<S, T: Fn(&S, &String) -> Result<String, ParseError>>(
    f: T,
    s: S,
    k: NodeView,
    subst: bool,
) -> Result<NodeView, WalkError> {
    if subst && k is Str {
        match text_out(f, s, k->Str_0) {
            Ok(r) => Ok(NodeView::Str(r)),
            Err(e) => Err(WalkError::Given(e)),
        }
    } else {
        Ok(k)
    }
}

/// Merging the processed entries `inner` onto `acc`, in order.
pub open spec fn inner_spec<
    S,
    C: Fn(&S, &String) -> Result<bool, String>,
    E: Fn(&S, &String, &String) -> Result<Result<Vec<S>, String>, String>,
    T: Fn(&S, &String) -> Result<String, ParseError>,
>(
    ev: Evaluators<C, E, T>,
    s: S,
    inner: Seq<(NodeView, NodeView)>,
    subst: bool,
    acc: Seq<(NodeView, NodeView)>,
) -> Result<Seq<(NodeView, NodeView)>, WalkError>
    decreases inner, 0nat,
{
    if inner.len() == 0 {
        Ok(acc)
    } else {
        match inner_spec(ev, s, inner.subrange(0, inner.len() - 1), subst, acc) {
            Err(e) => Err(e),
            Ok(done) => match key_spec(ev.substitute, s, inner[inner.len() - 1].0, subst) {
                Err(e) => Err(e),
                Ok(k) => match walk_spec(ev, s, inner[inner.len() - 1].1) {
                    Err(e) => Err(e),
                    Ok(v) => Ok(entries_insert(done, k, v)),
                },
            },
        }
    }
}

/// Merging `inner` once per scope, in order, onto `acc`.
pub open spec fn each_entries_spec<
    S,
    C: Fn(&S, &String) -> Result<bool, String>,
    E: Fn(&S, &String, &String) -> Result<Result<Vec<S>, String>, String>,
    T: Fn(&S, &String) -> Result<String, ParseError>,
>(
    ev: Evaluators<C, E, T>,
    scopes: Seq<S>,
    inner: Seq<(NodeView, NodeView)>,
    acc: Seq<(NodeView, NodeView)>,
) -> Result<Seq<(NodeView, NodeView)>, WalkError>
    decreases inner, scopes.len() + 1,
{
    if scopes.len() == 0 {
        Ok(acc)
    } else {
        match each_entries_spec(ev, scopes.subrange(0, scopes.len() - 1), inner, acc) {
            Err(e) => Err(e),
            Ok(done) => inner_spec(ev, scopes[scopes.len() - 1], inner, true, done),
        }
    }
}

// ---------------------------------------------------------------------------
// What an evaluator call gave is what the specification picks
// ---------------------------------------------------------------------------

proof fn lemma_condition_out<S, C: Fn(&S, &String) -> Result<bool, String>>(
    f: C,
    s: S,
    a: String,
    o: Result<bool, String>,
)
    requires
        call_ensures(f, (&s, &a), o),
        forall|s: S, a1: String, a2: String, o1: Result<bool, String>, o2: Result<bool, String>|
            #![trigger call_ensures(f, (&s, &a1), o1), call_ensures(f, (&s, &a2), o2)]
            a1@ == a2@ && call_ensures(f, (&s, &a1), o1) && call_ensures(f, (&s, &a2), o2)
                ==> match (o1, o2) {
                (Ok(x), Ok(y)) => x == y,
                (Err(x), Err(y)) => x@ == y@,
                _ => false,
            },
    ensures
        condition_out(f, s, a@) == match o {
            Ok(x) => Ok::<bool, Seq<char>>(x),
            Err(m) => Err(m@),
        },
{
    let want: Result<bool, Seq<char>> = match o {
        Ok(x) => Ok(x),
        Err(m) => Err(m@),
    };
    assert(condition_gave(f, s, a@, want));
    let got = condition_out(f, s, a@);
    assert(condition_gave(f, s, a@, got));
    let (a2, o2) = choose|a2: String, o2: Result<bool, String>|
        a2@ == a@ && call_ensures(f, (&s, &a2), o2) && match (o2, got) {
            (Ok(x), Ok(y)) => x == y,
            (Err(x), Err(y)) => x@ == y,
            _ => false,
        };
    assert(call_ensures(f, (&s, &a), o) && call_ensures(f, (&s, &a2), o2));
}

proof fn lemma_collection_out<S, E: Fn(&S, &String, &String) -> Result<Result<Vec<S>, String>, String>>(
    f: E,
    s: S,
    a: String,
    b: String,
    o: Result<Result<Vec<S>, String>, String>,
)
    requires
        call_ensures(f, (&s, &a, &b), o),
        forall|
            s: S,
            a1: String,
            b1: String,
            a2: String,
            b2: String,
            o1: Result<Result<Vec<S>, String>, String>,
            o2: Result<Result<Vec<S>, String>, String>,
        |
            #![trigger call_ensures(f, (&s, &a1, &b1), o1), call_ensures(f, (&s, &a2, &b2), o2)]
            a1@ == a2@ && b1@ == b2@ && call_ensures(f, (&s, &a1, &b1), o1) && call_ensures(
                f,
                (&s, &a2, &b2),
                o2,
            ) ==> match (o1, o2) {
                (Ok(Ok(x)), Ok(Ok(y))) => x@ == y@,
                (Ok(Err(x)), Ok(Err(y))) => x@ == y@,
                (Err(x), Err(y)) => x@ == y@,
                _ => false,
            },
    ensures
        collection_out(f, s, a@, b@) == match o {
            Ok(Ok(x)) => Ok::<Result<Seq<S>, Seq<char>>, Seq<char>>(Ok(x@)),
            Ok(Err(t)) => Ok(Err(t@)),
            Err(m) => Err(m@),
        },
{
    let want: Result<Result<Seq<S>, Seq<char>>, Seq<char>> = match o {
        Ok(Ok(x)) => Ok(Ok(x@)),
        Ok(Err(t)) => Ok(Err(t@)),
        Err(m) => Err(m@),
    };
    assert(collection_gave(f, s, a@, b@, want));
    let got = collection_out(f, s, a@, b@);
    assert(collection_gave(f, s, a@, b@, got));
    let (a2, b2, o2) = choose|a2: String, b2: String, o2: Result<Result<Vec<S>, String>, String>|
        a2@ == a@ && b2@ == b@ && call_ensures(f, (&s, &a2, &b2), o2) && match (o2, got) {
            (Ok(Ok(x)), Ok(Ok(y))) => x@ == y,
            (Ok(Err(x)), Ok(Err(y))) => x@ == y,
            (Err(x), Err(y)) => x@ == y,
            _ => false,
        };
    assert(call_ensures(f, (&s, &a, &b), o) && call_ensures(f, (&s, &a2, &b2), o2));
}

/// Substitutes the expressions of `t`: `t` itself where it holds no `$`,
/// else what `substitute` gives.
fn substitute_text<S, T: Fn(&S, &String) -> Result<String, ParseError>>(
    f: &T,
    s: &S,
    t: &String,
) -> (o: Result<String, ParseError>)
    requires
        forall|s: &S, a: &String| call_requires(*f, (s, a)),
    ensures
        t@.contains('$') ==> call_ensures(*f, (s, t), o),
        !t@.contains('$') ==> o == Ok::<String, ParseError>(*t),
{
    let cs = chars_of(t.as_str());
    let mut i: usize = 0;
    while i < cs.len()
        invariant
            cs@ == t@,
            i <= cs@.len(),
            forall|k: int| 0 <= k < i ==> cs@[k] != '$',
            forall|s: &S, a: &String| call_requires(*f, (s, a)),
        decreases cs@.len() - i,
    {
        if cs[i] == '$' {
            return f(s, t);
        }
        i = i + 1;
    }
    Ok(t.clone())
}

pub(crate) proof fn lemma_text_out<S, T: Fn(&S, &String) -> Result<String, ParseError>>(
    f: T,
    s: S,
    a: String,
    o: Result<String, ParseError>,
)
    requires
        a@.contains('$') ==> call_ensures(f, (&s, &a), o),
        !a@.contains('$') ==> o == Ok::<String, ParseError>(a),
        forall|s: S, a1: String, a2: String, o1: Result<String, ParseError>, o2: Result<String, ParseError>|
            #![trigger call_ensures(f, (&s, &a1), o1), call_ensures(f, (&s, &a2), o2)]
            a1@ == a2@ && call_ensures(f, (&s, &a1), o1) && call_ensures(f, (&s, &a2), o2)
                ==> match (o1, o2) {
                (Ok(x), Ok(y)) => x@ == y@,
                (Err(x), Err(y)) => x == y,
                _ => false,
            },
    ensures
        text_out(f, s, a@) == match o {
            Ok(x) => Ok::<Seq<char>, ParseError>(x@),
            Err(e) => Err(e),
        },
{
    if a@.contains('$') {
        lemma_substitute_out(f, s, a, o);
    }
}

pub(crate) proof fn lemma_substitute_out<S, T: Fn(&S, &String) -> Result<String, ParseError>>(
    f: T,
    s: S,
    a: String,
    o: Result<String, ParseError>,
)
    requires
        call_ensures(f, (&s, &a), o),
        forall|s: S, a1: String, a2: String, o1: Result<String, ParseError>, o2: Result<String, ParseError>|
            #![trigger call_ensures(f, (&s, &a1), o1), call_ensures(f, (&s, &a2), o2)]
            a1@ == a2@ && call_ensures(f, (&s, &a1), o1) && call_ensures(f, (&s, &a2), o2)
                ==> match (o1, o2) {
                (Ok(x), Ok(y)) => x@ == y@,
                (Err(x), Err(y)) => x == y,
                _ => false,
            },
    ensures
        substitute_out(f, s, a@) == match o {
            Ok(x) => Ok::<Seq<char>, ParseError>(x@),
            Err(e) => Err(e),
        },
{
    let want: Result<Seq<char>, ParseError> = match o {
        Ok(x) => Ok(x@),
        Err(e) => Err(e),
    };
    assert(substitute_gave(f, s, a@, want));
    let got = substitute_out(f, s, a@);
    assert(substitute_gave(f, s, a@, got));
    let (a2, o2) = choose|a2: String, o2: Result<String, ParseError>|
        a2@ == a@ && call_ensures(f, (&s, &a2), o2) && match (o2, got) {
            (Ok(x), Ok(y)) => x@ == y,
            (Err(x), Err(y)) => x == y,
            _ => false,
        };
    assert(call_ensures(f, (&s, &a), o) && call_ensures(f, (&s, &a2), o2));
}

// ---------------------------------------------------------------------------
// An error ends a fold
// ---------------------------------------------------------------------------

proof fn lemma_items_spec_error <
    S,
    C: Fn(&S, &String) -> Result<bool, String>,
    E: Fn(&S, &String, &String) -> Result<Result<Vec<S>, String>, String>,
    T: Fn(&S, &String) -> Result<String, ParseError>,
>(ev: Evaluators<C, E, T>, s: S, items: Seq<NodeView>, j: int)
    requires
        0 <= j <= items.len(),
        items_spec(ev, s, items.subrange(0, j)) is Err,
    ensures
        items_spec(ev, s, items) == items_spec(ev, s, items.subrange(0, j)),
    decreases items.len() - j,
{
    if j < items.len() {
        let next = items.subrange(0, j + 1);
        assert(next.subrange(0, next.len() - 1) == items.subrange(0, j));
        lemma_items_spec_error(ev, s, items, j + 1);
    } else {
        assert(items.subrange(0, j) == items);
    }
}

proof fn lemma_each_spec_error <
    S,
    C: Fn(&S, &String) -> Result<bool, String>,
    E: Fn(&S, &String, &String) -> Result<Result<Vec<S>, String>, String>,
    T: Fn(&S, &String) -> Result<String, ParseError>,
>(ev: Evaluators<C, E, T>, scopes: Seq<S>, body: NodeView, j: int)
    requires
        0 <= j <= scopes.len(),
        each_spec(ev, scopes.subrange(0, j), body) is Err,
    ensures
        each_spec(ev, scopes, body) == each_spec(ev, scopes.subrange(0, j), body),
    decreases scopes.len() - j,
{
    if j < scopes.len() {
        let next = scopes.subrange(0, j + 1);
        assert(next.subrange(0, next.len() - 1) == scopes.subrange(0, j));
        lemma_each_spec_error(ev, scopes, body, j + 1);
    } else {
        assert(scopes.subrange(0, j) == scopes);
    }
}

proof fn lemma_entries_spec_error <
    S,
    C: Fn(&S, &String) -> Result<bool, String>,
    E: Fn(&S, &String, &String) -> Result<Result<Vec<S>, String>, String>,
    T: Fn(&S, &String) -> Result<String, ParseError>,
>(ev: Evaluators<C, E, T>, s: S, es: Seq<(NodeView, NodeView)>, j: int)
    requires
        0 <= j <= es.len(),
        entries_spec(ev, s, es.subrange(0, j)) is Err,
    ensures
        entries_spec(ev, s, es) == entries_spec(ev, s, es.subrange(0, j)),
    decreases es.len() - j,
{
    if j < es.len() {
        let next = es.subrange(0, j + 1);
        assert(next.subrange(0, next.len() - 1) == es.subrange(0, j));
        lemma_entries_spec_error(ev, s, es, j + 1);
    } else {
        assert(es.subrange(0, j) == es);
    }
}

proof fn lemma_inner_spec_error <
    S,
    C: Fn(&S, &String) -> Result<bool, String>,
    E: Fn(&S, &String, &String) -> Result<Result<Vec<S>, String>, String>,
    T: Fn(&S, &String) -> Result<String, ParseError>,
>(
    ev: Evaluators<C, E, T>,
    s: S,
    inner: Seq<(NodeView, NodeView)>,
    subst: bool,
    acc: Seq<(NodeView, NodeView)>,
    j: int,
)
    requires
        0 <= j <= inner.len(),
        inner_spec(ev, s, inner.subrange(0, j), subst, acc) is Err,
    ensures
        inner_spec(ev, s, inner, subst, acc) == inner_spec(ev, s, inner.subrange(0, j), subst, acc),
    decreases inner.len() - j,
{
    if j < inner.len() {
        let next = inner.subrange(0, j + 1);
        assert(next.subrange(0, next.len() - 1) == inner.subrange(0, j));
        lemma_inner_spec_error(ev, s, inner, subst, acc, j + 1);
    } else {
        assert(inner.subrange(0, j) == inner);
    }
}

proof fn lemma_each_entries_spec_error <
    S,
    C: Fn(&S, &String) -> Result<bool, String>,
    E: Fn(&S, &String, &String) -> Result<Result<Vec<S>, String>, String>,
    T: Fn(&S, &String) -> Result<String, ParseError>,
>(
    ev: Evaluators<C, E, T>,
    scopes: Seq<S>,
    inner: Seq<(NodeView, NodeView)>,
    acc: Seq<(NodeView, NodeView)>,
    j: int,
)
    requires
        0 <= j <= scopes.len(),
        each_entries_spec(ev, scopes.subrange(0, j), inner, acc) is Err,
    ensures
        each_entries_spec(ev, scopes, inner, acc) == each_entries_spec(ev, scopes.subrange(0, j), inner, acc),
    decreases scopes.len() - j,
{
    if j < scopes.len() {
        let next = scopes.subrange(0, j + 1);
        assert(next.subrange(0, next.len() - 1) == scopes.subrange(0, j));
        lemma_each_entries_spec_error(ev, scopes, inner, acc, j + 1);
    } else {
        assert(scopes.subrange(0, j) == scopes);
    }
}

proof fn lemma_nodes_view_append(a: Seq<YamlNode>, b: Seq<YamlNode>)
    ensures
        nodes_view(a + b) == nodes_view(a) + nodes_view(b),
    decreases b.len(),
{
    if b.len() == 0 {
        assert(a + b == a);
        assert(nodes_view(a) + nodes_view(b) == nodes_view(a));
    } else {
        let bd = b.subrange(0, b.len() - 1);
        lemma_nodes_view_append(a, bd);
        assert((a + b).subrange(0, (a + b).len() - 1) == a + bd);
        assert((a + b)[(a + b).len() - 1] == b[b.len() - 1]);
        assert(nodes_view(a) + nodes_view(b) == (nodes_view(a) + nodes_view(bd)).push(
            node_view(b[b.len() - 1]),
        ));
    }
}

// ---------------------------------------------------------------------------
// Building blocks
// ---------------------------------------------------------------------------

/// The template error of kind `ExpressionError` with message `msg`.
fn expression_error(msg: &String) -> (e: ParseError)
    ensures
        expression_failure(e, msg@),
{
    TemplateError::new(msg.as_str(), TemplateErrorKind::ExpressionError).to_parse_error()
}

/// The error for a condition that failed to evaluate.
fn condition_error(is_if: bool, c: &String, m: &String) -> (e: ParseError)
    ensures
        expression_failure(
            e,
            condition_message(if is_if { ItemKind::If } else { ItemKind::ElseIf }, c@, m@),
        ),
{
    let mut msg = String::from_str("error evaluating ");
    if is_if {
        msg.append("if");
    } else {
        msg.append("elseif");
    }
    msg.append(" condition '");
    msg.append(c.as_str());
    msg.append("': ");
    msg.append(m.as_str());
    expression_error(&msg)
}

/// The error for a collection that failed to evaluate.
fn collection_error(c: &String, m: &String) -> (e: ParseError)
    ensures
        expression_failure(e, collection_message(c@, m@)),
{
    let mut msg = String::from_str("error evaluating each collection '");
    msg.append(c.as_str());
    msg.append("': ");
    msg.append(m.as_str());
    expression_error(&msg)
}

/// The error for a collection that is neither an array nor an object.
fn not_iterable_error(t: &String) -> (e: ParseError)
    ensures
        expression_failure(e, not_iterable_message(t@)),
{
    let mut msg = String::from_str("each directive requires an array or object, got: ");
    msg.append(t.as_str());
    expression_error(&msg)
}

/// The directive that a mapping key spells.
fn key_directive_of(k: &YamlNode) -> (r: Option<TemplateDirective>)
    ensures
        match r {
            Some(d) => key_directive(k@) == Some(d.view()),
            None => key_directive(k@) is None,
        },
{
    match k {
        YamlNode::String(t) => TemplateEngine::parse_directive(t.as_str()),
        _ => None,
    }
}

/// The directive of a sequence item and the body it governs.
fn item_directive_of(item: &YamlNode) -> (r: Option<(TemplateDirective, &YamlNode)>)
    ensures
        match r {
            Some((d, body)) => {
                &&& item_directive(item@) == Some(d.view())
                &&& item is Mapping
                &&& item->Mapping_0@.len() == 1
                &&& *body == item->Mapping_0@[0].1
                &&& body@ == item_body(item@)
            },
            None => item_directive(item@) is None,
        },
{
    match item {
        YamlNode::Mapping(es) => {
            proof {
                assert(item@ == NodeView::Mapping(entries_view(es@)));
                lemma_entries_view(es@);
            }
            if es.len() != 1 {
                return None;
            }
            match key_directive_of(&es[0].0) {
                Some(d) => Some((d, &es[0].1)),
                None => None,
            }
        },
        _ => None,
    }
}

/// What the branch chain makes of a directive.
fn directive_kind(d: &TemplateDirective) -> (k: ItemKind)
    ensures
        k == match d.view() {
            DirectiveView::If(_) => ItemKind::If,
            DirectiveView::ElseIf(_) => ItemKind::ElseIf,
            DirectiveView::Else => ItemKind::Else,
            DirectiveView::Each(_, _) => ItemKind::Each,
        },
{
    match d {
        TemplateDirective::If(_) => ItemKind::If,
        TemplateDirective::ElseIf(_) => ItemKind::ElseIf,
        TemplateDirective::Else => ItemKind::Else,
        TemplateDirective::Each(_, _) => ItemKind::Each,
    }
}

// ---------------------------------------------------------------------------
// The walk
// ---------------------------------------------------------------------------

/// Processes node `n` in scope `s`.
fn walk <
    S,
    C: Fn(&S, &String) -> Result<bool, String>,
    E: Fn(&S, &String, &String) -> Result<Result<Vec<S>, String>, String>,
    T: Fn(&S, &String) -> Result<String, ParseError>,
>(n: &YamlNode, s: &S, ev: &Evaluators<C, E, T>) -> (r: Result<YamlNode, ParseError>)
    requires
        evaluators_ready(*ev),
    ensures
        evaluators_deterministic(*ev) ==> node_result_matches(r, walk_spec(*ev, *s, n@)),
    decreases n, 0nat,
{
    match n {
        YamlNode::String(t) => {
            let o = substitute_text(&ev.substitute, s, t);
            proof {
                if evaluators_deterministic(*ev) {
                    lemma_text_out(ev.substitute, *s, *t, o);
                }
            }
            match o {
                Ok(r) => Ok(YamlNode::String(r)),
                Err(e) => Err(e),
            }
        },
        YamlNode::Sequence(items) => {
            proof {
                assert(decreases_to!(*n => (*n)->Sequence_0));
            }
            match walk_items(items, s, ev) {
                Ok(v) => Ok(YamlNode::Sequence(v)),
                Err(e) => Err(e),
            }
        },
        YamlNode::Mapping(es) => {
            proof {
                assert(decreases_to!(*n => (*n)->Mapping_0));
            }
            match walk_entries(es, s, ev) {
                Ok(v) => Ok(YamlNode::Mapping(v)),
                Err(e) => Err(e),
            }
        },
        _ => Ok(clone_node(n)),
    }
}

/// Processes the items of a sequence in order.
fn walk_items <
    S,
    C: Fn(&S, &String) -> Result<bool, String>,
    E: Fn(&S, &String, &String) -> Result<Result<Vec<S>, String>, String>,
    T: Fn(&S, &String) -> Result<String, ParseError>,
>(items: &Vec<YamlNode>, s: &S, ev: &Evaluators<C, E, T>) -> (r: Result<
    Vec<YamlNode>,
    ParseError,
>)
    requires
        evaluators_ready(*ev),
    ensures
        evaluators_deterministic(*ev) ==> match (r, items_spec(*ev, *s, nodes_view(items@))) {
            (Ok(v), Ok(w)) => nodes_view(v@) == w.0,
            (Err(e), Err(w)) => error_matches(e, w),
            _ => false,
        },
    decreases items, 0nat,
{
    let ghost iv = nodes_view(items@);
    proof {
        lemma_nodes_view(items@);
    }
    let mut acc: Vec<YamlNode> = Vec::new();
    let mut chain = BranchChain::new();
    let mut i: usize = 0;
    while i < items.len()
        invariant
            i <= items@.len(),
            evaluators_ready(*ev),
            iv == nodes_view(items@),
            iv.len() == items@.len(),
            forall|j: int| 0 <= j < items@.len() ==> #[trigger] iv[j] == node_view(items@[j]),
            evaluators_deterministic(*ev) ==> items_spec(*ev, *s, iv.subrange(0, i as int)) == Ok::<
                (Seq<NodeView>, BranchChain),
                WalkError,
            >((nodes_view(acc@), chain)),
        decreases items@.len() - i,
    {
        proof {
            assert(decreases_to!(*items => items@));
            assert(decreases_to!(items@ => items@[i as int]));
        }
        let ghost before = acc@;
        let ghost prefix = iv.subrange(0, i + 1);
        proof {
            assert(prefix.subrange(0, prefix.len() - 1) == iv.subrange(0, i as int));
            assert(prefix[prefix.len() - 1] == items@[i as int]@);
        }
        let r = walk_item(&items[i], &mut chain, s, ev);
        match r {
            Ok(v) => {
                let ghost added = v@;
                let mut v = v;
                acc.append(&mut v);
                proof {
                    lemma_nodes_view_append(before, added);
                }
            },
            Err(e) => {
                proof {
                    if evaluators_deterministic(*ev) {
                        lemma_items_spec_error(*ev, *s, iv, i + 1);
                    }
                }
                return Err(e);
            },
        }
        i = i + 1;
    }
    proof {
        assert(iv.subrange(0, iv.len() as int) == iv);
    }
    Ok(acc)
}

/// Processes one sequence item in the chain state `chain`.
fn walk_item <
    S,
    C: Fn(&S, &String) -> Result<bool, String>,
    E: Fn(&S, &String, &String) -> Result<Result<Vec<S>, String>, String>,
    T: Fn(&S, &String) -> Result<String, ParseError>,
>(item: &YamlNode, chain: &mut BranchChain, s: &S, ev: &Evaluators<C, E, T>) -> (r:
    Result<Vec<YamlNode>, ParseError>)
    requires
        evaluators_ready(*ev),
    ensures
        evaluators_deterministic(*ev) ==> match (r, item_spec(*ev, *s, item@, *old(chain))) {
            (Ok(v), Ok(w)) => nodes_view(v@) == w.0 && *final(chain) == w.1,
            (Err(e), Err(w)) => error_matches(e, w),
            _ => false,
        },
    decreases item, 1nat,
{
    match item_directive_of(item) {
        None => {
            let step = chain.enter(ItemKind::Plain);
            match walk(item, s, ev) {
                Ok(x) => {
                    let ghost xv = x@;
                    let mut v: Vec<YamlNode> = Vec::new();
                    v.push(x);
                    proof {
                        assert(v@.subrange(0, 0) == Seq::<YamlNode>::empty());
                        assert(nodes_view(Seq::<YamlNode>::empty()) == Seq::<NodeView>::empty());
                        assert(nodes_view(v@) == seq![xv]);
                    }
                    Ok(v)
                },
                Err(e) => Err(e),
            }
        },
        Some((d, body)) => {
            proof {
                assert(decreases_to!(*item => (*item)->Mapping_0));
                assert(decreases_to!((*item)->Mapping_0 => (*item)->Mapping_0@));
                assert(decreases_to!((*item)->Mapping_0@ => (*item)->Mapping_0@[0]));
                assert(decreases_to!((*item)->Mapping_0@[0] => (*item)->Mapping_0@[0].1));
            }
            let kind = directive_kind(&d);
            let step = chain.enter(kind);
            match d {
                TemplateDirective::Each(v, c) => {
                    let g = (ev.collection)(s, &v, &c);
                    proof {
                        if evaluators_deterministic(*ev) {
                            lemma_collection_out(ev.collection, *s, v, c, g);
                        }
                    }
                    match g {
                        Err(m) => Err(collection_error(&c, &m)),
                        Ok(Err(t)) => Err(not_iterable_error(&t)),
                        Ok(Ok(scopes)) => expand_each(&scopes, body, ev),
                    }
                },
                TemplateDirective::Else => {
                    if step == ChainStep::Skip {
                        Ok(Vec::new())
                    } else {
                        expand_body(body, s, ev)
                    }
                },
                TemplateDirective::If(c) | TemplateDirective::ElseIf(c) => {
                    if step == ChainStep::Skip {
                        return Ok(Vec::new());
                    }
                    let o = (ev.condition)(s, &c);
                    proof {
                        if evaluators_deterministic(*ev) {
                            lemma_condition_out(ev.condition, *s, c, o);
                        }
                    }
                    match o {
                        Err(m) => Err(condition_error(kind == ItemKind::If, &c, &m)),
                        Ok(b) => {
                            if chain.resolve(b) {
                                expand_body(body, s, ev)
                            } else {
                                Ok(Vec::new())
                            }
                        },
                    }
                },
            }
        },
    }
}

/// Expands a directive body in scope `s`.
fn expand_body <
    S,
    C: Fn(&S, &String) -> Result<bool, String>,
    E: Fn(&S, &String, &String) -> Result<Result<Vec<S>, String>, String>,
    T: Fn(&S, &String) -> Result<String, ParseError>,
>(body: &YamlNode, s: &S, ev: &Evaluators<C, E, T>) -> (r: Result<Vec<YamlNode>, ParseError>)
    requires
        evaluators_ready(*ev),
    ensures
        evaluators_deterministic(*ev) ==> items_result_matches(r, body_spec(*ev, *s, body@)),
    decreases body, 1nat,
{
    let is_sequence = matches!(body, YamlNode::Sequence(_));
    proof {
        assert(is_sequence == (body@ is Sequence));
    }
    match walk(body, s, ev) {
        Err(e) => Err(e),
        Ok(x) => {
            let ghost xv = x@;
            match x {
                YamlNode::Sequence(items) if is_sequence => Ok(items),
                other => {
                    let mut v: Vec<YamlNode> = Vec::new();
                    v.push(other);
                    proof {
                        assert(v@.subrange(0, 0) == Seq::<YamlNode>::empty());
                        assert(nodes_view(Seq::<YamlNode>::empty()) == Seq::<NodeView>::empty());
                        assert(nodes_view(v@) == seq![xv]);
                    }
                    Ok(v)
                },
            }
        },
    }
}

/// Expands a directive body once per scope, in order.
fn expand_each <
    S,
    C: Fn(&S, &String) -> Result<bool, String>,
    E: Fn(&S, &String, &String) -> Result<Result<Vec<S>, String>, String>,
    T: Fn(&S, &String) -> Result<String, ParseError>,
>(scopes: &Vec<S>, body: &YamlNode, ev: &Evaluators<C, E, T>) -> (r: Result<
    Vec<YamlNode>,
    ParseError,
>)
    requires
        evaluators_ready(*ev),
    ensures
        evaluators_deterministic(*ev) ==> items_result_matches(r, each_spec(*ev, scopes@, body@)),
    decreases body, 2nat,
{
    let mut acc: Vec<YamlNode> = Vec::new();
    let mut i: usize = 0;
    while i < scopes.len()
        invariant
            i <= scopes@.len(),
            evaluators_ready(*ev),
            evaluators_deterministic(*ev) ==> each_spec(*ev, scopes@.subrange(0, i as int), body@)
                == Ok::<Seq<NodeView>, WalkError>(nodes_view(acc@)),
        decreases scopes@.len() - i,
    {
        let ghost before = acc@;
        let ghost prefix = scopes@.subrange(0, i + 1);
        proof {
            assert(prefix.subrange(0, prefix.len() - 1) == scopes@.subrange(0, i as int));
            assert(prefix[prefix.len() - 1] == scopes@[i as int]);
        }
        match expand_body(body, &scopes[i], ev) {
            Ok(v) => {
                let ghost added = v@;
                let mut v = v;
                acc.append(&mut v);
                proof {
                    lemma_nodes_view_append(before, added);
                }
            },
            Err(e) => {
                proof {
                    if evaluators_deterministic(*ev) {
                        lemma_each_spec_error(*ev, scopes@, body@, i + 1);
                    }
                }
                return Err(e);
            },
        }
        i = i + 1;
    }
    proof {
        assert(scopes@.subrange(0, scopes@.len() as int) == scopes@);
    }
    Ok(acc)
}

/// `r` (with the entries now in `acc`) is the outcome that `w` describes.
pub open spec fn merged_matches(r: Result<(), ParseError>, acc: Seq<(YamlNode, YamlNode)>, w: Result<
    Seq<(NodeView, NodeView)>,
    WalkError,
>) -> bool {
    match (r, w) {
        (Ok(_), Ok(x)) => entries_view(acc) == x,
        (Err(e), Err(v)) => error_matches(e, v),
        _ => false,
    }
}

/// Processes the entries of a mapping in order.
fn walk_entries <
    S,
    C: Fn(&S, &String) -> Result<bool, String>,
    E: Fn(&S, &String, &String) -> Result<Result<Vec<S>, String>, String>,
    T: Fn(&S, &String) -> Result<String, ParseError>,
>(es: &Vec<(YamlNode, YamlNode)>, s: &S, ev: &Evaluators<C, E, T>) -> (r: Result<
    Vec<(YamlNode, YamlNode)>,
    ParseError,
>)
    requires
        evaluators_ready(*ev),
    ensures
        evaluators_deterministic(*ev) ==> match (r, entries_spec(*ev, *s, entries_view(es@))) {
            (Ok(v), Ok(w)) => entries_view(v@) == w,
            (Err(e), Err(w)) => error_matches(e, w),
            _ => false,
        },
    decreases es, 0nat,
{
    let ghost ev_es = entries_view(es@);
    proof {
        lemma_entries_view(es@);
    }
    let mut acc: Vec<(YamlNode, YamlNode)> = Vec::new();
    let mut i: usize = 0;
    while i < es.len()
        invariant
            i <= es@.len(),
            evaluators_ready(*ev),
            ev_es == entries_view(es@),
            ev_es.len() == es@.len(),
            forall|j: int|
                0 <= j < es@.len() ==> #[trigger] ev_es[j] == (node_view(es@[j].0), node_view(es@[j].1)),
            evaluators_deterministic(*ev) ==> entries_spec(*ev, *s, ev_es.subrange(0, i as int)) == Ok::<
                Seq<(NodeView, NodeView)>,
                WalkError,
            >(entries_view(acc@)),
        decreases es@.len() - i,
    {
        proof {
            assert(decreases_to!(*es => es@));
            assert(decreases_to!(es@ => es@[i as int]));
        }
        let ghost prefix = ev_es.subrange(0, i + 1);
        proof {
            assert(prefix.subrange(0, prefix.len() - 1) == ev_es.subrange(0, i as int));
            assert(prefix[prefix.len() - 1] == ev_es[i as int]);
        }
        let r = walk_entry(&es[i], s, ev, &mut acc);
        if r.is_err() {
            proof {
                if evaluators_deterministic(*ev) {
                    lemma_entries_spec_error(*ev, *s, ev_es, i + 1);
                }
            }
            match r {
                Err(e) => return Err(e),
                Ok(_) => {},
            }
        }
        i = i + 1;
    }
    proof {
        assert(ev_es.subrange(0, ev_es.len() as int) == ev_es);
    }
    Ok(acc)
}

/// Processes one mapping entry onto the entries `acc`.
fn walk_entry <
    S,
    C: Fn(&S, &String) -> Result<bool, String>,
    E: Fn(&S, &String, &String) -> Result<Result<Vec<S>, String>, String>,
    T: Fn(&S, &String) -> Result<String, ParseError>,
>(
    entry: &(YamlNode, YamlNode),
    s: &S,
    ev: &Evaluators<C, E, T>,
    acc: &mut Vec<(YamlNode, YamlNode)>,
) -> (r: Result<(), ParseError>)
    requires
        evaluators_ready(*ev),
    ensures
        evaluators_deterministic(*ev) ==> merged_matches(
            r,
            final(acc)@,
            entry_spec(*ev, *s, (entry.0@, entry.1@), entries_view(old(acc)@)),
        ),
    decreases entry, 1nat,
{
    proof {
        assert(decreases_to!(*entry => entry.1));
    }
    match key_directive_of(&entry.0) {
        Some(TemplateDirective::If(c)) => {
            let o = (ev.condition)(s, &c);
            proof {
                if evaluators_deterministic(*ev) {
                    lemma_condition_out(ev.condition, *s, c, o);
                }
            }
            match o {
                Err(m) => Err(condition_error(true, &c, &m)),
                Ok(b) => {
                    if b {
                        match &entry.1 {
                            YamlNode::Mapping(inner) => {
                                proof {
                                    assert(entry.1@ == NodeView::Mapping(entries_view(inner@)));
                                    assert(decreases_to!(entry.1 => (entry.1)->Mapping_0));
                                }
                                merge_inner(inner, s, false, ev, acc)
                            },
                            _ => Ok(()),
                        }
                    } else {
                        Ok(())
                    }
                },
            }
        },
        Some(TemplateDirective::Each(v, c)) => {
            let g = (ev.collection)(s, &v, &c);
            proof {
                if evaluators_deterministic(*ev) {
                    lemma_collection_out(ev.collection, *s, v, c, g);
                }
            }
            match g {
                Err(m) => Err(collection_error(&c, &m)),
                Ok(items) => match &entry.1 {
                    YamlNode::Mapping(inner) => {
                        proof {
                            assert(entry.1@ == NodeView::Mapping(entries_view(inner@)));
                            assert(decreases_to!(entry.1 => (entry.1)->Mapping_0));
                        }
                        match items {
                            Err(t) => Err(not_iterable_error(&t)),
                            Ok(scopes) => merge_each(&scopes, inner, ev, acc),
                        }
                    },
                    _ => Ok(()),
                },
            }
        },
        Some(_) => Ok(()),
        None => match walk(&entry.1, s, ev) {
            Err(e) => Err(e),
            Ok(v) => {
                let k = clone_node(&entry.0);
                insert_entry(acc, k, v);
                Ok(())
            },
        },
    }
}

/// Merges the processed entries of `inner` onto `acc`, in order, with
/// string keys substituted if `subst` is set.
fn merge_inner <
    S,
    C: Fn(&S, &String) -> Result<bool, String>,
    E: Fn(&S, &String, &String) -> Result<Result<Vec<S>, String>, String>,
    T: Fn(&S, &String) -> Result<String, ParseError>,
>(
    inner: &Vec<(YamlNode, YamlNode)>,
    s: &S,
    subst: bool,
    ev: &Evaluators<C, E, T>,
    acc: &mut Vec<(YamlNode, YamlNode)>,
) -> (r: Result<(), ParseError>)
    requires
        evaluators_ready(*ev),
    ensures
        evaluators_deterministic(*ev) ==> merged_matches(
            r,
            final(acc)@,
            inner_spec(*ev, *s, entries_view(inner@), subst, entries_view(old(acc)@)),
        ),
    decreases inner, 0nat,
{
    let ghost iv = entries_view(inner@);
    let ghost acc0 = entries_view(acc@);
    proof {
        lemma_entries_view(inner@);
    }
    let mut i: usize = 0;
    while i < inner.len()
        invariant
            i <= inner@.len(),
            evaluators_ready(*ev),
            iv == entries_view(inner@),
            iv.len() == inner@.len(),
            acc0 == entries_view(old(acc)@),
            forall|j: int|
                0 <= j < inner@.len() ==> #[trigger] iv[j] == (
                    node_view(inner@[j].0),
                    node_view(inner@[j].1),
                ),
            evaluators_deterministic(*ev) ==> inner_spec(*ev, *s, iv.subrange(0, i as int), subst, acc0)
                == Ok::<Seq<(NodeView, NodeView)>, WalkError>(entries_view(acc@)),
        decreases inner@.len() - i,
    {
        proof {
            assert(decreases_to!(*inner => inner@));
            assert(decreases_to!(inner@ => inner@[i as int]));
            assert(decreases_to!(inner@[i as int] => inner@[i as int].1));
        }
        let ghost prefix = iv.subrange(0, i + 1);
        proof {
            assert(prefix.subrange(0, prefix.len() - 1) == iv.subrange(0, i as int));
            assert(prefix[prefix.len() - 1] == iv[i as int]);
        }
        let key = if subst {
            match &inner[i].0 {
                YamlNode::String(t) => {
                    let o = substitute_text(&ev.substitute, s, t);
                    proof {
                        if evaluators_deterministic(*ev) {
                            lemma_text_out(ev.substitute, *s, *t, o);
                        }
                    }
                    match o {
                        Ok(x) => YamlNode::String(x),
                        Err(e) => {
                            proof {
                                if evaluators_deterministic(*ev) {
                                    lemma_inner_spec_error(*ev, *s, iv, subst, acc0, i + 1);
                                }
                            }
                            return Err(e);
                        },
                    }
                },
                other => clone_node(other),
            }
        } else {
            clone_node(&inner[i].0)
        };
        proof {
            if evaluators_deterministic(*ev) {
                assert(key_spec(ev.substitute, *s, iv[i as int].0, subst) == Ok::<NodeView, WalkError>(key@));
            }
        }
        match walk(&inner[i].1, s, ev) {
            Err(e) => {
                proof {
                    if evaluators_deterministic(*ev) {
                        lemma_inner_spec_error(*ev, *s, iv, subst, acc0, i + 1);
                    }
                }
                return Err(e);
            },
            Ok(v) => {
                insert_entry(acc, key, v);
            },
        }
        i = i + 1;
    }
    proof {
        assert(iv.subrange(0, iv.len() as int) == iv);
    }
    Ok(())
}

/// Merges `inner` once per scope, in order, onto `acc`.
fn merge_each <
    S,
    C: Fn(&S, &String) -> Result<bool, String>,
    E: Fn(&S, &String, &String) -> Result<Result<Vec<S>, String>, String>,
    T: Fn(&S, &String) -> Result<String, ParseError>,
>(
    scopes: &Vec<S>,
    inner: &Vec<(YamlNode, YamlNode)>,
    ev: &Evaluators<C, E, T>,
    acc: &mut Vec<(YamlNode, YamlNode)>,
) -> (r: Result<(), ParseError>)
    requires
        evaluators_ready(*ev),
    ensures
        evaluators_deterministic(*ev) ==> merged_matches(
            r,
            final(acc)@,
            each_entries_spec(*ev, scopes@, entries_view(inner@), entries_view(old(acc)@)),
        ),
    decreases inner, 1nat,
{
    let ghost acc0 = entries_view(acc@);
    let ghost iv = entries_view(inner@);
    let mut i: usize = 0;
    while i < scopes.len()
        invariant
            i <= scopes@.len(),
            evaluators_ready(*ev),
            acc0 == entries_view(old(acc)@),
            iv == entries_view(inner@),
            evaluators_deterministic(*ev) ==> each_entries_spec(*ev, scopes@.subrange(0, i as int), iv, acc0)
                == Ok::<Seq<(NodeView, NodeView)>, WalkError>(entries_view(acc@)),
        decreases scopes@.len() - i,
    {
        let ghost prefix = scopes@.subrange(0, i + 1);
        proof {
            assert(prefix.subrange(0, prefix.len() - 1) == scopes@.subrange(0, i as int));
            assert(prefix[prefix.len() - 1] == scopes@[i as int]);
        }
        let r = merge_inner(inner, &scopes[i], true, ev, acc);
        if r.is_err() {
            proof {
                if evaluators_deterministic(*ev) {
                    lemma_each_entries_spec_error(*ev, scopes@, iv, acc0, i + 1);
                }
            }
            return r;
        }
        i = i + 1;
    }
    proof {
        assert(scopes@.subrange(0, scopes@.len() as int) == scopes@);
    }
    Ok(())
}

impl TemplateEngine {
    /// Expands the `${{ if }}`/`${{ elseif }}`/`${{ else }}` and `${{ each }}`
    /// directives of a YAML tree in scope `scope`, substituting the
    /// compile-time expressions of its strings.
    ///
    /// In a sequence, an item that is a one-entry mapping with a directive key
    /// is replaced by its body's items: an `if` whose condition holds, the
    /// first `elseif` of its chain whose condition holds, or an `else` whose
    /// chain took no branch; an `each` body is expanded once per element of
    /// its collection.  In a mapping, an `if` key whose condition holds merges
    /// its mapping's entries, an `each` key merges them once per element with
    /// their keys substituted, and `elseif`/`else` keys are dropped.  The
    /// first failing evaluation stops the expansion.  Whenever the evaluators
    /// are functions of their arguments, the result is `walk_spec`.
    pub fn process_template_expressions <
        S,
        C: Fn(&S, &String) -> Result<bool, String>,
        E: Fn(&S, &String, &String) -> Result<Result<Vec<S>, String>, String>,
        T: Fn(&S, &String) -> Result<String, ParseError>,
    >(&self, value: &YamlNode, scope: &S, ev: &Evaluators<C, E, T>) -> (r:
        Result<YamlNode, ParseError>)
        requires
            evaluators_ready(*ev),
        ensures
            evaluators_deterministic(*ev) ==> node_result_matches(r, walk_spec(*ev, *scope, value@)),
            evaluators_deterministic(*ev) && plain_node(value@) ==> (r matches Ok(v)
                && v@ == value@),
    {
        proof {
            if plain_node(value@) {
                lemma_walk_keeps_plain_values(*ev, *scope, value@);
            }
        }
        walk(value, scope, ev)
    }

    /// The directive of a sequence item, if it is one: a mapping of one entry
    /// whose key spells a directive; with it, the body that the entry holds.
    pub fn extract_directive<'a>(&self, item: &'a YamlNode) -> (r: Option<(TemplateDirective, &'a YamlNode)>)
        ensures
            match r {
                Some((d, body)) => item_directive(item@) == Some(d.view()) && body@ == item_body(item@),
                None => item_directive(item@) is None,
            },
    {
        item_directive_of(item)
    }

    /// Expands a directive body: a sequence gives its processed items, any
    /// other value its processed self.
    pub fn expand_directive_body <
        S,
        C: Fn(&S, &String) -> Result<bool, String>,
        E: Fn(&S, &String, &String) -> Result<Result<Vec<S>, String>, String>,
        T: Fn(&S, &String) -> Result<String, ParseError>,
    >(&self, value: &YamlNode, scope: &S, ev: &Evaluators<C, E, T>) -> (r: Result<
        Vec<YamlNode>,
        ParseError,
    >)
        requires
            evaluators_ready(*ev),
        ensures
            evaluators_deterministic(*ev) ==> items_result_matches(r, body_spec(*ev, *scope, value@)),
    {
        expand_body(value, scope, ev)
    }

    /// A mapping key with its compile-time expressions substituted if it is a
    /// string; any other value is kept.
    pub fn substitute_yaml_value <
        S,
        C: Fn(&S, &String) -> Result<bool, String>,
        E: Fn(&S, &String, &String) -> Result<Result<Vec<S>, String>, String>,
        T: Fn(&S, &String) -> Result<String, ParseError>,
    >(&self, value: &YamlNode, scope: &S, ev: &Evaluators<C, E, T>) -> (r: Result<
        YamlNode,
        ParseError,
    >)
        requires
            evaluators_ready(*ev),
        ensures
            evaluators_deterministic(*ev) ==> node_result_matches(
                r,
                key_spec(ev.substitute, *scope, value@, true),
            ),
    {
        match value {
            YamlNode::String(t) => {
                let o = substitute_text(&ev.substitute, scope, t);
                proof {
                    if evaluators_deterministic(*ev) {
                        lemma_text_out(ev.substitute, *scope, *t, o);
                    }
                }
                match o {
                    Ok(x) => Ok(YamlNode::String(x)),
                    Err(e) => Err(e),
                }
            },
            other => Ok(clone_node(other)),
        }
    }
}


// ---------------------------------------------------------------------------
// Values without expressions
// ---------------------------------------------------------------------------

/// A YAML value with no `$` in any string or mapping key, and no mapping
/// that repeats a key.
pub open spec fn plain_node(n: NodeView) -> bool
    decreases n, 1nat,
{
    match n {
        NodeView::Str(t) => !t.contains('$'),
        NodeView::Sequence(items) => plain_items(items),
        NodeView::Mapping(es) => plain_entries(es) && forall|i: int, j: int|
            0 <= i < j < es.len() ==> es[i].0 != es[j].0,
        _ => true,
    }
}

/// Every item is a plain value.
pub open spec fn plain_items(items: Seq<NodeView>) -> bool
    decreases items, 0nat,
{
    if items.len() == 0 {
        true
    } else {
        plain_items(items.subrange(0, items.len() - 1)) && plain_node(items[items.len() - 1])
    }
}

/// Every key and value is a plain value.
pub open spec fn plain_entries(es: Seq<(NodeView, NodeView)>) -> bool
    decreases es, 0nat,
{
    if es.len() == 0 {
        true
    } else {
        plain_entries(es.subrange(0, es.len() - 1)) && plain_node(es[es.len() - 1].0) && plain_node(
            es[es.len() - 1].1,
        )
    }
}


proof fn lemma_plain_key_no_directive(k: NodeView)
    requires
        plain_node(k),
    ensures
        key_directive(k) is None,
{
    if let NodeView::Str(t) = k {
        lemma_trim_keeps_out(t, '$');
        let tt = trim(t);
        reveal_strlit("${{");
        if tt.len() >= 3 {
            assert(tt[0] != '$');
            assert(tt.subrange(0, 3)[0] == tt[0]);
        }
    }
}

proof fn lemma_walk_plain<
    S,
    C: Fn(&S, &String) -> Result<bool, String>,
    E: Fn(&S, &String, &String) -> Result<Result<Vec<S>, String>, String>,
    T: Fn(&S, &String) -> Result<String, ParseError>,
>(ev: Evaluators<C, E, T>, s: S, n: NodeView)
    requires
        plain_node(n),
    ensures
        walk_spec(ev, s, n) == Ok::<NodeView, WalkError>(n),
    decreases n, 1nat,
{
    match n {
        NodeView::Str(t) => {
            assert(text_out(ev.substitute, s, t) == Ok::<Seq<char>, ParseError>(t));
        },
        NodeView::Sequence(items) => {
            lemma_items_plain(ev, s, items);
        },
        NodeView::Mapping(es) => {
            lemma_entries_plain(ev, s, es);
        },
        _ => {},
    }
}

proof fn lemma_items_plain<
    S,
    C: Fn(&S, &String) -> Result<bool, String>,
    E: Fn(&S, &String, &String) -> Result<Result<Vec<S>, String>, String>,
    T: Fn(&S, &String) -> Result<String, ParseError>,
>(ev: Evaluators<C, E, T>, s: S, items: Seq<NodeView>)
    requires
        plain_items(items),
    ensures
        items_spec(ev, s, items) matches Ok(r) && r.0 == items,
    decreases items, 0nat,
{
    if items.len() > 0 {
        let front = items.subrange(0, items.len() - 1);
        let item = items[items.len() - 1];
        lemma_items_plain(ev, s, front);
        lemma_walk_plain(ev, s, item);
        if let NodeView::Mapping(es) = item {
            assert(plain_node(item));
            assert(plain_entries(es));
            if es.len() == 1 {
                lemma_entries_plain_keys(es, 0);
                lemma_plain_key_no_directive(es[0].0);
            }
        }
        assert(item_kind(item) == ItemKind::Plain);
        let done = items_spec(ev, s, front)->Ok_0;
        assert(item_spec(ev, s, item, done.1) == Ok::<(Seq<NodeView>, BranchChain), WalkError>(
            (seq![item], chain_enter(done.1, ItemKind::Plain)),
        ));
        assert(front + seq![item] =~= items);
    }
}

proof fn lemma_entries_plain_keys(es: Seq<(NodeView, NodeView)>, k: int)
    requires
        plain_entries(es),
        0 <= k < es.len(),
    ensures
        plain_node(es[k].0),
        plain_node(es[k].1),
    decreases es.len(),
{
    if k < es.len() - 1 {
        lemma_entries_plain_keys(es.subrange(0, es.len() - 1), k);
    }
}

proof fn lemma_entries_plain<
    S,
    C: Fn(&S, &String) -> Result<bool, String>,
    E: Fn(&S, &String, &String) -> Result<Result<Vec<S>, String>, String>,
    T: Fn(&S, &String) -> Result<String, ParseError>,
>(ev: Evaluators<C, E, T>, s: S, es: Seq<(NodeView, NodeView)>)
    requires
        plain_entries(es),
        forall|i: int, j: int| 0 <= i < j < es.len() ==> es[i].0 != es[j].0,
    ensures
        entries_spec(ev, s, es) == Ok::<Seq<(NodeView, NodeView)>, WalkError>(es),
    decreases es, 0nat,
{
    if es.len() > 0 {
        let front = es.subrange(0, es.len() - 1);
        let e = es[es.len() - 1];
        assert forall|i: int, j: int| 0 <= i < j < front.len() implies front[i].0 != front[j].0 by {
            assert(front[i] == es[i] && front[j] == es[j]);
        }
        lemma_entries_plain(ev, s, front);
        lemma_plain_key_no_directive(e.0);
        lemma_walk_plain(ev, s, e.1);
        lemma_key_index(front, e.0);
        assert forall|j: int| 0 <= j < front.len() implies front[j].0 != e.0 by {
            assert(front[j] == es[j]);
        }
        assert(key_index(front, e.0) is None) by {
            if let Some(i) = key_index(front, e.0) {
                assert(front[i].0 != e.0);
            }
        }
        assert(front.push((e.0, e.1)) =~= es);
        assert(entry_spec(ev, s, e, front) == Ok::<Seq<(NodeView, NodeView)>, WalkError>(es));
        assert(es.subrange(0, es.len() - 1) == front);
        assert(entries_spec(ev, s, front) == Ok::<Seq<(NodeView, NodeView)>, WalkError>(front));
        assert(entries_spec(ev, s, es) == entry_spec(ev, s, e, front));
    } else {
        assert(es =~= Seq::<(NodeView, NodeView)>::empty());
    }
}

/// A value with no `$` in any string or key (and no repeated key) comes
/// back from the walk unchanged: no directive is applied, nothing is
/// substituted or reordered, and no evaluator is called.
pub proof fn lemma_walk_keeps_plain_values<
    S,
    C: Fn(&S, &String) -> Result<bool, String>,
    E: Fn(&S, &String, &String) -> Result<Result<Vec<S>, String>, String>,
    T: Fn(&S, &String) -> Result<String, ParseError>,
>(ev: Evaluators<C, E, T>, s: S, n: NodeView)
    requires
        plain_node(n),
    ensures
        walk_spec(ev, s, n) == Ok::<NodeView, WalkError>(n),
{
    lemma_walk_plain(ev, s, n);
}

} // verus!
