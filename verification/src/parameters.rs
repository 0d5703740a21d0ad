//! Template parameters: checking the values passed to a template against
//! the declared parameter types and allowed values, filling in defaults, and
//! reading the short `name: default` form of a parameter list.

use vstd::prelude::*;
use crate::expansion::{
    clone_node, entries_view, lemma_entries_view, lemma_nodes_view, evaluators_deterministic, evaluators_ready, node_eq, node_result_matches,
    node_view, nodes_view, walk_spec, Evaluators, NodeView, YamlNode,
};
use crate::models::{Parameter, ParameterType};
use crate::parse_error::{ParseError, ParseErrorKind};
use crate::template::{str_eq, TemplateEngine, TemplateError, TemplateErrorKind};
use crate::text::chars_of;
use crate::expr_parser::{debug_quoted, debug_quoted_text};

verus! {

broadcast use vstd::string::group_string_axioms;

// ---------------------------------------------------------------------------
// Floating-point literals, as `f64::from_str` reads them
// ---------------------------------------------------------------------------

/// Every character is a decimal digit.
pub open spec fn digits_only(s: Seq<char>) -> bool {
    forall|i: int| 0 <= i < s.len() ==> '0' <= #[trigger] s[i] <= '9'
}

/// The position of the first character that is `a` or `b`.
pub open spec fn first_of(s: Seq<char>, a: char, b: char) -> Option<int>
    decreases s.len(),
{
    if s.len() == 0 {
        None
    } else {
        match first_of(s.drop_last(), a, b) {
            Some(i) => Some(i),
            None => if s.last() == a || s.last() == b {
                Some(s.len() - 1)
            } else {
                None
            },
        }
    }
}

/// `Digit+ | Digit+ '.' Digit* | Digit* '.' Digit+`.
pub open spec fn mantissa_ok(s: Seq<char>) -> bool {
    match first_of(s, '.', '.') {
        None => s.len() > 0 && digits_only(s),
        Some(i) => s.len() >= 2 && digits_only(s.subrange(0, i)) && digits_only(s.subrange(i + 1, s.len() as int)),
    }
}

/// `('e' | 'E') Sign? Digit+`.
pub open spec fn exponent_ok(s: Seq<char>) -> bool {
    s.len() >= 2 && (s[0] == 'e' || s[0] == 'E') && {
        let t = if s[1] == '+' || s[1] == '-' {
            s.subrange(2, s.len() as int)
        } else {
            s.subrange(1, s.len() as int)
        };
        t.len() > 0 && digits_only(t)
    }
}

/// A mantissa with an optional exponent.
pub open spec fn number_ok(s: Seq<char>) -> bool {
    match first_of(s, 'e', 'E') {
        None => mantissa_ok(s),
        Some(k) => mantissa_ok(s.subrange(0, k)) && exponent_ok(s.subrange(k, s.len() as int)),
    }
}

/// `s` spells `word` (given in lower and upper case) regardless of case.
pub open spec fn spells(s: Seq<char>, lower: Seq<char>, upper: Seq<char>) -> bool {
    s.len() == lower.len() && lower.len() == upper.len() && forall|i: int|
        0 <= i < s.len() ==> s[i] == lower[i] || s[i] == upper[i]
}

/// A text that `f64::from_str` accepts: an optional sign, then `inf`,
/// `infinity` or `nan` in any case, or decimal digits with an optional
/// point and an optional exponent; no surrounding whitespace.
pub open spec fn float_literal(s: Seq<char>) -> bool {
    let t = if s.len() > 0 && (s[0] == '+' || s[0] == '-') {
        s.drop_first()
    } else {
        s
    };
    spells(t, "inf"@, "INF"@) || spells(t, "infinity"@, "INFINITY"@) || spells(t, "nan"@, "NAN"@)
        || number_ok(t)
}

fn digits_between(cs: &Vec<char>, from: usize, to: usize) -> (b: bool)
    requires
        from <= to <= cs@.len(),
    ensures
        b == digits_only(cs@.subrange(from as int, to as int)),
{
    let mut i = from;
    while i < to
        invariant
            from <= i <= to <= cs@.len(),
            digits_only(cs@.subrange(from as int, i as int)),
        decreases to - i,
    {
        if !('0' <= cs[i] && cs[i] <= '9') {
            proof {
                assert(cs@.subrange(from as int, to as int)[i - from] == cs@[i as int]);
            }
            return false;
        }
        proof {
            let s = cs@.subrange(from as int, i + 1);
            assert forall|j: int| 0 <= j < s.len() implies '0' <= #[trigger] s[j] <= '9' by {
                if j < i - from {
                    assert(s[j] == cs@.subrange(from as int, i as int)[j]);
                }
            }
        }
        i = i + 1;
    }
    true
}

fn first_of_between(cs: &Vec<char>, from: usize, to: usize, a: char, b: char) -> (r: Option<usize>)
    requires
        from <= to <= cs@.len(),
    ensures
        match first_of(cs@.subrange(from as int, to as int), a, b) {
            Some(i) => r == Some((from + i) as usize),
            None => r is None,
        },
{
    let ghost s = cs@.subrange(from as int, to as int);
    proof {
        lemma_first_of(s, a, b);
    }
    let mut i = from;
    while i < to
        invariant
            from <= i <= to <= cs@.len(),
            s == cs@.subrange(from as int, to as int),
            forall|j: int| 0 <= j < i - from ==> s[j] != a && s[j] != b,
            match first_of(s, a, b) {
                Some(k) => 0 <= k < s.len() && (s[k] == a || s[k] == b) && forall|j: int| 0 <= j < k ==> s[j] != a && s[j] != b,
                None => forall|j: int| 0 <= j < s.len() ==> s[j] != a && s[j] != b,
            },
        decreases to - i,
    {
        if cs[i] == a || cs[i] == b {
            proof {
                assert(s[i - from] == cs@[i as int]);
                match first_of(s, a, b) {
                    Some(k) => {
                        assert(!(k < i - from));
                        assert(!(k > i - from));
                    },
                    None => {},
                }
            }
            return Some(i);
        }
        proof {
            assert(s[i - from] == cs@[i as int]);
        }
        i = i + 1;
    }
    None
}

proof fn lemma_first_of(s: Seq<char>, a: char, b: char)
    ensures
        match first_of(s, a, b) {
            Some(k) => 0 <= k < s.len() && (s[k] == a || s[k] == b) && forall|j: int| 0 <= j < k ==> s[j] != a && s[j] != b,
            None => forall|j: int| 0 <= j < s.len() ==> s[j] != a && s[j] != b,
        },
    decreases s.len(),
{
    if s.len() > 0 {
        let d = s.drop_last();
        lemma_first_of(d, a, b);
        assert forall|j: int| 0 <= j < d.len() implies d[j] == s[j] by {}
    }
}

fn mantissa_between(cs: &Vec<char>, from: usize, to: usize) -> (b: bool)
    requires
        from <= to <= cs@.len(),
    ensures
        b == mantissa_ok(cs@.subrange(from as int, to as int)),
{
    let ghost s = cs@.subrange(from as int, to as int);
    proof {
        lemma_first_of(s, '.', '.');
    }
    match first_of_between(cs, from, to, '.', '.') {
        None => to > from && digits_between(cs, from, to),
        Some(p) => {
            proof {
                assert(s.subrange(0, p - from) == cs@.subrange(from as int, p as int));
                assert(s.subrange(p - from + 1, s.len() as int) == cs@.subrange(p + 1, to as int));
            }
            to - from >= 2 && digits_between(cs, from, p) && digits_between(cs, p + 1, to)
        },
    }
}

fn exponent_between(cs: &Vec<char>, from: usize, to: usize) -> (b: bool)
    requires
        from <= to <= cs@.len(),
    ensures
        b == exponent_ok(cs@.subrange(from as int, to as int)),
{
    let ghost s = cs@.subrange(from as int, to as int);
    if to - from < 2 || !(cs[from] == 'e' || cs[from] == 'E') {
        proof {
            if to - from >= 2 {
                assert(s[0] == cs@[from as int]);
            }
        }
        return false;
    }
    proof {
        assert(s[0] == cs@[from as int]);
        assert(s[1] == cs@[from + 1]);
    }
    let start = if cs[from + 1] == '+' || cs[from + 1] == '-' {
        from + 2
    } else {
        from + 1
    };
    proof {
        assert(s.subrange(start - from, s.len() as int) == cs@.subrange(start as int, to as int));
    }
    to > start && digits_between(cs, start, to)
}

fn spells_exec(cs: &Vec<char>, from: usize, lower: &str, upper: &str) -> (b: bool)
    requires
        from <= cs@.len(),
    ensures
        b == spells(cs@.subrange(from as int, cs@.len() as int), lower@, upper@),
{
    let lo = chars_of(lower);
    let up = chars_of(upper);
    let ghost s = cs@.subrange(from as int, cs@.len() as int);
    let n = cs.len();
    if n - from != lo.len() || lo.len() != up.len() {
        return false;
    }
    let mut i: usize = 0;
    while i < lo.len()
        invariant
            i <= lo@.len(),
            lo@ == lower@,
            up@ == upper@,
            s == cs@.subrange(from as int, cs@.len() as int),
            from <= cs@.len(),
            n == cs@.len(),
            cs@.len() - from == lo@.len(),
            s.len() == lo@.len(),
            lo@.len() == up@.len(),
            forall|j: int| 0 <= j < i ==> s[j] == lo@[j] || s[j] == up@[j],
        decreases lo@.len() - i,
    {
        proof {
            assert(s[i as int] == cs@[from + i]);
        }
        if cs[from + i] != lo[i] && cs[from + i] != up[i] {
            return false;
        }
        i = i + 1;
    }
    true
}

/// Whether `f64::from_str` accepts `s`.
pub fn is_float_literal(s: &str) -> (b: bool)
    ensures
        b == float_literal(s@),
{
    let cs = chars_of(s);
    let from: usize = if cs.len() > 0 && (cs[0] == '+' || cs[0] == '-') {
        1
    } else {
        0
    };
    let ghost t = if s@.len() > 0 && (s@[0] == '+' || s@[0] == '-') {
        s@.drop_first()
    } else {
        s@
    };
    proof {
        assert(t == cs@.subrange(from as int, cs@.len() as int));
    }
    if spells_exec(&cs, from, "inf", "INF") || spells_exec(&cs, from, "infinity", "INFINITY")
        || spells_exec(&cs, from, "nan", "NAN") {
        return true;
    }
    let n = cs.len();
    proof {
        lemma_first_of(t, 'e', 'E');
    }
    match first_of_between(&cs, from, n, 'e', 'E') {
        None => mantissa_between(&cs, from, n),
        Some(k) => {
            proof {
                assert(t.subrange(0, k - from) == cs@.subrange(from as int, k as int));
                assert(t.subrange(k - from, t.len() as int) == cs@.subrange(k as int, n as int));
            }
            mantissa_between(&cs, from, k) && exponent_between(&cs, k, n)
        },
    }
}

// ---------------------------------------------------------------------------
// Parameter types
// ---------------------------------------------------------------------------

/// A value with its tags taken off.
pub open spec fn untagged(v: NodeView) -> NodeView
    decreases v,
{
    match v {
        NodeView::Tagged(_, inner) => untagged(*inner),
        _ => v,
    }
}

/// Whether a value passed for a parameter fits its declared type (tags are
/// looked through): strings, numbers or booleans for a string; a number, or
/// a string that reads as one, for a number; a boolean, or the strings
/// `true` and `false`, for a boolean; a mapping or sequence for an object; a
/// mapping for a step, job or stage; a sequence for a list of them.
pub open spec fn type_accepts(t: ParameterType, v: NodeView) -> bool {
    let u = untagged(v);
    match t {
        ParameterType::String => u is Str || u is Number || u is Bool,
        ParameterType::Number => u is Number || (u is Str && float_literal(u->Str_0)),
        ParameterType::Boolean => u is Bool || (u is Str && (u->Str_0 == "true"@ || u->Str_0 == "false"@)),
        ParameterType::Object => u is Mapping || u is Sequence,
        ParameterType::Step | ParameterType::Job | ParameterType::Stage => u is Mapping,
        ParameterType::StepList | ParameterType::JobList | ParameterType::StageList => u is Sequence,
    }
}

/// What each parameter type accepts, by the shape of the value (tags looked
/// through): an object takes any mapping or sequence; a step, job or stage
/// any mapping and no sequence; a list of them any sequence and no mapping;
/// a string any string, number or boolean; a number any number; a boolean
/// any boolean and the texts `true` and `false`; nothing takes null.
pub proof fn lemma_parameter_types_accept(t: ParameterType, v: NodeView)
    ensures
        untagged(v) is Mapping ==> type_accepts(ParameterType::Object, v),
        untagged(v) is Sequence ==> type_accepts(ParameterType::Object, v),
        untagged(v) is Mapping ==> type_accepts(ParameterType::Step, v) && type_accepts(ParameterType::Job, v)
            && type_accepts(ParameterType::Stage, v) && !type_accepts(ParameterType::StepList, v)
            && !type_accepts(ParameterType::JobList, v) && !type_accepts(ParameterType::StageList, v),
        untagged(v) is Sequence ==> type_accepts(ParameterType::StepList, v) && type_accepts(
            ParameterType::JobList,
            v,
        ) && type_accepts(ParameterType::StageList, v) && !type_accepts(ParameterType::Step, v)
            && !type_accepts(ParameterType::Job, v) && !type_accepts(ParameterType::Stage, v),
        untagged(v) is Str || untagged(v) is Number || untagged(v) is Bool ==> type_accepts(
            ParameterType::String,
            v,
        ),
        untagged(v) is Number ==> type_accepts(ParameterType::Number, v),
        untagged(v) is Bool ==> type_accepts(ParameterType::Boolean, v),
        untagged(v) == NodeView::Str("true"@) || untagged(v) == NodeView::Str("false"@) ==> type_accepts(
            ParameterType::Boolean,
            v,
        ),
        untagged(v) is Null ==> !type_accepts(t, v),
        type_accepts(t, v) ==> !(untagged(v) is Null),
{
}

/// A tag does not change what a parameter type accepts.
pub proof fn lemma_parameter_types_see_through_tags(t: ParameterType, tag: Seq<char>, v: NodeView)
    ensures
        type_accepts(t, NodeView::Tagged(tag, Box::new(v))) == type_accepts(t, v),
{
    assert(untagged(NodeView::Tagged(tag, Box::new(v))) == untagged(v));
}

/// The name of a parameter type, as its `Debug` writes it.
pub open spec fn param_type_label(t: ParameterType) -> Seq<char> {
    match t {
        ParameterType::String => "String"@,
        ParameterType::Number => "Number"@,
        ParameterType::Boolean => "Boolean"@,
        ParameterType::Object => "Object"@,
        ParameterType::Step => "Step"@,
        ParameterType::StepList => "StepList"@,
        ParameterType::Job => "Job"@,
        ParameterType::JobList => "JobList"@,
        ParameterType::Stage => "Stage"@,
        ParameterType::StageList => "StageList"@,
    }
}

fn param_type_label_of(t: &ParameterType) -> (r: &'static str)
    ensures
        r@ == param_type_label(*t),
{
    match t {
        ParameterType::String => "String",
        ParameterType::Number => "Number",
        ParameterType::Boolean => "Boolean",
        ParameterType::Object => "Object",
        ParameterType::Step => "Step",
        ParameterType::StepList => "StepList",
        ParameterType::Job => "Job",
        ParameterType::JobList => "JobList",
        ParameterType::Stage => "Stage",
        ParameterType::StageList => "StageList",
    }
}

/// A node with its tags taken off.
pub open spec fn untag_node(n: YamlNode) -> YamlNode
    decreases n,
{
    match n {
        YamlNode::Tagged(_, inner) => untag_node(*inner),
        _ => n,
    }
}

fn untag(n: &YamlNode) -> (r: &YamlNode)
    ensures
        r@ == untagged(n@),
        *r == untag_node(*n),
    decreases n,
{
    match n {
        YamlNode::Tagged(_, inner) => untag(inner),
        _ => n,
    }
}

/// How a YAML tag is written: `!` and the tag without one leading `!`
/// (a tag that is just `!` is kept whole).
pub open spec fn tag_text(t: Seq<char>) -> Seq<char> {
    if t.len() > 1 && t[0] == '!' {
        "!"@ + t.subrange(1, t.len() as int)
    } else {
        "!"@ + t
    }
}

/// How a YAML value is written for debugging, as the YAML library's
/// `Debug` writes it: `Null`, `Bool(true)`, `Number(1)`, `String("a")`,
/// `Sequence [..]`, `Mapping {k: v, ..}` and
/// `TaggedValue { tag: !t, value: .. }`.
pub open spec fn node_debug(n: NodeView) -> Seq<char>
    decreases n, 1nat,
{
    match n {
        NodeView::Null => "Null"@,
        NodeView::Bool(b) => if b {
            "Bool(true)"@
        } else {
            "Bool(false)"@
        },
        NodeView::Number(t) => "Number("@ + t + ")"@,
        NodeView::Str(s) => "String("@ + debug_quoted(s) + ")"@,
        NodeView::Sequence(items) => "Sequence ["@ + items_debug(items) + "]"@,
        NodeView::Mapping(es) => "Mapping {"@ + entries_debug(es) + "}"@,
        NodeView::Tagged(t, v) => "TaggedValue { tag: "@ + tag_text(t) + ", value: "@ + node_debug(*v) + " }"@,
    }
}

/// The items of a sequence, written and separated by `, `.
pub open spec fn items_debug(s: Seq<NodeView>) -> Seq<char>
    decreases s, 1nat,
{
    if s.len() == 0 {
        Seq::empty()
    } else if s.len() == 1 {
        node_debug(s[0])
    } else {
        items_debug(s.subrange(0, s.len() - 1)) + ", "@ + node_debug(s[s.len() - 1])
    }
}

/// How a mapping key is written: a boolean, a number or a string as itself
/// (the string quoted), any other value as a value.
pub open spec fn key_debug(k: NodeView) -> Seq<char>
    decreases k, 2nat,
{
    match k {
        NodeView::Bool(b) => if b {
            "true"@
        } else {
            "false"@
        },
        NodeView::Number(t) => t,
        NodeView::Str(s) => debug_quoted(s),
        _ => node_debug(k),
    }
}

/// The entries of a mapping, each `key: value`, separated by `, `.
pub open spec fn entries_debug(s: Seq<(NodeView, NodeView)>) -> Seq<char>
    decreases s, 1nat,
{
    if s.len() == 0 {
        Seq::empty()
    } else if s.len() == 1 {
        key_debug(s[0].0) + ": "@ + node_debug(s[0].1)
    } else {
        entries_debug(s.subrange(0, s.len() - 1)) + ", "@ + key_debug(s[s.len() - 1].0) + ": "@ + node_debug(
            s[s.len() - 1].1,
        )
    }
}

fn tag_debug_text(t: &String) -> (r: String)
    ensures
        r@ == tag_text(t@),
{
    let cs = chars_of(t.as_str());
    let mut r = String::from_str("!");
    if cs.len() > 1 && cs[0] == '!' {
        let rest = crate::text::slice_chars(cs.as_slice(), 1, cs.len());
        let rs = crate::text::string_from(rest.as_slice());
        r.append(rs.as_str());
    } else {
        r.append(t.as_str());
    }
    r
}

fn key_debug_text(k: &YamlNode) -> (r: String)
    ensures
        r@ == key_debug(k@),
    decreases k, 1nat,
{
    match k {
        YamlNode::Bool(b) => if *b {
            String::from_str("true")
        } else {
            String::from_str("false")
        },
        YamlNode::Number(t) => t.clone(),
        YamlNode::String(s) => debug_quoted_text(s.as_str()),
        _ => node_debug_text(k),
    }
}

/// Writes a value as `node_debug` says.
pub fn node_debug_text(n: &YamlNode) -> (r: String)
    ensures
        r@ == node_debug(n@),
    decreases n, 0nat,
{
    match n {
        YamlNode::Null => String::from_str("Null"),
        YamlNode::Bool(b) => if *b {
            String::from_str("Bool(true)")
        } else {
            String::from_str("Bool(false)")
        },
        YamlNode::Number(t) => {
            let mut r = String::from_str("Number(");
            r.append(t.as_str());
            r.append(")");
            r
        },
        YamlNode::String(s) => {
            let mut r = String::from_str("String(");
            let q = debug_quoted_text(s.as_str());
            r.append(q.as_str());
            r.append(")");
            r
        },
        YamlNode::Sequence(items) => {
            let mut r = String::from_str("Sequence [");
            let ghost head = r@;
            let mut i: usize = 0;
            while i < items.len()
                invariant
                    i <= items@.len(),
                    *n == YamlNode::Sequence(*items),
                    head == "Sequence ["@,
                    r@ == head + items_debug(nodes_view(items@.subrange(0, i as int))),
                decreases items@.len() - i,
            {
                proof {
                    assert(decreases_to!(*n => (*n)->Sequence_0));
                    assert(decreases_to!(*items => items@));
                    assert(decreases_to!(items@ => items@[i as int]));
                    assert(decreases_to!(*n => items@[i as int]));
                }
                if i > 0 {
                    r.append(", ");
                }
                let t = node_debug_text(&items[i]);
                r.append(t.as_str());
                proof {
                    let sub = items@.subrange(0, i + 1);
                    assert(sub.subrange(0, i as int) == items@.subrange(0, i as int));
                    assert(sub[i as int] == items@[i as int]);
                    let pre = nodes_view(items@.subrange(0, i as int));
                    lemma_nodes_view(items@.subrange(0, i as int));
                    assert(nodes_view(sub) == pre.push(items@[i as int]@));
                    assert(pre.push(items@[i as int]@).subrange(0, i as int) == pre);
                }
                i = i + 1;
            }
            r.append("]");
            proof {
                assert(items@.subrange(0, items@.len() as int) == items@);
            }
            r
        },
        YamlNode::Mapping(es) => {
            let mut r = String::from_str("Mapping {");
            let ghost head = r@;
            let mut i: usize = 0;
            while i < es.len()
                invariant
                    i <= es@.len(),
                    *n == YamlNode::Mapping(*es),
                    head == "Mapping {"@,
                    r@ == head + entries_debug(entries_view(es@.subrange(0, i as int))),
                decreases es@.len() - i,
            {
                proof {
                    assert(decreases_to!(*n => (*n)->Mapping_0));
                    assert(decreases_to!(*es => es@));
                    assert(decreases_to!(es@ => es@[i as int]));
                    assert(decreases_to!(es@[i as int] => es@[i as int].0));
                    assert(decreases_to!(es@[i as int] => es@[i as int].1));
                    assert(decreases_to!(*n => es@[i as int].0));
                    assert(decreases_to!(*n => es@[i as int].1));
                }
                if i > 0 {
                    r.append(", ");
                }
                let k = key_debug_text(&es[i].0);
                r.append(k.as_str());
                r.append(": ");
                let v = node_debug_text(&es[i].1);
                r.append(v.as_str());
                proof {
                    let sub = es@.subrange(0, i + 1);
                    assert(sub.subrange(0, i as int) == es@.subrange(0, i as int));
                    assert(sub[i as int] == es@[i as int]);
                    let pre = entries_view(es@.subrange(0, i as int));
                    lemma_entries_view(es@.subrange(0, i as int));
                    let item = (es@[i as int].0@, es@[i as int].1@);
                    assert(entries_view(sub) == pre.push(item));
                    assert(pre.push(item).subrange(0, i as int) == pre);
                }
                i = i + 1;
            }
            r.append("}");
            proof {
                assert(es@.subrange(0, es@.len() as int) == es@);
            }
            r
        },
        YamlNode::Tagged(t, v) => {
            let mut r = String::from_str("TaggedValue { tag: ");
            let tt = tag_debug_text(t);
            r.append(tt.as_str());
            r.append(", value: ");
            proof {
                assert(decreases_to!(*n => (*n)->Tagged_1));
            }
            let inner = node_debug_text(v);
            r.append(inner.as_str());
            r.append(" }");
            r
        },
    }
}

/// How the message of an error about template `path` begins.
pub open spec fn template_header(path: Seq<char>) -> Seq<char> {
    "template error in "@ + seq!['\''] + path + seq!['\'', ':', ' ']
}

/// `e` is the template error about template `path` with message `msg`, as a
/// parse error located nowhere.
pub open spec fn template_failure(e: ParseError, path: Seq<char>, msg: Seq<char>) -> bool {
    &&& e.message@ == template_header(path) + msg
    &&& e.line == 0
    &&& e.column == 0
    &&& e.kind == ParseErrorKind::TemplateError
}

/// "parameter '<name>' expected type <type> but got ".
pub open spec fn mismatch_prefix(name: Seq<char>, t: ParameterType) -> Seq<char> {
    "parameter '"@ + name + "' expected type "@ + param_type_label(t) + " but got "@
}

/// "parameter '<name>' value not in allowed values".
pub open spec fn not_allowed_message(name: Seq<char>) -> Seq<char> {
    "parameter '"@ + name + "' value not in allowed values"@
}

/// "required parameter '<name>' not provided for template '<path>'".
pub open spec fn missing_message(name: Seq<char>, path: Seq<char>) -> Seq<char> {
    "required parameter '"@ + name + "' not provided for template '"@ + path + "'"@
}

fn template_error(msg: &String, kind: TemplateErrorKind, path: &str) -> (e: ParseError)
    ensures
        template_failure(e, path@, msg@),
{
    TemplateError::new(msg.as_str(), kind).with_path(path).to_parse_error()
}

// ---------------------------------------------------------------------------
// Resolving the parameters of a template call
// ---------------------------------------------------------------------------

/// Parameter values by name, as character sequences and values.
pub open spec fn params_view(v: Seq<(String, YamlNode)>) -> Seq<(Seq<char>, NodeView)> {
    v.map_values(|p: (String, YamlNode)| (p.0@, p.1@))
}

/// The value given last for `name`.
pub open spec fn param_of(ps: Seq<(Seq<char>, NodeView)>, name: Seq<char>) -> Option<NodeView>
    decreases ps.len(),
{
    if ps.len() == 0 {
        None
    } else if ps.last().0 == name {
        Some(ps.last().1)
    } else {
        param_of(ps.drop_last(), name)
    }
}

/// The position of the first entry named `name`.
pub open spec fn param_index(ps: Seq<(Seq<char>, NodeView)>, name: Seq<char>) -> Option<int>
    decreases ps.len(),
{
    if ps.len() == 0 {
        None
    } else {
        match param_index(ps.drop_last(), name) {
            Some(i) => Some(i),
            None => if ps.last().0 == name {
                Some(ps.len() - 1)
            } else {
                None
            },
        }
    }
}

/// The entries with `name` set to `v`: the entry of that name keeps its
/// place and takes the value, else the entry is added at the end.
pub open spec fn param_insert(ps: Seq<(Seq<char>, NodeView)>, name: Seq<char>, v: NodeView) -> Seq<
    (Seq<char>, NodeView),
> {
    match param_index(ps, name) {
        Some(i) => ps.update(i, (name, v)),
        None => ps.push((name, v)),
    }
}

/// Why a template call's parameters are refused.
pub enum ParamFailure {
    /// The value passed for the parameter does not fit its type.
    TypeMismatch(Seq<char>, ParameterType, NodeView),
    /// The value passed is not among the allowed values.
    NotAllowed(Seq<char>),
    /// A parameter without default was not passed.
    Missing(Seq<char>),
}

/// `e` is the error that `f` describes for template `path`.
pub open spec fn failure_matches(e: ParseError, f: ParamFailure, path: Seq<char>) -> bool {
    match f {
        ParamFailure::TypeMismatch(name, t, v) => template_failure(e, path, mismatch_prefix(name, t) + node_debug(v)),
        ParamFailure::NotAllowed(name) => template_failure(e, path, not_allowed_message(name)),
        ParamFailure::Missing(name) => template_failure(e, path, missing_message(name, path)),
    }
}

/// The value of one declared parameter: the one passed (checked against
/// the type and the allowed values), else the default.
pub open spec fn declared_value(p: Parameter, provided: Seq<(Seq<char>, NodeView)>) -> Result<NodeView, ParamFailure> {
    match param_of(provided, p.name@) {
        Some(v) => if !type_accepts(p.param_type, v) {
            Err(ParamFailure::TypeMismatch(p.name@, p.param_type, v))
        } else if p.values matches Some(allowed) && !(exists|i: int|
            0 <= i < allowed@.len() && #[trigger] allowed@[i]@ == v) {
            Err(ParamFailure::NotAllowed(p.name@))
        } else {
            Ok(v)
        },
        None => match p.default {
            Some(d) => Ok(d@),
            None => Err(ParamFailure::Missing(p.name@)),
        },
    }
}

/// The declared parameters' values, in declaration order; the first refused
/// one ends it.
pub open spec fn declared_values(declared: Seq<Parameter>, provided: Seq<(Seq<char>, NodeView)>) -> Result<
    Seq<(Seq<char>, NodeView)>,
    ParamFailure,
>
    decreases declared.len(),
{
    if declared.len() == 0 {
        Ok(Seq::empty())
    } else {
        match declared_values(declared.drop_last(), provided) {
            Err(f) => Err(f),
            Ok(acc) => match declared_value(declared.last(), provided) {
                Err(f) => Err(f),
                Ok(v) => Ok(param_insert(acc, declared.last().name@, v)),
            },
        }
    }
}

/// The values passed for names not yet set, added in order.
pub open spec fn with_extras(acc: Seq<(Seq<char>, NodeView)>, provided: Seq<(Seq<char>, NodeView)>) -> Seq<
    (Seq<char>, NodeView),
>
    decreases provided.len(),
{
    if provided.len() == 0 {
        acc
    } else {
        let done = with_extras(acc, provided.drop_last());
        if param_of(done, provided.last().0) is Some {
            done
        } else {
            done.push(provided.last())
        }
    }
}

/// The parameters a template runs with: each declared parameter's value,
/// then every other value passed.
pub open spec fn resolved_parameters(declared: Seq<Parameter>, provided: Seq<(Seq<char>, NodeView)>) -> Result<
    Seq<(Seq<char>, NodeView)>,
    ParamFailure,
> {
    match declared_values(declared, provided) {
        Err(f) => Err(f),
        Ok(acc) => Ok(with_extras(acc, provided)),
    }
}

proof fn lemma_param_index(ps: Seq<(Seq<char>, NodeView)>, name: Seq<char>)
    ensures
        match param_index(ps, name) {
            Some(i) => 0 <= i < ps.len() && ps[i].0 == name && forall|j: int| 0 <= j < i ==> ps[j].0 != name,
            None => forall|j: int| 0 <= j < ps.len() ==> ps[j].0 != name,
        },
    decreases ps.len(),
{
    if ps.len() > 0 {
        let d = ps.drop_last();
        lemma_param_index(d, name);
        assert forall|j: int| 0 <= j < d.len() implies d[j] == ps[j] by {}
    }
}

fn find_param<'a>(ps: &'a Vec<(String, YamlNode)>, name: &str) -> (r: Option<&'a YamlNode>)
    ensures
        match param_of(params_view(ps@), name@) {
            Some(v) => r matches Some(x) && x@ == v,
            None => r is None,
        },
{
    let ghost pv = params_view(ps@);
    let mut i: usize = ps.len();
    proof {
        assert(pv.subrange(0, i as int) == pv);
    }
    while i > 0
        invariant
            i <= ps@.len(),
            pv == params_view(ps@),
            param_of(pv, name@) == param_of(pv.subrange(0, i as int), name@),
        decreases i,
    {
        let ghost pre = pv.subrange(0, i as int);
        proof {
            assert(pre.drop_last() == pv.subrange(0, i - 1));
            assert(pre.last() == (ps@[i - 1].0@, ps@[i - 1].1@));
        }
        if str_eq(ps[i - 1].0.as_str(), name) {
            return Some(&ps[i - 1].1);
        }
        i = i - 1;
    }
    None
}

pub(crate) fn set_param(ps: &mut Vec<(String, YamlNode)>, name: String, v: YamlNode)
    ensures
        params_view(final(ps)@) == param_insert(params_view(old(ps)@), name@, v@),
{
    let ghost pv = params_view(ps@);
    let mut i: usize = 0;
    while i < ps.len()
        invariant
            i <= ps@.len(),
            pv == params_view(ps@),
            pv == params_view(old(ps)@),
            forall|j: int| 0 <= j < i ==> pv[j].0 != name@,
        decreases ps@.len() - i,
    {
        if str_eq(ps[i].0.as_str(), name.as_str()) {
            proof {
                assert(pv[i as int] == (ps@[i as int].0@, ps@[i as int].1@));
                lemma_param_index(pv, name@);
                assert(param_index(pv, name@) == Some(i as int)) by {
                    match param_index(pv, name@) {
                        Some(j) => {
                            assert(!(j < i));
                            assert(!(j > i));
                        },
                        None => {},
                    }
                }
            }
            ps.set(i, (name, v));
            proof {
                assert(params_view(ps@) =~= pv.update(i as int, (name@, v@)));
            }
            return;
        }
        i = i + 1;
    }
    proof {
        lemma_param_index(pv, name@);
    }
    ps.push((name, v));
    proof {
        assert(params_view(ps@) =~= pv.push((name@, v@)));
    }
}

impl TemplateEngine {
    /// Checks that a value passed for a parameter fits its declared type.
    pub fn validate_parameter_type(&self, name: &str, value: &YamlNode, param_type: &ParameterType, template_ref: &str) -> (r: Result<(), ParseError>)
        ensures
            type_accepts(*param_type, value@) ==> r is Ok,
            !type_accepts(*param_type, value@) ==> (r matches Err(e) && failure_matches(
                e,
                ParamFailure::TypeMismatch(name@, *param_type, value@),
                template_ref@,
            )),
    {
        let u = untag(value);
        proof {
            reveal_strlit("true");
            reveal_strlit("false");
        }
        let valid = match param_type {
            ParameterType::String => matches!(u, YamlNode::String(_)) || matches!(u, YamlNode::Number(_))
                || matches!(u, YamlNode::Bool(_)),
            ParameterType::Number => match u {
                YamlNode::Number(_) => true,
                YamlNode::String(s) => is_float_literal(s.as_str()),
                _ => false,
            },
            ParameterType::Boolean => match u {
                YamlNode::Bool(_) => true,
                YamlNode::String(s) => str_eq(s.as_str(), "true") || str_eq(s.as_str(), "false"),
                _ => false,
            },
            ParameterType::Object => matches!(u, YamlNode::Mapping(_)) || matches!(u, YamlNode::Sequence(_)),
            ParameterType::Step | ParameterType::Job | ParameterType::Stage => matches!(u, YamlNode::Mapping(_)),
            ParameterType::StepList | ParameterType::JobList | ParameterType::StageList => matches!(
                u,
                YamlNode::Sequence(_)
            ),
        };
        proof {
            match u {
                YamlNode::String(s) => assert(u@ == NodeView::Str(s@)),
                YamlNode::Number(t) => assert(u@ == NodeView::Number(t@)),
                YamlNode::Bool(b) => assert(u@ == NodeView::Bool(*b)),
                YamlNode::Sequence(items) => assert(u@ == NodeView::Sequence(nodes_view(items@))),
                YamlNode::Mapping(es) => assert(u@ == NodeView::Mapping(entries_view(es@))),
                _ => {},
            }
        }
        if valid {
            return Ok(());
        }
        let mut msg = String::from_str("parameter '");
        msg.append(name);
        msg.append("' expected type ");
        msg.append(param_type_label_of(param_type));
        msg.append(" but got ");
        let ghost head = msg@;
        let shown = node_debug_text(value);
        msg.append(shown.as_str());
        let e = template_error(&msg, TemplateErrorKind::TypeMismatch, template_ref);
        proof {
            assert(msg@ == mismatch_prefix(name@, *param_type) + shown@);
            let h = template_header(template_ref@);
            let p = mismatch_prefix(name@, *param_type);
            assert(e.message@ == h + (p + shown@));
            assert(h + (p + shown@) == (h + p) + shown@);
            assert(e.message@.subrange(0, (h + p).len() as int) == h + p);
            assert(failure_matches(e, ParamFailure::TypeMismatch(name@, *param_type, value@), template_ref@));
        }
        Err(e)
    }

    /// The parameters a template runs with: each declared parameter takes
    /// the value passed for it (which must fit its type and, where the
    /// declaration lists values, be one of them) or else its default (a
    /// parameter with neither is an error); every other value passed is
    /// kept as well.  The first declared parameter refused is reported.
    pub fn resolve_parameters(&self, declared: &Vec<Parameter>, provided: &Vec<(String, YamlNode)>, template_ref: &str) -> (r: Result<Vec<(String, YamlNode)>, ParseError>)
        ensures
            match resolved_parameters(declared@, params_view(provided@)) {
                Ok(ps) => r matches Ok(v) && params_view(v@) == ps,
                Err(f) => r matches Err(e) && failure_matches(e, f, template_ref@),
            },
    {
        let ghost pv = params_view(provided@);
        let ghost decl = declared@;
        let mut resolved: Vec<(String, YamlNode)> = Vec::new();
        let mut i: usize = 0;
        proof {
            assert(decl.subrange(0, 0) == Seq::<Parameter>::empty());
            assert(params_view(resolved@) == Seq::<(Seq<char>, NodeView)>::empty());
        }
        while i < declared.len()
            invariant
                i <= decl.len(),
                decl == declared@,
                pv == params_view(provided@),
                declared_values(decl.subrange(0, i as int), pv) == Ok::<Seq<(Seq<char>, NodeView)>, ParamFailure>(
                    params_view(resolved@),
                ),
            decreases decl.len() - i,
        {
            let param = &declared[i];
            let ghost pre = decl.subrange(0, i + 1);
            proof {
                assert(pre.drop_last() == decl.subrange(0, i as int));
                assert(pre.last() == *param);
            }
            let value = match find_param(provided, param.name.as_str()) {
                Some(v) => {
                    match self.validate_parameter_type(param.name.as_str(), v, &param.param_type, template_ref) {
                        Err(e) => {
                            proof {
                                lemma_declared_error(decl, pv, i as int + 1);
                            }
                            return Err(e);
                        },
                        Ok(()) => {},
                    }
                    match &param.values {
                        Some(allowed) => {
                            let mut found = false;
                            let mut k: usize = 0;
                            while k < allowed.len() && !found
                                invariant
                                    k <= allowed@.len(),
                                    found ==> exists|j: int| 0 <= j < k && #[trigger] allowed@[j]@ == v@,
                                    !found ==> forall|j: int| 0 <= j < k ==> #[trigger] allowed@[j]@ != v@,
                                decreases allowed@.len() - k,
                            {
                                if node_eq(&allowed[k], v) {
                                    found = true;
                                }
                                k = k + 1;
                            }
                            if !found {
                                let mut msg = String::from_str("parameter '");
                                msg.append(param.name.as_str());
                                msg.append("' value not in allowed values");
                                let e = template_error(&msg, TemplateErrorKind::InvalidParameter, template_ref);
                                proof {
                                    lemma_declared_error(decl, pv, i as int + 1);
                                }
                                return Err(e);
                            }
                        },
                        None => {},
                    }
                    clone_node(v)
                },
                None => match &param.default {
                    Some(d) => clone_node(d),
                    None => {
                        let mut msg = String::from_str("required parameter '");
                        msg.append(param.name.as_str());
                        msg.append("' not provided for template '");
                        msg.append(template_ref);
                        msg.append("'");
                        let e = template_error(&msg, TemplateErrorKind::MissingParameter, template_ref);
                        proof {
                            lemma_declared_error(decl, pv, i as int + 1);
                        }
                        return Err(e);
                    },
                },
            };
            set_param(&mut resolved, param.name.clone(), value);
            i = i + 1;
        }
        proof {
            assert(decl.subrange(0, decl.len() as int) == decl);
        }
        let ghost base = params_view(resolved@);
        let mut j: usize = 0;
        while j < provided.len()
            invariant
                j <= provided@.len(),
                pv == params_view(provided@),
                params_view(resolved@) == with_extras(base, pv.subrange(0, j as int)),
            decreases provided@.len() - j,
        {
            let ghost pre = pv.subrange(0, j + 1);
            proof {
                assert(pre.drop_last() == pv.subrange(0, j as int));
                assert(pre.last() == (provided@[j as int].0@, provided@[j as int].1@));
            }
            if find_param(&resolved, provided[j].0.as_str()).is_none() {
                let ghost before = params_view(resolved@);
                resolved.push((provided[j].0.clone(), clone_node(&provided[j].1)));
                proof {
                    assert(params_view(resolved@) =~= before.push(pre.last()));
                }
            }
            j = j + 1;
        }
        proof {
            assert(pv.subrange(0, pv.len() as int) == pv);
        }
        Ok(resolved)
    }
}

proof fn lemma_declared_error(declared: Seq<Parameter>, provided: Seq<(Seq<char>, NodeView)>, j: int)
    requires
        0 <= j <= declared.len(),
        declared_values(declared.subrange(0, j), provided) is Err,
    ensures
        declared_values(declared, provided) == declared_values(declared.subrange(0, j), provided),
    decreases declared.len() - j,
{
    if j < declared.len() {
        let next = declared.subrange(0, j + 1);
        assert(next.drop_last() == declared.subrange(0, j));
        lemma_declared_error(declared, provided, j + 1);
    } else {
        assert(declared.subrange(0, j) == declared);
    }
}

// ---------------------------------------------------------------------------
// Reading a parameter list
// ---------------------------------------------------------------------------

/// The parameters that the short form `name: default` declares: one string
/// parameter per entry whose key is a string (tags looked through), with
/// the entry's value as default, in order.
pub open spec fn short_form_parameters(es: Seq<(NodeView, NodeView)>) -> Seq<(Seq<char>, NodeView)>
    decreases es.len(),
{
    if es.len() == 0 {
        Seq::empty()
    } else {
        let done = short_form_parameters(es.drop_last());
        match untagged(es.last().0) {
            NodeView::Str(name) => done.push((name, es.last().1)),
            _ => done,
        }
    }
}

/// A declared parameter as its name and default.
pub open spec fn declared_view(p: Parameter) -> (Seq<char>, NodeView) {
    (p.name@, match p.default {
        Some(d) => d@,
        None => NodeView::Null,
    })
}

/// `e` is the error "invalid parameter definition: <m>" of kind
/// `TemplateError`, located nowhere.
pub open spec fn invalid_definition(e: ParseError, m: Seq<char>) -> bool {
    &&& e.message@ == "invalid parameter definition: "@ + m
    &&& e.line == 0
    &&& e.column == 0
    &&& e.kind == ParseErrorKind::TemplateError
}

/// `r` is what reading the parameter declarations `params_val` gives: for a
/// list, each declaration as `read` gave it (or the error for the first it
/// refused); for a mapping, the short form's string parameters; else an
/// error.
pub open spec fn parameters_read<F: Fn(&YamlNode) -> Result<Parameter, String>>(
    read: F,
    params_val: YamlNode,
    r: Result<Vec<Parameter>, ParseError>,
) -> bool {
    &&& (params_val matches YamlNode::Sequence(items) ==> match r {
        Ok(ps) => ps@.len() == items@.len() && forall|i: int|
            0 <= i < items@.len() ==> call_ensures(read, (&items@[i],), Ok::<Parameter, String>(#[trigger] ps@[i])),
        Err(e) => exists|k: int, m: String|
            #![trigger call_ensures(read, (&items@[k],), Err::<Parameter, String>(m))]
            0 <= k < items@.len() && call_ensures(read, (&items@[k],), Err::<Parameter, String>(m))
                && invalid_definition(e, m@),
    })
    &&& (params_val matches YamlNode::Mapping(es) ==> (r matches Ok(ps) && ps@.map_values(|p: Parameter| declared_view(p))
        == short_form_parameters(entries_view(es@)) && forall|i: int|
        0 <= i < ps@.len() ==> (#[trigger] ps@[i]).param_type == ParameterType::String
            && ps@[i].display_name is None && ps@[i].values is None && ps@[i].default is Some))
    &&& (!(params_val is Sequence || params_val is Mapping) ==> (r matches Err(e) && e.message@
        == "parameters must be a list or mapping"@ && e.kind == ParseErrorKind::TemplateError))
}

impl TemplateEngine {
    /// Reads a template's parameter declarations: a list of declarations,
    /// each read by `read` (the first it refuses is reported), or the short
    /// form `name: default`, which declares string parameters.  Anything
    /// else is an error.
    pub fn parse_template_parameters<F: Fn(&YamlNode) -> Result<Parameter, String>>(
        &self,
        params_val: &YamlNode,
        read: &F,
    ) -> (r: Result<Vec<Parameter>, ParseError>)
        requires
            forall|n: &YamlNode| call_requires(*read, (n,)),
        ensures
            parameters_read(*read, *params_val, r),
    {
        match params_val {
            YamlNode::Sequence(items) => {
                let mut params: Vec<Parameter> = Vec::new();
                let mut i: usize = 0;
                while i < items.len()
                    invariant
                        i <= items@.len(),
                        *params_val == YamlNode::Sequence(*items),
                        params@.len() == i,
                        forall|n: &YamlNode| call_requires(*read, (n,)),
                        forall|j: int|
                            0 <= j < i ==> call_ensures(*read, (&items@[j],), Ok::<Parameter, String>(#[trigger] params@[j])),
                    decreases items@.len() - i,
                {
                    match read(&items[i]) {
                        Ok(p) => params.push(p),
                        Err(m) => {
                            let mut msg = String::from_str("invalid parameter definition: ");
                            msg.append(m.as_str());
                            let e = ParseError::new(msg.as_str(), 0, 0).with_kind(ParseErrorKind::TemplateError);
                            proof {
                                assert(params_val->Sequence_0 == *items);
                                assert(params_val->Sequence_0@ == items@);
                                assert(call_ensures(*read, (&params_val->Sequence_0@[i as int],), Err::<Parameter, String>(m)));
                                assert(invalid_definition(e, m@));
                            }
                            return Err(e);
                        },
                    }
                    i = i + 1;
                }
                Ok(params)
            },
            YamlNode::Mapping(es) => {
                let ghost ev = entries_view(es@);
                proof {
                    crate::expansion::lemma_entries_view(es@);
                }
                let mut params: Vec<Parameter> = Vec::new();
                let mut i: usize = 0;
                while i < es.len()
                    invariant
                        i <= es@.len(),
                        ev == entries_view(es@),
                        ev.len() == es@.len(),
                        forall|j: int| 0 <= j < es@.len() ==> #[trigger] ev[j] == (es@[j].0@, es@[j].1@),
                        params@.map_values(|p: Parameter| declared_view(p)) == short_form_parameters(
                            ev.subrange(0, i as int),
                        ),
                        forall|j: int|
                            0 <= j < params@.len() ==> (#[trigger] params@[j]).param_type == ParameterType::String
                                && params@[j].display_name is None && params@[j].values is None
                                && params@[j].default is Some,
                    decreases es@.len() - i,
                {
                    let ghost pre = ev.subrange(0, i + 1);
                    proof {
                        assert(pre.drop_last() == ev.subrange(0, i as int));
                        assert(pre.last() == ev[i as int]);
                    }
                    let key = untag(&es[i].0);
                    match key {
                        YamlNode::String(name) => {
                            proof {
                                assert(key@ == NodeView::Str(name@));
                            }
                            let ghost before = params@;
                            params.push(
                                Parameter {
                                    name: name.clone(),
                                    display_name: None,
                                    param_type: ParameterType::String,
                                    default: Some(clone_node(&es[i].1)),
                                    values: None,
                                },
                            );
                            proof {
                                assert(params@.map_values(|p: Parameter| declared_view(p)) =~= before.map_values(
                                    |p: Parameter| declared_view(p),
                                ).push(declared_view(params@.last())));
                            }
                        },
                        _ => {
                            proof {
                                assert(!(key@ is Str)) by {
                                    match *key {
                                        YamlNode::Null => {},
                                        YamlNode::Bool(_) => {},
                                        YamlNode::Number(_) => {},
                                        YamlNode::String(_) => {},
                                        YamlNode::Sequence(_) => {},
                                        YamlNode::Mapping(_) => {},
                                        YamlNode::Tagged(_, _) => {},
                                    }
                                }
                            }
                        },
                    }
                    i = i + 1;
                }
                proof {
                    assert(ev.subrange(0, ev.len() as int) == ev);
                }
                Ok(params)
            },
            _ => Err(ParseError::new("parameters must be a list or mapping", 0, 0).with_kind(ParseErrorKind::TemplateError)),
        }
    }
}

// ---------------------------------------------------------------------------
// What a template sees
// ---------------------------------------------------------------------------

/// No name occurs twice.
pub open spec fn names_unique(ps: Seq<(Seq<char>, NodeView)>) -> bool {
    forall|i: int, j: int| 0 <= i < j < ps.len() ==> ps[i].0 != ps[j].0
}

/// The last declaration of parameter `n`.
pub open spec fn last_declared(declared: Seq<Parameter>, n: Seq<char>) -> Option<Parameter>
    decreases declared.len(),
{
    if declared.len() == 0 {
        None
    } else if declared.last().name@ == n {
        Some(declared.last())
    } else {
        last_declared(declared.drop_last(), n)
    }
}

proof fn lemma_param_of_unique(ps: Seq<(Seq<char>, NodeView)>, key: Seq<char>)
    requires
        names_unique(ps),
    ensures
        forall|i: int| 0 <= i < ps.len() && ps[i].0 == key ==> param_of(ps, key) == Some(ps[i].1),
        (forall|i: int| 0 <= i < ps.len() ==> ps[i].0 != key) ==> param_of(ps, key) is None,
    decreases ps.len(),
{
    if ps.len() > 0 {
        let d = ps.drop_last();
        assert(names_unique(d)) by {
            assert forall|i: int, j: int| 0 <= i < j < d.len() implies d[i].0 != d[j].0 by {
                assert(d[i] == ps[i] && d[j] == ps[j]);
            }
        }
        lemma_param_of_unique(d, key);
        assert forall|i: int| 0 <= i < d.len() implies d[i] == ps[i] by {}
    }
}

proof fn lemma_param_of_some(ps: Seq<(Seq<char>, NodeView)>, key: Seq<char>)
    ensures
        param_of(ps, key) is Some ==> exists|i: int| 0 <= i < ps.len() && ps[i].0 == key,
    decreases ps.len(),
{
    if ps.len() > 0 {
        lemma_param_of_some(ps.drop_last(), key);
        if param_of(ps.drop_last(), key) is Some && ps.last().0 != key {
            let i = choose|i: int| 0 <= i < ps.len() - 1 && ps.drop_last()[i].0 == key;
            assert(ps[i] == ps.drop_last()[i]);
        }
    }
}

proof fn lemma_param_insert(ps: Seq<(Seq<char>, NodeView)>, n: Seq<char>, v: NodeView, key: Seq<char>)
    requires
        names_unique(ps),
    ensures
        names_unique(param_insert(ps, n, v)),
        param_of(param_insert(ps, n, v), key) == if key == n {
            Some(v)
        } else {
            param_of(ps, key)
        },
{
    lemma_param_index(ps, n);
    let q = param_insert(ps, n, v);
    match param_index(ps, n) {
        Some(i) => {
            assert(q == ps.update(i, (n, v)));
        },
        None => {
            assert(q == ps.push((n, v)));
        },
    }
    assert(names_unique(q));
    lemma_param_of_unique(ps, key);
    lemma_param_of_unique(q, key);
    if key == n {
        match param_index(ps, n) {
            Some(i) => assert(q[i].0 == key),
            None => assert(q[q.len() - 1].0 == key),
        }
    } else {
        if exists|j: int| 0 <= j < ps.len() && ps[j].0 == key {
            let j = choose|j: int| 0 <= j < ps.len() && ps[j].0 == key;
            assert(q[j] == ps[j]);
        } else {
            assert forall|j: int| 0 <= j < q.len() implies q[j].0 != key by {
                if j < ps.len() {
                    assert(q[j].0 == ps[j].0 || q[j].0 == n);
                }
            }
        }
    }
}

proof fn lemma_declared_values(declared: Seq<Parameter>, provided: Seq<(Seq<char>, NodeView)>, key: Seq<char>)
    requires
        declared_values(declared, provided) is Ok,
    ensures
        names_unique(declared_values(declared, provided)->Ok_0),
        param_of(declared_values(declared, provided)->Ok_0, key) == match last_declared(declared, key) {
            Some(p) => Some(declared_value(p, provided)->Ok_0),
            None => None::<NodeView>,
        },
        last_declared(declared, key) matches Some(p) ==> declared_value(p, provided) is Ok,
    decreases declared.len(),
{
    if declared.len() > 0 {
        let d = declared.drop_last();
        lemma_declared_values(d, provided, key);
        let acc = declared_values(d, provided)->Ok_0;
        lemma_param_insert(acc, declared.last().name@, declared_value(declared.last(), provided)->Ok_0, key);
    }
}

proof fn lemma_with_extras(acc: Seq<(Seq<char>, NodeView)>, provided: Seq<(Seq<char>, NodeView)>, key: Seq<char>)
    requires
        names_unique(acc),
        names_unique(provided),
    ensures
        names_unique(with_extras(acc, provided)),
        param_of(with_extras(acc, provided), key) == match param_of(acc, key) {
            Some(v) => Some(v),
            None => param_of(provided, key),
        },
    decreases provided.len(),
{
    if provided.len() > 0 {
        let d = provided.drop_last();
        assert(names_unique(d)) by {
            assert forall|i: int, j: int| 0 <= i < j < d.len() implies d[i].0 != d[j].0 by {
                assert(d[i] == provided[i] && d[j] == provided[j]);
            }
        }
        lemma_with_extras(acc, d, key);
        let done = with_extras(acc, d);
        let last = provided.last();
        lemma_with_extras(acc, d, last.0);
        lemma_param_of_unique(d, last.0);
        assert forall|j: int| 0 <= j < d.len() implies d[j].0 != last.0 by {
            assert(d[j] == provided[j]);
        }
        if param_of(done, last.0) is None {
            let q = done.push(last);
            lemma_param_of_some(done, last.0);
            assert(forall|j: int| 0 <= j < done.len() ==> done[j].0 != last.0) by {
                lemma_param_of_unique(done, last.0);
                if exists|j: int| 0 <= j < done.len() && done[j].0 == last.0 {
                    let j = choose|j: int| 0 <= j < done.len() && done[j].0 == last.0;
                    assert(param_of(done, last.0) == Some(done[j].1));
                }
            }
            assert(names_unique(q));
            assert(q.drop_last() == done);
        }
    }
}

/// Resolving parameters fails exactly when some declared parameter cannot
/// get a value (passed but of the wrong type or not among the allowed
/// values, or neither passed nor defaulted), and then with the failure of
/// the first such parameter in declaration order.
pub proof fn lemma_resolution_fails_first(declared: Seq<Parameter>, provided: Seq<(Seq<char>, NodeView)>)
    ensures
        resolved_parameters(declared, provided) is Err <==> exists|i: int|
            0 <= i < declared.len() && #[trigger] declared_value(declared[i], provided) is Err,
        resolved_parameters(declared, provided) matches Err(f) ==> exists|i: int|
            0 <= i < declared.len() && declared_value(declared[i], provided) == Err::<NodeView, ParamFailure>(f)
                && forall|j: int| 0 <= j < i ==> #[trigger] declared_value(declared[j], provided) is Ok,
    decreases declared.len(),
{
    if declared.len() > 0 {
        let d = declared.drop_last();
        lemma_resolution_fails_first(d, provided);
        assert forall|j: int| 0 <= j < d.len() implies d[j] == declared[j] by {}
        let li = declared.len() - 1;
        assert(declared[li] == declared.last());
        if declared_values(d, provided) is Ok {
            assert forall|j: int| 0 <= j < d.len() implies #[trigger] declared_value(declared[j], provided) is Ok by {
                if declared_value(declared[j], provided) is Err {
                    assert(declared_value(d[j], provided) is Err);
                }
            }
        } else {
            let f = declared_values(d, provided)->Err_0;
            let i = choose|i: int|
                0 <= i < d.len() && declared_value(d[i], provided) == Err::<NodeView, ParamFailure>(f) && forall|
                    j: int,
                | 0 <= j < i ==> #[trigger] declared_value(d[j], provided) is Ok;
            assert(declared_value(declared[i], provided) == Err::<NodeView, ParamFailure>(f));
            assert forall|j: int| 0 <= j < i implies #[trigger] declared_value(declared[j], provided) is Ok by {
                assert(declared_value(d[j], provided) is Ok);
            }
        }
    }
}

/// With the values passed named once each, a template sees for each name
/// the value passed for it; for a declared parameter not passed, its
/// default; for any other name, nothing.
pub proof fn lemma_template_sees_passed_or_default(
    declared: Seq<Parameter>,
    provided: Seq<(Seq<char>, NodeView)>,
    key: Seq<char>,
)
    requires
        names_unique(provided),
        resolved_parameters(declared, provided) is Ok,
    ensures
        param_of(resolved_parameters(declared, provided)->Ok_0, key) == match param_of(provided, key) {
            Some(v) => Some(v),
            None => match last_declared(declared, key) {
                Some(p) => Some(p.default->0@),
                None => None::<NodeView>,
            },
        },
{
    lemma_declared_values(declared, provided, key);
    let acc = declared_values(declared, provided)->Ok_0;
    lemma_with_extras(acc, provided, key);
    match last_declared(declared, key) {
        Some(p) => {
            lemma_last_declared_name(declared, key);
        },
        None => {},
    }
}

proof fn lemma_last_declared_name(declared: Seq<Parameter>, key: Seq<char>)
    ensures
        last_declared(declared, key) matches Some(p) ==> p.name@ == key,
    decreases declared.len(),
{
    if declared.len() > 0 {
        lemma_last_declared_name(declared.drop_last(), key);
    }
}

// ---------------------------------------------------------------------------
// What a template file holds
// ---------------------------------------------------------------------------

/// The raw content of a template file, before its directives are expanded.
#[derive(Debug)]
pub enum RawTemplateContent {
    Steps(YamlNode),
    Jobs(YamlNode),
    Stages(YamlNode),
    Variables(YamlNode),
    /// A whole pipeline (for `extends`), as the file's text.
    Pipeline(String),
}

/// A template file with its declared parameters, before its directives are
/// expanded.
#[derive(Debug)]
pub struct RawTemplateFile {
    pub parameters: Vec<Parameter>,
    pub content: RawTemplateContent,
}

/// Raw template content as views.
pub enum RawContentView {
    Steps(NodeView),
    Jobs(NodeView),
    Stages(NodeView),
    Variables(NodeView),
    Pipeline(Seq<char>),
}

impl RawTemplateContent {
    pub open spec fn view(self) -> RawContentView {
        match self {
            RawTemplateContent::Steps(n) => RawContentView::Steps(n@),
            RawTemplateContent::Jobs(n) => RawContentView::Jobs(n@),
            RawTemplateContent::Stages(n) => RawContentView::Stages(n@),
            RawTemplateContent::Variables(n) => RawContentView::Variables(n@),
            RawTemplateContent::Pipeline(t) => RawContentView::Pipeline(t@),
        }
    }
}

/// The value of the first entry whose key is the string `key`.
pub open spec fn entry_value(es: Seq<(YamlNode, YamlNode)>, key: Seq<char>) -> Option<YamlNode>
    decreases es.len(),
{
    if es.len() == 0 {
        None
    } else {
        match entry_value(es.drop_last(), key) {
            Some(v) => Some(v),
            None => if es.last().0@ == NodeView::Str(key) {
                Some(es.last().1)
            } else {
                None
            },
        }
    }
}

/// What a template file holds, by the first of its `steps`, `jobs`,
/// `stages` and `variables` keys that it has; a whole pipeline otherwise.
pub open spec fn raw_content(es: Seq<(YamlNode, YamlNode)>, text: Seq<char>) -> RawContentView {
    if entry_value(es, "steps"@) is Some {
        RawContentView::Steps(entry_value(es, "steps"@)->0@)
    } else if entry_value(es, "jobs"@) is Some {
        RawContentView::Jobs(entry_value(es, "jobs"@)->0@)
    } else if entry_value(es, "stages"@) is Some {
        RawContentView::Stages(entry_value(es, "stages"@)->0@)
    } else if entry_value(es, "variables"@) is Some {
        RawContentView::Variables(entry_value(es, "variables"@)->0@)
    } else {
        RawContentView::Pipeline(text)
    }
}

/// "template '<path>' must be a YAML mapping".
pub open spec fn not_mapping_message(path: Seq<char>) -> Seq<char> {
    "template '"@ + path + "' must be a YAML mapping"@
}

fn mapping_get<'a>(es: &'a Vec<(YamlNode, YamlNode)>, key: &str) -> (r: Option<&'a YamlNode>)
    ensures
        match entry_value(es@, key@) {
            Some(v) => r matches Some(x) && *x == v,
            None => r is None,
        },
{
    let mut i: usize = 0;
    while i < es.len()
        invariant
            i <= es@.len(),
            entry_value(es@.subrange(0, i as int), key@) is None,
        decreases es@.len() - i,
    {
        let ghost pre = es@.subrange(0, i + 1);
        proof {
            assert(pre.drop_last() == es@.subrange(0, i as int));
            assert(pre.last() == es@[i as int]);
        }
        let hit = match &es[i].0 {
            YamlNode::String(t) => str_eq(t.as_str(), key),
            _ => false,
        };
        proof {
            match es@[i as int].0 {
                YamlNode::String(t) => assert(es@[i as int].0@ == NodeView::Str(t@)),
                _ => {},
            }
        }
        if hit {
            proof {
                lemma_entry_value_prefix(es@, key@, i as int + 1);
            }
            return Some(&es[i].1);
        }
        i = i + 1;
    }
    proof {
        assert(es@.subrange(0, es@.len() as int) == es@);
    }
    None
}

proof fn lemma_entry_value_prefix(es: Seq<(YamlNode, YamlNode)>, key: Seq<char>, j: int)
    requires
        0 <= j <= es.len(),
        entry_value(es.subrange(0, j), key) is Some,
    ensures
        entry_value(es, key) == entry_value(es.subrange(0, j), key),
    decreases es.len() - j,
{
    if j < es.len() {
        let next = es.subrange(0, j + 1);
        assert(next.drop_last() == es.subrange(0, j));
        lemma_entry_value_prefix(es, key, j + 1);
    } else {
        assert(es.subrange(0, j) == es);
    }
}

impl TemplateEngine {
    /// Reads a template file's top level: it must be a mapping; its
    /// `parameters` entry, if any, declares the parameters (list entries are
    /// read by `read`); the content is its `steps`, `jobs`, `stages` or
    /// `variables` entry (the first found, in that order), else the whole
    /// file as a pipeline.
    pub fn parse_raw_template_content<F: Fn(&YamlNode) -> Result<Parameter, String>>(
        &self,
        template_ref: &str,
        content: &str,
        yaml: &YamlNode,
        read: &F,
    ) -> (r: Result<RawTemplateFile, ParseError>)
        requires
            forall|n: &YamlNode| call_requires(*read, (n,)),
        ensures
            match untag_node(*yaml) {
                YamlNode::Mapping(es) => match entry_value(es@, "parameters"@) {
                    Some(pv) => exists|pr: Result<Vec<Parameter>, ParseError>|
                        #[trigger] parameters_read(*read, pv, pr) && match pr {
                            Err(e) => r matches Err(x) && x == e,
                            Ok(ps) => r matches Ok(f) && f.parameters == ps && f.content.view() == raw_content(
                                es@,
                                content@,
                            ),
                        },
                    None => r matches Ok(f) && f.parameters@.len() == 0 && f.content.view() == raw_content(
                        es@,
                        content@,
                    ),
                },
                _ => r matches Err(e) && template_failure(e, template_ref@, not_mapping_message(template_ref@)),
            },
    {
        let top = untag(yaml);
        let es = match top {
            YamlNode::Mapping(es) => es,
            _ => {
                let mut msg = String::from_str("template '");
                msg.append(template_ref);
                msg.append("' must be a YAML mapping");
                return Err(template_error(&msg, TemplateErrorKind::ParseError, template_ref));
            },
        };
        let parameters = match mapping_get(es, "parameters") {
            Some(pv) => {
                let pr = self.parse_template_parameters(pv, read);
                match pr {
                    Ok(ps) => ps,
                    Err(e) => return Err(e),
                }
            },
            None => Vec::new(),
        };
        let content = if let Some(v) = mapping_get(es, "steps") {
            RawTemplateContent::Steps(clone_node(v))
        } else if let Some(v) = mapping_get(es, "jobs") {
            RawTemplateContent::Jobs(clone_node(v))
        } else if let Some(v) = mapping_get(es, "stages") {
            RawTemplateContent::Stages(clone_node(v))
        } else if let Some(v) = mapping_get(es, "variables") {
            RawTemplateContent::Variables(clone_node(v))
        } else {
            RawTemplateContent::Pipeline(String::from_str(content))
        };
        Ok(RawTemplateFile { parameters, content })
    }
}

/// The content of a template with its directives expanded and its
/// compile-time expressions substituted, as `walk_spec` gives it; a whole
/// pipeline is kept as text.
pub open spec fn expanded_content<
    S,
    C: Fn(&S, &String) -> Result<bool, String>,
    E: Fn(&S, &String, &String) -> Result<Result<Vec<S>, String>, String>,
    T: Fn(&S, &String) -> Result<String, ParseError>,
>(ev: Evaluators<C, E, T>, s: S, raw: RawTemplateContent, r: Result<RawTemplateContent, ParseError>) -> bool {
    match raw {
        RawTemplateContent::Steps(n) => match r {
            Ok(RawTemplateContent::Steps(x)) => node_result_matches(Ok(x), walk_spec(ev, s, n@)),
            Ok(_) => false,
            Err(e) => node_result_matches(Err(e), walk_spec(ev, s, n@)),
        },
        RawTemplateContent::Jobs(n) => match r {
            Ok(RawTemplateContent::Jobs(x)) => node_result_matches(Ok(x), walk_spec(ev, s, n@)),
            Ok(_) => false,
            Err(e) => node_result_matches(Err(e), walk_spec(ev, s, n@)),
        },
        RawTemplateContent::Stages(n) => match r {
            Ok(RawTemplateContent::Stages(x)) => node_result_matches(Ok(x), walk_spec(ev, s, n@)),
            Ok(_) => false,
            Err(e) => node_result_matches(Err(e), walk_spec(ev, s, n@)),
        },
        RawTemplateContent::Variables(n) => match r {
            Ok(RawTemplateContent::Variables(x)) => node_result_matches(Ok(x), walk_spec(ev, s, n@)),
            Ok(_) => false,
            Err(e) => node_result_matches(Err(e), walk_spec(ev, s, n@)),
        },
        RawTemplateContent::Pipeline(t) => r matches Ok(RawTemplateContent::Pipeline(x)) && x@ == t@,
    }
}

impl TemplateEngine {
    /// Expands the directives of a template's content in scope `scope` (the
    /// template's parameters) and substitutes its compile-time expressions;
    /// a whole pipeline is left as text.  Reading the result into steps,
    /// jobs, stages, variables or a pipeline is the caller's.
    pub fn resolve_raw_template<
        S,
        C: Fn(&S, &String) -> Result<bool, String>,
        E: Fn(&S, &String, &String) -> Result<Result<Vec<S>, String>, String>,
        T: Fn(&S, &String) -> Result<String, ParseError>,
    >(&self, raw: &RawTemplateFile, scope: &S, ev: &Evaluators<C, E, T>) -> (r: Result<RawTemplateContent, ParseError>)
        requires
            evaluators_ready(*ev),
        ensures
            evaluators_deterministic(*ev) ==> expanded_content(*ev, *scope, raw.content, r),
            !evaluators_deterministic(*ev) ==> (raw.content is Pipeline ==> expanded_content(*ev, *scope, raw.content, r)),
    {
        match &raw.content {
            RawTemplateContent::Steps(n) => match self.process_template_expressions(n, scope, ev) {
                Ok(x) => Ok(RawTemplateContent::Steps(x)),
                Err(e) => Err(e),
            },
            RawTemplateContent::Jobs(n) => match self.process_template_expressions(n, scope, ev) {
                Ok(x) => Ok(RawTemplateContent::Jobs(x)),
                Err(e) => Err(e),
            },
            RawTemplateContent::Stages(n) => match self.process_template_expressions(n, scope, ev) {
                Ok(x) => Ok(RawTemplateContent::Stages(x)),
                Err(e) => Err(e),
            },
            RawTemplateContent::Variables(n) => match self.process_template_expressions(n, scope, ev) {
                Ok(x) => Ok(RawTemplateContent::Variables(x)),
                Err(e) => Err(e),
            },
            RawTemplateContent::Pipeline(t) => Ok(RawTemplateContent::Pipeline(t.clone())),
        }
    }
}

} // verus!
