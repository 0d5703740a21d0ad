//! The string built-ins of the expression language (`contains`,
//! `startsWith`, `endsWith`, `format`, `replace`, `split`, `join`, `lower`,
//! `trim`), on arguments already turned into text.

use vstd::prelude::*;
use crate::expr_context::BuiltinFunctions;
use crate::text::{
    chars_of, contains_seq, decimal, ends_with, find, find_exec, join, join_strings, occurs_at, occurs_at_exec,
    lower_text, slice_chars, split, split_str, starts_with, str_contains, str_ends_with,
    str_starts_with, string_from, to_lowercase, trim, trim_str, usize_to_decimal,
};

verus! {

broadcast use vstd::string::group_string_axioms;

/// `s` with every occurrence of `from` replaced by `to`, left to right and
/// without overlap, as `str::replace` does; an empty `from` matches before
/// each character and at the end.
pub open spec fn replace_all(s: Seq<char>, from: Seq<char>, to: Seq<char>) -> Seq<char>
    decreases s.len(),
{
    if from.len() == 0 {
        if s.len() == 0 {
            to
        } else {
            to + seq![s[0]] + replace_all(s.drop_first(), from, to)
        }
    } else {
        match find(s, from) {
            Some(i) => if 0 <= i && i + from.len() <= s.len() {
                s.subrange(0, i) + to + replace_all(s.subrange(i + from.len(), s.len() as int), from, to)
            } else {
                s
            },
            None => s,
        }
    }
}

/// The placeholder `{i}` of `format`.
pub open spec fn placeholder(i: nat) -> Seq<char> {
    seq!['{'] + decimal(i) + seq!['}']
}

/// The first argument index `i`, from `from` on and below `n`, whose
/// placeholder `{i}` stands at `pos` of `t`.
pub open spec fn placeholder_at(t: Seq<char>, pos: int, n: nat, from: nat) -> Option<nat>
    decreases n - from,
{
    if from >= n {
        None
    } else if occurs_at(t, placeholder(from), pos) {
        Some(from)
    } else {
        placeholder_at(t, pos, n, (from + 1) as nat)
    }
}

/// The template from index `pos` on, read once from left to right: each
/// placeholder `{i}` with an argument `i` becomes that argument, every other
/// character stays.  Text put in for a placeholder is not read again.
pub open spec fn format_from(t: Seq<char>, args: Seq<Seq<char>>, pos: int) -> Seq<char>
    decreases t.len() - pos,
{
    if pos < 0 || pos >= t.len() {
        Seq::empty()
    } else {
        match placeholder_at(t, pos, args.len(), 0) {
            Some(i) => if pos + placeholder(i).len() <= t.len() {
                args[i as int] + format_from(t, args, pos + placeholder(i).len())
            } else {
                Seq::empty()
            },
            None => seq![t[pos]] + format_from(t, args, pos + 1),
        }
    }
}

/// `template` with its placeholders `{0}`, `{1}`, ... filled from the
/// arguments, in one pass over the template.
pub open spec fn format_text(template: Seq<char>, args: Seq<Seq<char>>) -> Seq<char> {
    format_from(template, args, 0)
}

proof fn lemma_placeholder_at(t: Seq<char>, pos: int, n: nat, from: nat)
    ensures
        placeholder_at(t, pos, n, from) matches Some(i) ==> from <= i < n && occurs_at(t, placeholder(i), pos),
    decreases n - from,
{
    if from < n && !occurs_at(t, placeholder(from), pos) {
        lemma_placeholder_at(t, pos, n, (from + 1) as nat);
    }
}

/// The pieces of `s` that `str::split` gives for `sep`: with an empty
/// separator, an empty piece, each character, and an empty piece.
pub open spec fn split_text(s: Seq<char>, sep: Seq<char>) -> Seq<Seq<char>> {
    if sep.len() == 0 {
        seq![Seq::<char>::empty()] + s.map_values(|c: char| seq![c]) + seq![Seq::<char>::empty()]
    } else {
        split(s, sep)
    }
}

fn replace_chars(cs: &Vec<char>, from: &Vec<char>, to: &str) -> (r: String)
    ensures
        r@ == replace_all(cs@, from@, to@),
    decreases cs@.len(),
{
    let n = cs.len();
    if from.len() == 0 {
        let mut r = String::from_str(to);
        if n == 0 {
            return r;
        }
        r.push(cs[0]);
        let rest = slice_chars(cs.as_slice(), 1, n);
        assert(rest@ == cs@.drop_first());
        let tail = replace_chars(&rest, from, to);
        r.append(tail.as_str());
        r
    } else {
        match find_exec(cs.as_slice(), from.as_slice()) {
            Some(i) => {
                let prefix = slice_chars(cs.as_slice(), 0, i);
                let rest = slice_chars(cs.as_slice(), i + from.len(), n);
                let mut r = string_from(prefix.as_slice());
                r.append(to);
                let tail = replace_chars(&rest, from, to);
                r.append(tail.as_str());
                r
            },
            None => string_from(cs.as_slice()),
        }
    }
}

/// `s` with every `from` replaced by `to`, as `str::replace` gives it.
pub fn replace_text(s: &str, from: &str, to: &str) -> (r: String)
    ensures
        r@ == replace_all(s@, from@, to@),
{
    let cs = chars_of(s);
    let fs = chars_of(from);
    replace_chars(&cs, &fs, to)
}

/// `{i}` as a string.
fn placeholder_of(i: usize) -> (r: String)
    ensures
        r@ == placeholder(i as nat),
{
    let mut r = String::from_str("{");
    proof {
        reveal_strlit("{");
    }
    let d = usize_to_decimal(i);
    r.append(d.as_str());
    r.push('}');
    r
}

impl BuiltinFunctions {
    /// `contains` on two texts: whether the first holds the second, both in
    /// lower case.
    pub fn contains_text(&self, haystack: &str, needle: &str) -> (b: bool)
        ensures
            b == contains_seq(lower_text(haystack@), lower_text(needle@)),
    {
        let h = to_lowercase(haystack);
        let n = to_lowercase(needle);
        str_contains(h.as_str(), n.as_str())
    }

    /// `startsWith`: whether the first text begins with the second, both in
    /// lower case.
    pub fn starts_with_text(&self, s: &str, prefix: &str) -> (b: bool)
        ensures
            b == starts_with(lower_text(s@), lower_text(prefix@)),
    {
        let a = to_lowercase(s);
        let p = to_lowercase(prefix);
        str_starts_with(a.as_str(), p.as_str())
    }

    /// `endsWith`: whether the first text ends with the second, both in
    /// lower case.
    pub fn ends_with_text(&self, s: &str, suffix: &str) -> (b: bool)
        ensures
            b == ends_with(lower_text(s@), lower_text(suffix@)),
    {
        let a = to_lowercase(s);
        let p = to_lowercase(suffix);
        str_ends_with(a.as_str(), p.as_str())
    }

    /// `format`: the template with its placeholders `{0}`, `{1}`, ... filled
    /// from the arguments, in one pass from left to right.
    pub fn format_text(&self, template: &str, args: &Vec<String>) -> (r: String)
        ensures
            r@ == format_text(template@, args@.map_values(|a: String| a@)),
    {
        let ghost av = args@.map_values(|a: String| a@);
        let t = chars_of(template);
        let n = t.len();
        let mut out = String::new();
        let mut pos: usize = 0;
        while pos < n
            invariant
                pos <= n,
                n == t@.len(),
                t@ == template@,
                av == args@.map_values(|a: String| a@),
                out@ + format_from(t@, av, pos as int) == format_from(t@, av, 0),
            decreases n - pos,
        {
            let mut found: Option<(usize, usize)> = None;
            let mut i: usize = 0;
            while i < args.len()
                invariant_except_break
                    found is None,
                    placeholder_at(t@, pos as int, av.len(), 0) == placeholder_at(t@, pos as int, av.len(), i as nat),
                invariant
                    i <= args@.len(),
                    pos < n,
                    n == t@.len(),
                    av == args@.map_values(|a: String| a@),
                ensures
                    found is None ==> placeholder_at(t@, pos as int, av.len(), 0) is None,
                    found is Some ==> placeholder_at(t@, pos as int, av.len(), 0) == Some((found->0).0 as nat),
                    found is Some ==> (found->0).1 == placeholder((found->0).0 as nat).len(),
                    found is Some ==> (found->0).0 < av.len(),
                decreases args@.len() - i,
            {
                let p = placeholder_of(i);
                let pc = chars_of(p.as_str());
                if occurs_at_exec(t.as_slice(), pc.as_slice(), pos) {
                    proof {
                        assert(pc@ == placeholder(i as nat));
                        assert(placeholder_at(t@, pos as int, av.len(), i as nat) == Some(i as nat));
                    }
                    found = Some((i, pc.len()));
                    break;
                }
                i = i + 1;
            }
            let ghost before = out@;
            match found {
                Some((k, len)) => {
                    proof {
                        lemma_placeholder_at(t@, pos as int, av.len(), 0);
                        assert(av[k as int] == args@[k as int]@);
                    }
                    out.append(args[k].as_str());
                    proof {
                        assert(before + format_from(t@, av, pos as int) == before + (av[k as int] + format_from(
                            t@,
                            av,
                            pos + len,
                        )));
                        assert(before + (av[k as int] + format_from(t@, av, pos + len)) =~= out@ + format_from(
                            t@,
                            av,
                            pos + len,
                        ));
                    }
                    pos = pos + len;
                },
                None => {
                    out.push(t[pos]);
                    proof {
                        assert(before + (seq![t@[pos as int]] + format_from(t@, av, pos + 1)) =~= out@
                            + format_from(t@, av, pos + 1));
                    }
                    pos = pos + 1;
                },
            }
        }
        proof {
            assert(out@ + Seq::<char>::empty() =~= out@);
        }
        out
    }

    /// `replace`: every occurrence of `from` replaced by `to`.
    pub fn replace(&self, s: &str, from: &str, to: &str) -> (r: String)
        ensures
            r@ == replace_all(s@, from@, to@),
    {
        replace_text(s, from, to)
    }

    /// `split`: the pieces of the text between the separators.
    pub fn split_text(&self, s: &str, sep: &str) -> (r: Vec<String>)
        ensures
            r@.map_values(|p: String| p@) == split_text(s@, sep@),
    {
        if sep.unicode_len() > 0 {
            split_str(s, sep)
        } else {
            let cs = chars_of(s);
            let mut r: Vec<String> = Vec::new();
            r.push(String::new());
            let mut i: usize = 0;
            while i < cs.len()
                invariant
                    i <= cs@.len(),
                    cs@ == s@,
                    r@.map_values(|p: String| p@) == seq![Seq::<char>::empty()] + cs@.subrange(0, i as int).map_values(
                        |c: char| seq![c],
                    ),
                decreases cs@.len() - i,
            {
                let mut piece = String::new();
                piece.push(cs[i]);
                let ghost before = r@.map_values(|p: String| p@);
                r.push(piece);
                proof {
                    assert(r@.map_values(|p: String| p@) =~= before.push(seq![cs@[i as int]]));
                    assert(cs@.subrange(0, i + 1).map_values(|c: char| seq![c]) =~= cs@.subrange(
                        0,
                        i as int,
                    ).map_values(|c: char| seq![c]).push(seq![cs@[i as int]]));
                }
                i = i + 1;
            }
            let ghost before = r@.map_values(|p: String| p@);
            r.push(String::new());
            proof {
                assert(r@.map_values(|p: String| p@) =~= before.push(Seq::<char>::empty()));
                assert(cs@.subrange(0, cs@.len() as int) =~= cs@);
            }
            r
        }
    }

    /// `join`: the texts with the separator between them.
    pub fn join_texts(&self, items: &Vec<String>, sep: &str) -> (r: String)
        ensures
            r@ == join(items@.map_values(|p: String| p@), sep@),
    {
        join_strings(items, sep)
    }

    /// `lower`: the text in lower case.
    pub fn lower(&self, s: &str) -> (r: String)
        ensures
            r@ == lower_text(s@),
    {
        to_lowercase(s)
    }

    /// `trim`: the text without surrounding whitespace.
    pub fn trim(&self, s: &str) -> (r: String)
        ensures
            r@ == trim(s@),
    {
        trim_str(s)
    }
}

} // verus!
