//! Compile-time substitution in template text: each `${{ expression }}` is
//! replaced by the text of its value, which the caller's evaluator gives;
//! macros `$(name)` and runtime expressions `$[ expression ]` are written
//! back for later.

use vstd::prelude::*;
use crate::lexer::{extract_expressions, lemma_extraction_finishes, lemma_pieces_without_dollar, pieces_from, ExpressionType, ExpressionTypeView};
use crate::parse_error::ParseError;
use crate::template::{template_error_text, TemplateError, TemplateErrorKind};

verus! {

broadcast use vstd::string::group_string_axioms;

/// The compile-time expressions among the pieces, in order.
pub open spec fn compile_exprs(pieces: Seq<ExpressionTypeView>) -> Seq<Seq<char>>
    decreases pieces.len(),
{
    if pieces.len() == 0 {
        Seq::empty()
    } else {
        let r = compile_exprs(pieces.drop_last());
        match pieces.last() {
            ExpressionTypeView::CompileTime(e) => r.push(e),
            _ => r,
        }
    }
}

/// The text of the pieces with the `k`-th compile-time expression replaced
/// by `values[k]`, macros written as `$(name)` and runtime expressions as
/// `$[ expression ]`.
pub open spec fn assemble(pieces: Seq<ExpressionTypeView>, values: Seq<Seq<char>>) -> Seq<char>
    decreases pieces.len(),
{
    if pieces.len() == 0 {
        Seq::empty()
    } else {
        let k = compile_exprs(pieces.drop_last()).len() as int;
        assemble(pieces.drop_last(), values) + match pieces.last() {
            ExpressionTypeView::Text(s) => s,
            ExpressionTypeView::CompileTime(_) => values[k],
            ExpressionTypeView::Macro(n) => "$("@ + n + ")"@,
            ExpressionTypeView::Runtime(e) => "$[ "@ + e + " ]"@,
        }
    }
}

/// "expression error in '${{ expr }}': msg".
pub open spec fn expression_error_text(expr: Seq<char>, msg: Seq<char>) -> Seq<char> {
    "expression error in '${{ "@ + expr + " }}': "@ + msg
}

/// The text of a template error about expression `expr`.
pub open spec fn template_expression_error(expr: Seq<char>, msg: Seq<char>) -> Seq<char> {
    "template error: "@ + expression_error_text(expr, msg)
}

/// `eval` gave `out` for the expression `arg` (by its text).
pub open spec fn evaluated<F: Fn(&String) -> Result<String, String>>(
    eval: F,
    arg: Seq<char>,
    out: Result<Seq<char>, Seq<char>>,
) -> bool {
    exists|a: String, o: Result<String, String>|
        a@ == arg && call_ensures(eval, (&a,), o) && match (o, out) {
            (Ok(x), Ok(y)) => x@ == y,
            (Err(x), Err(y)) => x@ == y,
            _ => false,
        }
}

/// `eval` gave some value for the expression `arg`.
pub open spec fn evaluates_ok<F: Fn(&String) -> Result<String, String>>(eval: F, arg: Seq<char>) -> bool {
    exists|v: Seq<char>| evaluated(eval, arg, Ok(v))
}

/// Replaces each `${{ expression }}` of `text` by what `eval` gives for it,
/// in order, keeping macros and runtime expressions; the first evaluation
/// error stops it, reported with its expression.
pub fn substitute_compile_time<F: Fn(&String) -> Result<String, String>>(text: &str, eval: &F) -> (r: Result<
    String,
    ParseError,
>)
    requires
        text@.len() < usize::MAX,
        forall|a: &String| call_requires(*eval, (a,)),
    ensures
        ({
            let pieces = pieces_from(text@, 0)->0;
            let exprs = compile_exprs(pieces);
            match r {
                Ok(s) => exists|values: Seq<Seq<char>>|
                    values.len() == exprs.len() && (forall|k: int|
                        0 <= k < exprs.len() ==> evaluated(*eval, exprs[k], Ok(#[trigger] values[k])))
                        && s@ == assemble(pieces, values),
                Err(e) => exists|k: int, msg: Seq<char>|
                    0 <= k < exprs.len() && (forall|j: int|
                        0 <= j < k ==> #[trigger] evaluates_ok(*eval, exprs[j]))
                        && evaluated(*eval, exprs[k], Err(msg)) && e.message@ == template_expression_error(
                        exprs[k],
                        msg,
                    ),
            }
        }),
        !text@.contains('$') ==> (r matches Ok(s) && s@ == text@),
{
    proof {
        lemma_extraction_finishes(text@, 0);
        if !text@.contains('$') {
            lemma_pieces_without_dollar(text@);
            let ps = pieces_from(text@, 0)->0;
            if text@.len() > 0 {
                assert(ps == seq![ExpressionTypeView::Text(text@)]);
                assert(ps.len() == 1);
                assert(ps.last() == ExpressionTypeView::Text(text@));
                assert(ps.drop_last() =~= Seq::<ExpressionTypeView>::empty());
                assert(compile_exprs(ps.drop_last()) =~= Seq::<Seq<char>>::empty());
                assert(compile_exprs(ps) =~= Seq::<Seq<char>>::empty());
                assert forall|values: Seq<Seq<char>>| #[trigger] assemble(ps, values) == text@ by {
                    assert(assemble(ps.drop_last(), values) =~= Seq::<char>::empty());
                    assert(Seq::<char>::empty() + text@ =~= text@);
                }
            } else {
                assert(compile_exprs(ps) =~= Seq::<Seq<char>>::empty());
            }
        }
    }
    let pieces = extract_expressions(text);
    let ghost pv = pieces@.map_values(|e: ExpressionType| e@);
    let ghost exprs = compile_exprs(pv);
    let mut result = String::new();
    let ghost mut values: Seq<Seq<char>> = Seq::empty();
    let mut i: usize = 0;
    while i < pieces.len()
        invariant
            i <= pieces@.len(),
            pv == pieces@.map_values(|e: ExpressionType| e@),
            pv == pieces_from(text@, 0)->0,
            exprs == compile_exprs(pv),
            !text@.contains('$') ==> exprs.len() == 0,
            forall|a: &String| call_requires(*eval, (a,)),
            values.len() == compile_exprs(pv.subrange(0, i as int)).len(),
            compile_exprs(pv.subrange(0, i as int)) == exprs.subrange(0, values.len() as int),
            values.len() <= exprs.len(),
            forall|k: int| 0 <= k < values.len() ==> evaluated(*eval, exprs[k], Ok(#[trigger] values[k])),
            result@ == assemble(pv.subrange(0, i as int), values),
        decreases pieces@.len() - i,
    {
        let ghost pre = pv.subrange(0, i + 1);
        proof {
            assert(pre.drop_last() == pv.subrange(0, i as int));
            assert(pre.last() == pieces@[i as int]@);
            lemma_compile_exprs_prefix(pv, i as int + 1);
        }
        match &pieces[i] {
            ExpressionType::Text(s) => {
                result.append(s.as_str());
                proof {
                    assert(compile_exprs(pre) == compile_exprs(pv.subrange(0, i as int)));
                }
            },
            ExpressionType::CompileTime(expr) => {
                let ghost k = values.len();
                match eval(expr) {
                    Ok(v) => {
                        proof {
                            assert(compile_exprs(pre) == compile_exprs(pv.subrange(0, i as int)).push(expr@));
                            assert(compile_exprs(pre)[k as int] == expr@);
                            assert(compile_exprs(pre).len() == k + 1);
                            assert(exprs.subrange(0, k as int + 1)[k as int] == exprs[k as int]);
                            assert(exprs[k as int] == expr@);
                            assert(evaluated(*eval, exprs[k as int], Ok(v@)));
                            let old_values = values;
                            lemma_assemble_extend(pv.subrange(0, i as int), old_values, v@);
                            values = values.push(v@);
                            assert(assemble(pre, values) == assemble(pv.subrange(0, i as int), values) + v@);
                            assert(values.drop_last() == old_values);
                        }
                        result.append(v.as_str());
                    },
                    Err(m) => {
                        proof {
                            assert(compile_exprs(pre) == compile_exprs(pv.subrange(0, i as int)).push(expr@));
                            assert(compile_exprs(pre)[k as int] == expr@);
                            assert(compile_exprs(pre).len() == k + 1);
                            assert(exprs.subrange(0, k as int + 1)[k as int] == exprs[k as int]);
                            assert(exprs[k as int] == expr@);
                            assert(evaluated(*eval, exprs[k as int], Err(m@)));
                            assert forall|j: int| 0 <= j < k implies #[trigger] evaluates_ok(*eval, exprs[j]) by {
                                assert(evaluated(*eval, exprs[j], Ok(values[j])));
                            }
                        }
                        let mut msg = String::from_str("expression error in '${{ ");
                        msg.append(expr.as_str());
                        msg.append(" }}': ");
                        msg.append(m.as_str());
                        let e = TemplateError::new(msg.as_str(), TemplateErrorKind::ExpressionError);
                        let pe = e.to_parse_error();
                        proof {
                            assert(msg@ == expression_error_text(expr@, m@));
                            assert(pe.message@ == template_expression_error(exprs[k as int], m@));
                            assert(0 <= k < exprs.len());
                        }
                        return Err(pe);
                    },
                }
            },
            ExpressionType::Macro(name) => {
                result.append("$(");
                result.append(name.as_str());
                result.append(")");
                proof {
                    assert(compile_exprs(pre) == compile_exprs(pv.subrange(0, i as int)));
                }
            },
            ExpressionType::Runtime(expr) => {
                result.append("$[ ");
                result.append(expr.as_str());
                result.append(" ]");
                proof {
                    assert(compile_exprs(pre) == compile_exprs(pv.subrange(0, i as int)));
                }
            },
        }
        i = i + 1;
    }
    proof {
        assert(pv.subrange(0, pieces@.len() as int) == pv);
    }
    Ok(result)
}

proof fn lemma_compile_exprs_prefix(pv: Seq<ExpressionTypeView>, n: int)
    requires
        0 <= n <= pv.len(),
    ensures
        compile_exprs(pv.subrange(0, n)).len() <= compile_exprs(pv).len(),
        compile_exprs(pv).subrange(0, compile_exprs(pv.subrange(0, n)).len() as int) == compile_exprs(
            pv.subrange(0, n),
        ),
    decreases pv.len() - n,
{
    if n == pv.len() {
        assert(pv.subrange(0, n) == pv);
        assert(compile_exprs(pv).subrange(0, compile_exprs(pv).len() as int) == compile_exprs(pv));
    } else {
        lemma_compile_exprs_prefix(pv, n + 1);
        let pre = pv.subrange(0, n + 1);
        assert(pre.drop_last() == pv.subrange(0, n));
        let a = compile_exprs(pv.subrange(0, n));
        let b = compile_exprs(pre);
        let all = compile_exprs(pv);
        assert(b.subrange(0, a.len() as int) == a);
        assert(all.subrange(0, a.len() as int) == all.subrange(0, b.len() as int).subrange(0, a.len() as int));
    }
}

/// Values past those the pieces use do not change their text.
proof fn lemma_assemble_extend(pieces: Seq<ExpressionTypeView>, values: Seq<Seq<char>>, v: Seq<char>)
    requires
        compile_exprs(pieces).len() <= values.len(),
    ensures
        assemble(pieces, values.push(v)) == assemble(pieces, values),
    decreases pieces.len(),
{
    if pieces.len() > 0 {
        let d = pieces.drop_last();
        assert(compile_exprs(d).len() <= compile_exprs(pieces).len());
        lemma_assemble_extend(d, values, v);
        let k = compile_exprs(d).len() as int;
        if pieces.last() is CompileTime {
            assert(values.push(v)[k] == values[k]);
        }
    }
}


/// `eval` gave `out` for the expression piece `p`.
pub open spec fn piece_evaluated<F: Fn(&ExpressionType) -> Result<String, String>>(
    eval: F,
    p: ExpressionTypeView,
    out: Result<Seq<char>, Seq<char>>,
) -> bool {
    exists|a: ExpressionType, o: Result<String, String>|
        a@ == p && call_ensures(eval, (&a,), o) && match (o, out) {
            (Ok(x), Ok(y)) => x@ == y,
            (Err(x), Err(y)) => x@ == y,
            _ => false,
        }
}

/// `eval` gave some value for the expression piece `p`.
pub open spec fn piece_evaluates_ok<F: Fn(&ExpressionType) -> Result<String, String>>(
    eval: F,
    p: ExpressionTypeView,
) -> bool {
    exists|v: Seq<char>| piece_evaluated(eval, p, Ok(v))
}

/// The texts one after the other.
pub open spec fn concat_all(parts: Seq<Seq<char>>) -> Seq<char>
    decreases parts.len(),
{
    if parts.len() == 0 {
        Seq::empty()
    } else {
        concat_all(parts.drop_last()) + parts.last()
    }
}

/// `values[k]` stands for piece `k`: a text piece stands for itself, any
/// other piece for what `eval` gave for it.
pub open spec fn pieces_valued<F: Fn(&ExpressionType) -> Result<String, String>>(
    eval: F,
    pieces: Seq<ExpressionTypeView>,
    values: Seq<Seq<char>>,
) -> bool {
    &&& values.len() == pieces.len()
    &&& forall|k: int|
        0 <= k < pieces.len() ==> match #[trigger] pieces[k] {
            ExpressionTypeView::Text(t) => values[k] == t,
            _ => piece_evaluated(eval, pieces[k], Ok(values[k])),
        }
}

/// Replaces each `$(variable)`, `${{ expression }}` and `$[ expression ]`
/// of `text` by what `eval` gives for it, in order, keeping the plain text;
/// the first evaluation error stops it.
pub fn substitute_macros<F: Fn(&ExpressionType) -> Result<String, String>>(text: &str, eval: &F) -> (r: Result<
    String,
    String,
>)
    requires
        text@.len() < usize::MAX,
        forall|a: &ExpressionType| call_requires(*eval, (a,)),
    ensures
        ({
            let pieces = pieces_from(text@, 0)->0;
            match r {
                Ok(s) => exists|values: Seq<Seq<char>>|
                    pieces_valued(*eval, pieces, values) && s@ == concat_all(values),
                Err(m) => exists|k: int|
                    0 <= k < pieces.len() && !(pieces[k] is Text) && (forall|j: int|
                        0 <= j < k && !(pieces[j] is Text) ==> #[trigger] piece_evaluates_ok(*eval, pieces[j]))
                        && piece_evaluated(*eval, pieces[k], Err(m@)),
            }
        }),
        !text@.contains('$') ==> (r matches Ok(s) && s@ == text@),
{
    proof {
        lemma_extraction_finishes(text@, 0);
        if !text@.contains('$') {
            lemma_pieces_without_dollar(text@);
        }
    }
    let pieces = extract_expressions(text);
    let ghost pv = pieces@.map_values(|e: ExpressionType| e@);
    let mut result = String::new();
    let ghost mut values: Seq<Seq<char>> = Seq::empty();
    let mut i: usize = 0;
    while i < pieces.len()
        invariant
            i <= pieces@.len(),
            pv == pieces@.map_values(|e: ExpressionType| e@),
            pv == pieces_from(text@, 0)->0,
            forall|a: &ExpressionType| call_requires(*eval, (a,)),
            pieces_valued(*eval, pv.subrange(0, i as int), values),
            result@ == concat_all(values),
            !text@.contains('$') ==> forall|k: int| 0 <= k < pv.len() ==> (#[trigger] pv[k]) is Text,
        decreases pieces@.len() - i,
    {
        let ghost old_values = values;
        let ghost pre = pv.subrange(0, i + 1);
        proof {
            assert(pre.drop_last() == pv.subrange(0, i as int));
            assert(pre[i as int] == pieces@[i as int]@);
        }
        match &pieces[i] {
            ExpressionType::Text(t) => {
                result.append(t.as_str());
                proof {
                    values = values.push(t@);
                    assert(values.drop_last() == old_values);
                }
            },
            _ => {
                assert(!(pv[i as int] is Text));
                match eval(&pieces[i]) {
                    Ok(v) => {
                        result.append(v.as_str());
                        proof {
                            assert(piece_evaluated(*eval, pv[i as int], Ok(v@)));
                            values = values.push(v@);
                            assert(values.drop_last() == old_values);
                        }
                    },
                    Err(m) => {
                        proof {
                            assert(piece_evaluated(*eval, pv[i as int], Err(m@)));
                            assert forall|j: int|
                                0 <= j < i && !(pv[j] is Text) implies #[trigger] piece_evaluates_ok(
                                *eval,
                                pv[j],
                            ) by {
                                assert(pv.subrange(0, i as int)[j] == pv[j]);
                                assert(piece_evaluated(*eval, pv[j], Ok(old_values[j])));
                            }
                        }
                        return Err(m);
                    },
                }
            },
        }
        proof {
            assert forall|k: int| 0 <= k < pre.len() implies match #[trigger] pre[k] {
                ExpressionTypeView::Text(t) => values[k] == t,
                _ => piece_evaluated(*eval, pre[k], Ok(values[k])),
            } by {
                if k < i {
                    assert(pre[k] == pv.subrange(0, i as int)[k]);
                }
            }
        }
        i = i + 1;
    }
    proof {
        assert(pv.subrange(0, pieces@.len() as int) == pv);
        if !text@.contains('$') {
            lemma_pieces_without_dollar(text@);
            if text@.len() > 0 {
                assert(pv == seq![ExpressionTypeView::Text(text@)]);
                assert(pieces_valued(*eval, pv, values));
                assert(pv[0] == ExpressionTypeView::Text(text@));
                assert(values.len() == 1);
                assert(values[0] == text@);
                assert(values.drop_last() =~= Seq::<Seq<char>>::empty());
                assert(values.last() == text@);
                assert(concat_all(values.drop_last()) == Seq::<char>::empty());
                assert(concat_all(values) == concat_all(values.drop_last()) + values.last());
                assert(Seq::<char>::empty() + text@ =~= text@);
            } else {
                assert(pieces_valued(*eval, pv, values));
                assert(values.len() == 0);
                assert(text@ =~= Seq::<char>::empty());
            }
        }
    }
    Ok(result)
}

} // verus!
