//! Pipeline inheritance: merging a pipeline into the template it extends.

use vstd::prelude::*;
use crate::models::{Pipeline, Variable};
use crate::template::{str_eq, TemplateEngine};

verus! {

/// The name of a key/value variable; other variables have none.
pub open spec fn var_name(v: Variable) -> Option<Seq<char>> {
    match v {
        Variable::KeyValue { name, .. } => Some(name@),
        _ => None,
    }
}

/// The variables of `s` that `v` does not replace: for a key/value `v`, those
/// not named like it; otherwise all of them.
pub open spec fn without_name(s: Seq<Variable>, v: Variable) -> Seq<Variable>
    decreases s.len(),
{
    if s.len() == 0 {
        s
    } else {
        let rest = without_name(s.drop_last(), v);
        if var_name(v) is Some && var_name(s.last()) == var_name(v) {
            rest
        } else {
            rest.push(s.last())
        }
    }
}

/// The parent's variables with the child's added one by one, each key/value
/// variable replacing those of its name that came before it.
pub open spec fn merge_vars(parent: Seq<Variable>, child: Seq<Variable>) -> Seq<Variable>
    decreases child.len(),
{
    if child.len() == 0 {
        parent
    } else {
        let v = child.last();
        without_name(merge_vars(parent, child.drop_last()), v).push(v)
    }
}

/// The variables of `s` named `n`, in order.
pub open spec fn named(s: Seq<Variable>, n: Seq<char>) -> Seq<Variable>
    decreases s.len(),
{
    if s.len() == 0 {
        s
    } else if var_name(s.last()) == Some(n) {
        named(s.drop_last(), n).push(s.last())
    } else {
        named(s.drop_last(), n)
    }
}

/// The last variable of `s` named `n`, if any.
pub open spec fn last_named(s: Seq<Variable>, n: Seq<char>) -> Option<Variable>
    decreases s.len(),
{
    if s.len() == 0 {
        None
    } else if var_name(s.last()) == Some(n) {
        Some(s.last())
    } else {
        last_named(s.drop_last(), n)
    }
}

/// `new` if it is set, else `old`.
pub open spec fn overridden<T>(old: Option<T>, new: Option<T>) -> Option<T> {
    if new is Some {
        new
    } else {
        old
    }
}

proof fn lemma_named_without(s: Seq<Variable>, v: Variable, n: Seq<char>)
    ensures
        named(without_name(s, v), n) == (if var_name(v) == Some(n) {
            Seq::<Variable>::empty()
        } else {
            named(s, n)
        }),
    decreases s.len(),
{
    if s.len() > 0 {
        lemma_named_without(s.drop_last(), v, n);
        let rest = without_name(s.drop_last(), v);
        if !(var_name(v) is Some && var_name(s.last()) == var_name(v)) {
            assert(rest.push(s.last()).drop_last() == rest);
        }
    }
}

proof fn lemma_named_push(s: Seq<Variable>, x: Variable, n: Seq<char>)
    ensures
        named(s.push(x), n) == (if var_name(x) == Some(n) {
            named(s, n).push(x)
        } else {
            named(s, n)
        }),
{
    assert(s.push(x).drop_last() == s);
}

/// Merging keeps, for each variable name, only the child's last variable of
/// that name where the child has one, and otherwise the parent's variables
/// of that name.
pub proof fn lemma_child_variables_win(parent: Seq<Variable>, child: Seq<Variable>, n: Seq<char>)
    ensures
        named(merge_vars(parent, child), n) == match last_named(child, n) {
            Some(v) => seq![v],
            None => named(parent, n),
        },
    decreases child.len(),
{
    if child.len() > 0 {
        let v = child.last();
        let m = merge_vars(parent, child.drop_last());
        lemma_child_variables_win(parent, child.drop_last(), n);
        lemma_named_push(without_name(m, v), v, n);
        lemma_named_without(m, v, n);
        if var_name(v) == Some(n) {
            assert(Seq::<Variable>::empty().push(v) == seq![v]);
        }
    }
}

/// Moves the variables of `vars` that `v` does not replace into a new list.
fn remove_named(vars: Vec<Variable>, v: &Variable) -> (r: Vec<Variable>)
    ensures
        r@ == without_name(vars@, *v),
{
    let ghost orig = vars@;
    let n: usize = vars.len();
    let mut rest = vars;
    let mut kept: Vec<Variable> = Vec::new();
    let mut i: usize = 0;
    while rest.len() > 0
        invariant
            i + rest@.len() == orig.len(),
            orig.len() == n,
            rest@ == orig.subrange(i as int, orig.len() as int),
            kept@ == without_name(orig.subrange(0, i as int), *v),
        decreases rest@.len(),
    {
        let x = rest.remove(0);
        proof {
            assert(x == orig[i as int]);
            assert(orig.subrange(0, i as int + 1).drop_last() == orig.subrange(0, i as int));
            assert(orig.subrange(0, i as int + 1).last() == x);
            assert(rest@ == orig.subrange(i as int + 1, orig.len() as int));
        }
        let replaced = match (v, &x) {
            (Variable::KeyValue { name: a, .. }, Variable::KeyValue { name: b, .. }) => str_eq(
                a.as_str(),
                b.as_str(),
            ),
            _ => false,
        };
        if !replaced {
            kept.push(x);
        }
        i = i + 1;
    }
    proof {
        assert(orig.subrange(0, orig.len() as int) == orig);
    }
    kept
}

impl TemplateEngine {
    /// Merges a pipeline into the template it extends: the child's trigger,
    /// pull-request trigger, schedules, resources, pool and name replace the
    /// template's where the child sets them; the child's variables are added
    /// after the template's, each key/value variable replacing the earlier
    /// ones of its name; the rest is the template's.
    pub fn merge_extends(&self, parent: Pipeline, child: Pipeline) -> (r: Pipeline)
        ensures
            r.trigger == overridden(parent.trigger, child.trigger),
            r.pr == overridden(parent.pr, child.pr),
            r.schedules == overridden(parent.schedules, child.schedules),
            r.resources == overridden(parent.resources, child.resources),
            r.pool == overridden(parent.pool, child.pool),
            r.name == overridden(parent.name, child.name),
            r.variables@ == merge_vars(parent.variables@, child.variables@),
            r.parameters == parent.parameters,
            r.stages == parent.stages,
            r.jobs == parent.jobs,
            r.steps == parent.steps,
            r.extends == parent.extends,
            r.lock_behavior == parent.lock_behavior,
            r.has_template_directives == parent.has_template_directives,
    {
        let mut parent = parent;
        let child = child;
        if child.trigger.is_some() {
            parent.trigger = child.trigger;
        }
        if child.pr.is_some() {
            parent.pr = child.pr;
        }
        if child.schedules.is_some() {
            parent.schedules = child.schedules;
        }
        if child.resources.is_some() {
            parent.resources = child.resources;
        }
        let ghost parent_vars = parent.variables@;
        let ghost child_vars = child.variables@;
        let mut merged = parent.variables;
        let mut incoming = child.variables;
        let n: usize = incoming.len();
        let mut i: usize = 0;
        while incoming.len() > 0
            invariant
                i + incoming@.len() == child_vars.len(),
                child_vars.len() == n,
                incoming@ == child_vars.subrange(i as int, child_vars.len() as int),
                merged@ == merge_vars(parent_vars, child_vars.subrange(0, i as int)),
            decreases incoming@.len(),
        {
            let var = incoming.remove(0);
            proof {
                assert(var == child_vars[i as int]);
                assert(child_vars.subrange(0, i as int + 1).drop_last() == child_vars.subrange(0, i as int));
                assert(child_vars.subrange(0, i as int + 1).last() == var);
                assert(incoming@ == child_vars.subrange(i as int + 1, child_vars.len() as int));
            }
            merged = remove_named(merged, &var);
            merged.push(var);
            i = i + 1;
        }
        proof {
            assert(child_vars.subrange(0, child_vars.len() as int) == child_vars);
        }
        parent.variables = merged;
        if child.pool.is_some() {
            parent.pool = child.pool;
        }
        if child.name.is_some() {
            parent.name = child.name;
        }
        parent
    }
}

} // verus!
