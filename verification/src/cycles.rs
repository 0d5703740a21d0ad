//! Depth-first search for dependency cycles.
//!
//! Nodes are numbered `0..n`; `adj[u]` lists, in order, the nodes that `u`
//! depends on.  The search visits the nodes in order and each node's
//! dependencies in order, and stops at the first dependency that is still on
//! the search path: the path from the outermost node down to it, followed by
//! that dependency again, is the cycle it reports.

use vstd::prelude::*;

verus! {

/// The dependency lists as sequences.
pub open spec fn adj_view(adj: Seq<Vec<usize>>) -> Seq<Seq<usize>> {
    adj.map_values(|v: Vec<usize>| v@)
}

/// Every dependency names a node.
pub open spec fn graph_ok(a: Seq<Seq<usize>>) -> bool {
    forall|u: int, k: int| 0 <= u < a.len() && 0 <= k < a[u].len() ==> (#[trigger] a[u][k] as int) < a.len()
}

/// `p` walks along dependencies and ends where it passed before: a cycle.
pub open spec fn closed_walk(p: Seq<usize>, a: Seq<Seq<usize>>) -> bool {
    &&& p.len() >= 2
    &&& forall|i: int| 0 <= i < p.len() - 1 ==> (p[i] as int) < a.len() && a[p[i] as int].contains(#[trigger] p[i + 1])
    &&& exists|j: int| 0 <= j < p.len() - 1 && p[j] == p.last()
}

/// `order` lists every node, and every node's dependencies come before it.
pub open spec fn respects_dependencies(order: Seq<usize>, a: Seq<Seq<usize>>) -> bool {
    &&& forall|x: usize| (x as int) < a.len() ==> #[trigger] order.contains(x)
    &&& forall|i: int| 0 <= i < order.len() ==> (#[trigger] order[i] as int) < a.len()
    &&& forall|i: int, k: int|
        0 <= i < order.len() && 0 <= k < a[order[i] as int].len() ==> #[trigger] order.subrange(0, i).contains(
            #[trigger] a[order[i] as int][k],
        )
}

/// The nodes can be ordered so that every node comes after its dependencies.
pub open spec fn acyclic(a: Seq<Seq<usize>>) -> bool {
    exists|order: Seq<usize>| respects_dependencies(order, a)
}

/// Index of the first occurrence of `x` in `s`.
pub open spec fn first_pos(s: Seq<usize>, x: usize) -> int
    decreases s.len(),
{
    if s.len() == 0 {
        0
    } else if s[0] == x {
        0
    } else {
        1 + first_pos(s.drop_first(), x)
    }
}

pub(crate) proof fn lemma_first_pos(s: Seq<usize>, x: usize)
    requires
        s.contains(x),
    ensures
        0 <= first_pos(s, x) < s.len(),
        s[first_pos(s, x)] == x,
        forall|j: int| 0 <= j < first_pos(s, x) ==> s[j] != x,
    decreases s.len(),
{
    if s[0] != x {
        let j0 = choose|j: int| 0 <= j < s.len() && s[j] == x;
        assert(s.drop_first()[j0 - 1] == x);
        lemma_first_pos(s.drop_first(), x);
        assert forall|j: int| 0 <= j < first_pos(s, x) implies s[j] != x by {
            if j > 0 {
                assert(s[j] == s.drop_first()[j - 1]);
            }
        }
    }
}

proof fn lemma_first_pos_before(s: Seq<usize>, y: usize, i: int)
    requires
        0 <= i <= s.len(),
        s.subrange(0, i).contains(y),
    ensures
        first_pos(s, y) < i,
{
    let j = choose|j: int| 0 <= j < i && s.subrange(0, i)[j] == y;
    assert(s[j] == y);
    lemma_first_pos(s, y);
}

/// A cycle rules out any order in which dependencies come first.
pub proof fn lemma_cycle_not_acyclic(p: Seq<usize>, a: Seq<Seq<usize>>)
    requires
        closed_walk(p, a),
    ensures
        !acyclic(a),
{
    if acyclic(a) {
        let order = choose|order: Seq<usize>| respects_dependencies(order, a);
        let j = choose|j: int| 0 <= j < p.len() - 1 && p[j] == p.last();
        let last = p.len() - 1;
        assert forall|m: int| j <= m < last implies rank(order, p, m + 1) < #[trigger] rank(order, p, m) by {
            assert(a[p[m] as int].contains(p[m + 1]));
            assert(order.contains(p[m]));
            lemma_first_pos(order, p[m]);
            let i = first_pos(order, p[m]);
            let k = choose|k: int| 0 <= k < a[p[m] as int].len() && a[p[m] as int][k] == p[m + 1];
            assert(order[i] == p[m]);
            assert(order.subrange(0, i).contains(a[order[i] as int][k]));
            lemma_first_pos_before(order, p[m + 1], i);
        }
        lemma_descending(p, order, j, last);
        assert(rank(order, p, last) == rank(order, p, j));
        assert(false);
    }
}

/// Position in `order` of the `t`-th node of `p`.
spec fn rank(order: Seq<usize>, p: Seq<usize>, t: int) -> int {
    first_pos(order, p[t])
}

proof fn lemma_descending(p: Seq<usize>, order: Seq<usize>, j: int, m: int)
    requires
        0 <= j <= m < p.len(),
        forall|t: int| j <= t < m ==> rank(order, p, t + 1) < #[trigger] rank(order, p, t),
    ensures
        m > j ==> rank(order, p, m) < rank(order, p, j),
    decreases m - j,
{
    if m > j + 1 {
        lemma_descending(p, order, j, m - 1);
        assert(rank(order, p, m) < rank(order, p, m - 1));
    }
}

/// Number of nodes still unvisited (state 0).
pub open spec fn unvisited(s: Seq<u8>) -> nat
    decreases s.len(),
{
    if s.len() == 0 {
        0
    } else {
        unvisited(s.drop_last()) + if s.last() == 0 {
            1nat
        } else {
            0nat
        }
    }
}

/// Marking an unvisited node lowers the count of unvisited nodes by one.
pub proof fn lemma_unvisited_update(s: Seq<u8>, i: int, v: u8)
    requires
        0 <= i < s.len(),
        v != 0,
    ensures
        s[i] == 0 ==> unvisited(s.update(i, v)) + 1 == unvisited(s),
        s[i] != 0 ==> unvisited(s.update(i, v)) == unvisited(s),
    decreases s.len(),
{
    let t = s.update(i, v);
    if i == s.len() - 1 {
        assert(t.drop_last() == s.drop_last());
    } else {
        assert(t.drop_last() == s.drop_last().update(i, v));
        lemma_unvisited_update(s.drop_last(), i, v);
    }
}

/// The search from node `u` with the search path `path` in node states `s`
/// (0 unvisited, 1 on the path, 2 finished): `u` goes on the path, its
/// dependencies are searched in order, and it is finished; `Ok` with the
/// states after it, or `Err` with the first cycle met.  A node that is not
/// unvisited is left as it is.
pub open spec fn dfs_visit(a: Seq<Seq<usize>>, s: Seq<u8>, path: Seq<usize>, u: usize) -> Result<
    Seq<u8>,
    Seq<usize>,
>
    decreases unvisited(s), 0nat, 0int,
{
    if (u as int) < s.len() && (u as int) < a.len() && s[u as int] == 0 {
        proof {
            lemma_unvisited_update(s, u as int, 1);
        }
        match dfs_deps(a, s.update(u as int, 1), path.push(u), u, 0) {
            Ok(s2) => Ok(s2.update(u as int, 2)),
            Err(c) => Err(c),
        }
    } else {
        Ok(s)
    }
}

/// The search of the dependencies of `u` from the `k`-th on: a dependency
/// on the path closes a cycle (the path followed by it), an unvisited one
/// is searched, a finished one is passed over.
pub open spec fn dfs_deps(a: Seq<Seq<usize>>, s: Seq<u8>, path: Seq<usize>, u: usize, k: int) -> Result<
    Seq<u8>,
    Seq<usize>,
>
    decreases unvisited(s), 1nat, a[u as int].len() - k,
{
    if (u as int) >= a.len() || k < 0 || k >= a[u as int].len() {
        Ok(s)
    } else {
        let v = a[u as int][k];
        if (v as int) < s.len() && s[v as int] == 1 {
            Err(path.push(v))
        } else if (v as int) < s.len() && s[v as int] == 0 {
            match dfs_visit(a, s, path, v) {
                Err(c) => Err(c),
                Ok(s2) => if unvisited(s2) < unvisited(s) {
                    dfs_deps(a, s2, path, u, k + 1)
                } else {
                    Ok(s2)
                },
            }
        } else {
            dfs_deps(a, s, path, u, k + 1)
        }
    }
}

/// The search started from each node in order, from node `u` on, skipping
/// nodes already visited.
pub open spec fn dfs_from(a: Seq<Seq<usize>>, s: Seq<u8>, u: int) -> Result<Seq<u8>, Seq<usize>>
    decreases a.len() - u,
{
    if u < 0 || u >= a.len() {
        Ok(s)
    } else if u < s.len() && s[u] == 0 {
        match dfs_visit(a, s, Seq::empty(), u as usize) {
            Err(c) => Err(c),
            Ok(s2) => dfs_from(a, s2, u + 1),
        }
    } else {
        dfs_from(a, s, u + 1)
    }
}

/// The cycle that the depth-first search meets first, if it meets one.
pub open spec fn first_cycle(a: Seq<Seq<usize>>) -> Option<Seq<usize>> {
    match dfs_from(a, Seq::new(a.len(), |i: int| 0u8), 0) {
        Err(c) => Some(c),
        Ok(_) => None,
    }
}

/// `b` is a later state of the search than `a`: visited nodes stay visited,
/// the path's nodes stay on it, and no node becomes unvisited again.
pub open spec fn grows(a: Seq<u8>, b: Seq<u8>) -> bool {
    &&& a.len() == b.len()
    &&& forall|x: int| 0 <= x < a.len() && a[x] == 2 ==> #[trigger] b[x] == 2
    &&& forall|x: int| 0 <= x < a.len() && b[x] == 0 ==> #[trigger] a[x] == 0
    &&& unvisited(b) <= unvisited(a)
}

/// The search's bookkeeping: a node is on the path exactly when it is in
/// progress (1), finished exactly when it is in the finish order (2); the
/// path walks along dependencies; every finished node's dependencies finished
/// before it.
pub open spec fn search_inv(a: Seq<Seq<usize>>, states: Seq<u8>, path: Seq<usize>, order: Seq<usize>) -> bool {
    &&& states.len() == a.len()
    &&& forall|x: int| 0 <= x < states.len() ==> #[trigger] states[x] <= 2
    &&& forall|i: int| 0 <= i < path.len() ==> (#[trigger] path[i] as int) < a.len()
    &&& forall|i: int| 0 <= i < order.len() ==> (#[trigger] order[i] as int) < a.len()
    &&& forall|x: usize| (x as int) < a.len() ==> (states[x as int] == 1 <==> #[trigger] path.contains(x))
    &&& forall|x: usize| (x as int) < a.len() ==> (states[x as int] == 2 <==> #[trigger] order.contains(x))
    &&& forall|i: int| 0 <= i < path.len() - 1 ==> a[path[i] as int].contains(#[trigger] path[i + 1])
    &&& forall|i: int, k: int|
        0 <= i < order.len() && 0 <= k < a[order[i] as int].len() ==> #[trigger] order.subrange(0, i).contains(
            #[trigger] a[order[i] as int][k],
        )
}

fn copy_path(v: &Vec<usize>) -> (r: Vec<usize>)
    ensures
        r@ == v@,
{
    let mut r: Vec<usize> = Vec::new();
    let mut i: usize = 0;
    while i < v.len()
        invariant
            i <= v@.len(),
            r@ == v@.subrange(0, i as int),
        decreases v@.len() - i,
    {
        r.push(v[i]);
        assert(v@.subrange(0, i + 1) == v@.subrange(0, i as int).push(v@[i as int]));
        i = i + 1;
    }
    assert(v@.subrange(0, v@.len() as int) == v@);
    r
}

proof fn lemma_push_contains(s: Seq<usize>, x: usize, w: usize)
    ensures
        s.push(x).contains(w) <==> (s.contains(w) || w == x),
{
    if s.contains(w) {
        let j = choose|j: int| 0 <= j < s.len() && s[j] == w;
        assert(s.push(x)[j] == w);
    }
    if w == x {
        assert(s.push(x)[s.len() as int] == w);
    }
    if s.push(x).contains(w) {
        let j = choose|j: int| 0 <= j < s.len() + 1 && s.push(x)[j] == w;
        if j < s.len() {
            assert(s[j] == w);
        }
    }
}

proof fn lemma_subrange_contains_mono(s: Seq<usize>, t: Seq<usize>, i: int, y: usize)
    requires
        0 <= i <= s.len(),
        s.len() <= t.len(),
        t.subrange(0, s.len() as int) == s,
        s.subrange(0, i).contains(y),
    ensures
        t.subrange(0, i).contains(y),
{
    let j = choose|j: int| 0 <= j < i && s.subrange(0, i)[j] == y;
    assert(t.subrange(0, i)[j] == y);
}

/// Visits unvisited node `u`: its dependencies in order, then finishes it.
fn visit(
    adj: &Vec<Vec<usize>>,
    states: &mut Vec<u8>,
    path: &mut Vec<usize>,
    order: &mut Vec<usize>,
    u: usize,
) -> (r: Option<Vec<usize>>)
    requires
        graph_ok(adj_view(adj@)),
        search_inv(adj_view(adj@), old(states)@, old(path)@, old(order)@),
        (u as int) < adj@.len(),
        old(states)@[u as int] == 0,
        old(path)@.len() > 0 ==> adj_view(adj@)[old(path)@.last() as int].contains(u),
    ensures
        match r {
            Some(p) => dfs_visit(adj_view(adj@), old(states)@, old(path)@, u) == Err::<Seq<u8>, Seq<usize>>(p@),
            None => dfs_visit(adj_view(adj@), old(states)@, old(path)@, u) == Ok::<Seq<u8>, Seq<usize>>(final(states)@),
        },
        match r {
            Some(p) => closed_walk(p@, adj_view(adj@)),
            None => {
                &&& search_inv(adj_view(adj@), final(states)@, final(path)@, final(order)@)
                &&& final(path)@ == old(path)@
                &&& final(states)@[u as int] == 2
                &&& old(order)@.len() <= final(order)@.len()
                &&& final(order)@.subrange(0, old(order)@.len() as int) == old(order)@
                &&& grows(old(states)@, final(states)@)
                &&& unvisited(final(states)@) < unvisited(old(states)@)
            },
        },
    decreases unvisited(old(states)@),
{
    let ghost a = adj_view(adj@);
    let ghost s0 = states@;
    let ghost p0 = path@;
    let ghost o0 = order@;
    proof {
        lemma_unvisited_update(s0, u as int, 1);
    }
    states.set(u, 1);
    path.push(u);
    proof {
        assert forall|x: usize| (x as int) < a.len() implies (states@[x as int] == 1 <==> #[trigger] path@.contains(x)) by {
            lemma_push_contains(p0, u, x);
        }
        assert forall|i: int| 0 <= i < path@.len() - 1 implies a[path@[i] as int].contains(#[trigger] path@[i + 1]) by {
            if i < p0.len() - 1 {
                assert(path@[i] == p0[i] && path@[i + 1] == p0[i + 1]);
            } else {
                assert(path@[i] == p0.last());
                assert(path@[i + 1] == u);
            }
        }
        assert forall|x: usize| (x as int) < a.len() implies (states@[x as int] == 2 <==> #[trigger] order@.contains(x)) by {
            if x == u {
                assert(!o0.contains(u));
            }
        }
    }
    let ghost s1 = states@;
    let deps = &adj[u];
    let mut k: usize = 0;
    while k < deps.len()
        invariant
            a == adj_view(adj@),
            graph_ok(a),
            deps@ == a[u as int],
            (u as int) < a.len(),
            k <= deps@.len(),
            search_inv(a, states@, path@, order@),
            path@ == p0.push(u),
            states@[u as int] == 1,
            grows(s1, states@),
            unvisited(s1) + 1 == unvisited(s0),
            s1 == s0.update(u as int, 1),
            s0 == old(states)@,
            o0.len() <= order@.len(),
            order@.subrange(0, o0.len() as int) == o0,
            forall|m: int| 0 <= m < k ==> #[trigger] order@.contains(deps@[m]),
            forall|x: int| 0 <= x < s0.len() && s0[x] == 2 ==> #[trigger] states@[x] == 2,
            dfs_deps(a, s1, p0.push(u), u, 0) == dfs_deps(a, states@, p0.push(u), u, k as int),
            s0.len() == a.len(),
            s0[u as int] == 0,
            p0 == old(path)@,
        decreases deps@.len() - k,
    {
        let v = deps[k];
        assert(a[u as int][k as int] == v);
        assert((v as int) < a.len());
        let sv = states[v];
        if sv == 1 {
            proof {
                assert(dfs_deps(a, states@, p0.push(u), u, k as int) == Err::<Seq<u8>, Seq<usize>>(p0.push(u).push(v)));
                assert(dfs_visit(a, s0, p0, u) == Err::<Seq<u8>, Seq<usize>>(p0.push(u).push(v)));
            }
            path.push(v);
            let p = copy_path(path);
            proof {
                let q = p0.push(u).push(v);
                assert(p@ == q);
                assert(a[u as int].contains(v));
                assert(p0.push(u).contains(v));
                let j = choose|j: int| 0 <= j < p0.len() + 1 && p0.push(u)[j] == v;
                assert(q[j] == q.last());
                assert forall|i: int| 0 <= i < q.len() - 1 implies (q[i] as int) < a.len() && a[q[i] as int].contains(#[trigger] q[i + 1]) by {
                    if i < q.len() - 2 {
                        assert(q[i] == p0.push(u)[i] && q[i + 1] == p0.push(u)[i + 1]);
                    } else {
                        assert(q[i] == u && q[i + 1] == v);
                    }
                }
            }
            return Some(p);
        } else if sv == 0 {
            let ghost before_states = states@;
            let ghost before_order = order@;
            proof {
                assert(path@.last() == u);
                assert(unvisited(states@) < unvisited(s0));
            }
            match visit(adj, states, path, order, v) {
                Some(p) => {
                    proof {
                        assert(dfs_visit(a, before_states, p0.push(u), v) == Err::<Seq<u8>, Seq<usize>>(p@));
                        assert(dfs_deps(a, before_states, p0.push(u), u, k as int) == Err::<Seq<u8>, Seq<usize>>(p@));
                        assert(dfs_visit(a, s0, p0, u) == Err::<Seq<u8>, Seq<usize>>(p@));
                    }
                    return Some(p);
                },
                None => {
                    proof {
                        assert(path@[p0.len() as int] == u);
                        assert(path@.contains(u));
                        assert forall|m: int| 0 <= m < k + 1 implies #[trigger] order@.contains(deps@[m]) by {
                            if m < k {
                                let w = deps@[m];
                                assert(before_order.contains(w));
                                let j = choose|j: int| 0 <= j < before_order.len() && before_order[j] == w;
                                assert(order@.subrange(0, before_order.len() as int)[j] == w);
                                assert(order@[j] == w);
                            } else {
                                assert(states@[v as int] == 2);
                            }
                        }
                        assert(order@.subrange(0, o0.len() as int) =~= order@.subrange(
                            0,
                            before_order.len() as int,
                        ).subrange(0, o0.len() as int));
                    }
                },
            }
        } else {
            proof {
                assert(order@.contains(v));
            }
        }
        k = k + 1;
    }
    let _ = path.pop();
    let ghost s2 = states@;
    let ghost o2 = order@;
    proof {
        lemma_unvisited_update(s2, u as int, 2);
        assert(path@ =~= p0);
        assert(!o2.contains(u));
    }
    states.set(u, 2);
    order.push(u);
    proof {
        assert forall|x: usize| (x as int) < a.len() implies (states@[x as int] == 1 <==> #[trigger] path@.contains(x)) by {
            lemma_push_contains(p0, u, x);
            if x == u {
                assert(!p0.contains(u));
            }
        }
        assert forall|x: usize| (x as int) < a.len() implies (states@[x as int] == 2 <==> #[trigger] order@.contains(x)) by {
            lemma_push_contains(o2, u, x);
        }
        assert forall|i: int, kk: int|
            0 <= i < order@.len() && 0 <= kk < a[order@[i] as int].len() implies #[trigger] order@.subrange(
                0,
                i,
            ).contains(#[trigger] a[order@[i] as int][kk]) by {
            if i < o2.len() {
                assert(order@[i] == o2[i]);
                assert(order@.subrange(0, o2.len() as int) =~= o2);
                assert(o2.subrange(0, i).contains(a[o2[i] as int][kk]));
                lemma_subrange_contains_mono(o2, order@, i, a[o2[i] as int][kk]);
            } else {
                assert(order@[i] == u);
                assert(order@.subrange(0, i) =~= o2);
                assert(o2.contains(deps@[kk]));
            }
        }
        assert forall|i: int| 0 <= i < order@.len() implies (#[trigger] order@[i] as int) < a.len() by {
            if i < o2.len() {
                assert(order@[i] == o2[i]);
            }
        }
        assert(order@.subrange(0, o0.len() as int) =~= o2.subrange(0, o0.len() as int));
        assert forall|x: int| 0 <= x < s0.len() && states@[x] == 0 implies #[trigger] s0[x] == 0 by {
            assert(s2[x] == 0);
            assert(s1[x] == 0);
        }
    }
    None
}

/// Searches the whole graph, visiting the nodes in order: the first cycle
/// found, or none if the nodes can be ordered with dependencies first.
pub fn find_cycle(adj: &Vec<Vec<usize>>) -> (r: Option<Vec<usize>>)
    requires
        graph_ok(adj_view(adj@)),
    ensures
        match r {
            Some(p) => closed_walk(p@, adj_view(adj@)) && !acyclic(adj_view(adj@)),
            None => acyclic(adj_view(adj@)),
        },
        match r {
            Some(p) => first_cycle(adj_view(adj@)) == Some(p@),
            None => first_cycle(adj_view(adj@)) is None,
        },
{
    let ghost a = adj_view(adj@);
    let n = adj.len();
    let mut states: Vec<u8> = Vec::new();
    let mut i: usize = 0;
    while i < n
        invariant
            i <= n,
            n == adj@.len(),
            states@.len() == i,
            forall|x: int| 0 <= x < i ==> #[trigger] states@[x] == 0,
        decreases n - i,
    {
        states.push(0);
        i = i + 1;
    }
    let mut path: Vec<usize> = Vec::new();
    let mut order: Vec<usize> = Vec::new();
    let ghost init = states@;
    proof {
        assert(init =~= Seq::new(a.len(), |i: int| 0u8));
        assert forall|x: usize| (x as int) < a.len() implies (states@[x as int] == 1 <==> #[trigger] path@.contains(x)) by {}
        assert forall|x: usize| (x as int) < a.len() implies (states@[x as int] == 2 <==> #[trigger] order@.contains(x)) by {}
    }
    let mut u: usize = 0;
    while u < n
        invariant
            a == adj_view(adj@),
            graph_ok(a),
            n == adj@.len(),
            u <= n,
            search_inv(a, states@, path@, order@),
            path@.len() == 0,
            forall|x: int| 0 <= x < u ==> #[trigger] states@[x] == 2,
            init == Seq::new(a.len(), |i: int| 0u8),
            dfs_from(a, init, 0) == dfs_from(a, states@, u as int),
        decreases n - u,
    {
        if states[u] == 0 {
            let ghost before = states@;
            proof {
                assert(path@ =~= Seq::<usize>::empty());
            }
            match visit(adj, &mut states, &mut path, &mut order, u) {
                Some(p) => {
                    proof {
                        lemma_cycle_not_acyclic(p@, a);
                        assert(dfs_from(a, before, u as int) == Err::<Seq<u8>, Seq<usize>>(p@));
                    }
                    return Some(p);
                },
                None => {
                    proof {
                        assert(dfs_from(a, before, u as int) == dfs_from(a, states@, u + 1));
                    }
                },
            }
        } else {
            proof {
                if states@[u as int] == 1 {
                    assert(path@.contains(u));
                }
                assert(dfs_from(a, states@, u as int) == dfs_from(a, states@, u + 1));
            }
        }
        u = u + 1;
    }
    proof {
        assert(dfs_from(a, states@, n as int) == Ok::<Seq<u8>, Seq<usize>>(states@));
    }
    proof {
        assert forall|x: usize| (x as int) < a.len() implies #[trigger] order@.contains(x) by {
            assert(states@[x as int] == 2);
        }
        assert(respects_dependencies(order@, a));
    }
    None
}

} // verus!
