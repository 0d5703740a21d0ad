//! Dependency ordering of pipeline items (stages or jobs) by Kahn's algorithm.
//!
//! Nodes are numbered `0..n`; an edge `(from, to)` says that `to` depends on
//! `from`, so `from` must come first.

use vstd::prelude::*;
use crate::pipeline_models::{Job, Stage};

verus! {

broadcast use vstd::string::group_string_axioms;

// ---------------------------------------------------------------------------
// Orders and in-degrees
// ---------------------------------------------------------------------------

/// `order` lists every node `0..n` exactly once, every edge's source is a
/// node, and every edge's source comes before its target.
pub open spec fn is_topological_order(order: Seq<usize>, n: nat, edges: Seq<(usize, usize)>) -> bool {
    &&& order.len() == n
    &&& order.no_duplicates()
    &&& forall|i: int| 0 <= i < order.len() ==> (order[i] as int) < n
    &&& forall|k: int| 0 <= k < edges.len() ==> (edges[k].0 as int) < n
    &&& forall|k: int, i: int, j: int|
        0 <= k < edges.len() && 0 <= i < order.len() && 0 <= j < order.len() && order[i]
            == edges[k].0 && order[j] == edges[k].1 ==> i < j
}

/// Some order of the nodes respects every edge.
pub open spec fn has_topological_order(n: nat, edges: Seq<(usize, usize)>) -> bool {
    exists|order: Seq<usize>| is_topological_order(order, n, edges)
}

/// Number of edges into `v` whose source is not in `done`.
pub open spec fn pending_in(edges: Seq<(usize, usize)>, v: usize, done: Set<usize>) -> nat
    decreases edges.len(),
{
    if edges.len() == 0 {
        0
    } else {
        pending_in(edges.drop_last(), v, done) + if edges.last().1 == v && !done.contains(
            edges.last().0,
        ) {
            1nat
        } else {
            0nat
        }
    }
}

proof fn lemma_pending_push(edges: Seq<(usize, usize)>, e: (usize, usize), v: usize, done: Set<usize>)
    ensures
        pending_in(edges.push(e), v, done) == pending_in(edges, v, done) + if e.1 == v
            && !done.contains(e.0) {
            1nat
        } else {
            0nat
        },
{
    assert(edges.push(e).drop_last() == edges);
}

proof fn lemma_pending_take_step(edges: Seq<(usize, usize)>, k: int, v: usize, done: Set<usize>)
    requires
        0 <= k < edges.len(),
    ensures
        pending_in(edges.take(k + 1), v, done) == pending_in(edges.take(k), v, done) + if edges[k].1
            == v && !done.contains(edges[k].0) {
            1nat
        } else {
            0nat
        },
{
    assert(edges.take(k + 1) == edges.take(k).push(edges[k]));
    lemma_pending_push(edges.take(k), edges[k], v, done);
}

proof fn lemma_pending_take_le(edges: Seq<(usize, usize)>, k: int, v: usize, done: Set<usize>)
    requires
        0 <= k <= edges.len(),
    ensures
        pending_in(edges.take(k), v, done) <= pending_in(edges, v, done),
        pending_in(edges.take(k), v, done) <= k,
    decreases edges.len() - k,
{
    lemma_pending_le_len(edges.take(k), v, done);
    if k == edges.len() {
        assert(edges.take(k) == edges);
    } else {
        lemma_pending_take_step(edges, k, v, done);
        lemma_pending_take_le(edges, k + 1, v, done);
    }
}

proof fn lemma_pending_le_len(edges: Seq<(usize, usize)>, v: usize, done: Set<usize>)
    ensures
        pending_in(edges, v, done) <= edges.len(),
    decreases edges.len(),
{
    if edges.len() > 0 {
        lemma_pending_le_len(edges.drop_last(), v, done);
    }
}

/// `pending_in` is zero exactly when every edge into `v` has its source done.
proof fn lemma_pending_zero(edges: Seq<(usize, usize)>, v: usize, done: Set<usize>)
    ensures
        pending_in(edges, v, done) == 0 <==> forall|k: int|
            0 <= k < edges.len() && edges[k].1 == v ==> done.contains(#[trigger] edges[k].0),
    decreases edges.len(),
{
    if edges.len() > 0 {
        let init = edges.drop_last();
        lemma_pending_zero(init, v, done);
        if pending_in(edges, v, done) == 0 {
            assert forall|k: int|
                0 <= k < edges.len() && edges[k].1 == v implies done.contains(
                #[trigger] edges[k].0,
            ) by {
                if k < edges.len() - 1 {
                    assert(init[k] == edges[k]);
                }
            }
        } else {
            if forall|k: int|
                0 <= k < edges.len() && edges[k].1 == v ==> done.contains(#[trigger] edges[k].0) {
                assert forall|k: int|
                    0 <= k < init.len() && init[k].1 == v implies done.contains(
                    #[trigger] init[k].0,
                ) by {
                    assert(init[k] == edges[k]);
                }
                let l = edges.len() - 1;
                assert(edges[l] == edges.last());
                if edges.last().1 == v {
                    assert(done.contains(edges[l].0));
                }
            }
        }
    }
}

/// Adding a node to `done` lowers the count by the number of edges from it.
proof fn lemma_pending_mono(edges: Seq<(usize, usize)>, v: usize, done: Set<usize>, u: usize)
    ensures
        pending_in(edges, v, done.insert(u)) <= pending_in(edges, v, done),
    decreases edges.len(),
{
    if edges.len() > 0 {
        lemma_pending_mono(edges.drop_last(), v, done, u);
    }
}

// ---------------------------------------------------------------------------
// Counting lemmas about sequences of node numbers
// ---------------------------------------------------------------------------

pub open spec fn all_below(s: Seq<usize>, n: nat) -> bool {
    forall|i: int| 0 <= i < s.len() ==> (s[i] as int) < n
}

proof fn lemma_push_contains(s: Seq<usize>, x: usize)
    ensures
        forall|w: usize| #[trigger] s.push(x).contains(w) <==> (s.contains(w) || w == x),
{
    assert forall|w: usize| #[trigger] s.push(x).contains(w) <==> (s.contains(w) || w == x) by {
        if s.contains(w) {
            let j = choose|j: int| 0 <= j < s.len() && s[j] == w;
            assert(s.push(x)[j] == w);
        }
        if w == x {
            assert(s.push(x)[s.len() as int] == w);
        }
        if s.push(x).contains(w) {
            let j = choose|j: int| 0 <= j < s.len() + 1 && s.push(x)[j] == w;
            if j < s.len() {
                assert(s[j] == w);
            }
        }
    }
}

pub(crate) proof fn lemma_nodup_len_bound(s: Seq<usize>, m: nat)
    requires
        m <= usize::MAX,
        s.no_duplicates(),
        all_below(s, m),
    ensures
        s.len() <= m,
    decreases m,
{
    if m == 0 {
        if s.len() > 0 {
            assert((s[0] as int) < 0);
        }
    } else {
        let top = (m - 1) as usize;
        if s.contains(top) {
            let idx = choose|i: int| 0 <= i < s.len() && s[i] == top;
            let t = s.remove(idx);
            assert forall|i: int, j: int| 0 <= i < t.len() && 0 <= j < t.len() && i != j implies t[i]
                != t[j] by {
                let si = if i < idx { i } else { i + 1 };
                let sj = if j < idx { j } else { j + 1 };
                assert(t[i] == s[si]);
                assert(t[j] == s[sj]);
            }
            assert forall|i: int| 0 <= i < t.len() implies (t[i] as int) < m - 1 by {
                let si = if i < idx { i } else { i + 1 };
                assert(t[i] == s[si]);
                assert(si != idx);
            }
            lemma_nodup_len_bound(t, (m - 1) as nat);
        } else {
            assert forall|i: int| 0 <= i < s.len() implies (s[i] as int) < m - 1 by {
                assert(s[i] != top);
            }
            lemma_nodup_len_bound(s, (m - 1) as nat);
        }
    }
}

/// A duplicate-free list of `n` node numbers below `n` names every node.
proof fn lemma_full_perm(s: Seq<usize>, n: nat, v: usize)
    requires
        n <= usize::MAX,
        s.no_duplicates(),
        all_below(s, n),
        s.len() == n,
        (v as int) < n,
    ensures
        s.contains(v),
{
    if !s.contains(v) {
        let t = s.map_values(|w: usize| if w > v { (w - 1) as usize } else { w });
        assert forall|i: int| 0 <= i < t.len() implies (t[i] as int) < n - 1 by {
            assert(s[i] != v);
        }
        assert forall|i: int, j: int| 0 <= i < t.len() && 0 <= j < t.len() && i != j implies t[i]
            != t[j] by {
            assert(s[i] != v);
            assert(s[j] != v);
            assert(s[i] != s[j]);
        }
        lemma_nodup_len_bound(t, (n - 1) as nat);
    }
}

/// A duplicate-free list of fewer than `n` node numbers misses one.
pub(crate) proof fn lemma_missing_node(s: Seq<usize>, n: nat) -> (v: usize)
    requires
        n <= usize::MAX,
        s.no_duplicates(),
        all_below(s, n),
        s.len() < n,
    ensures
        (v as int) < n,
        !s.contains(v),
    decreases n,
{
    let top = (n - 1) as usize;
    if !s.contains(top) {
        top
    } else {
        let idx = choose|i: int| 0 <= i < s.len() && s[i] == top;
        let t = s.remove(idx);
        assert forall|i: int, j: int| 0 <= i < t.len() && 0 <= j < t.len() && i != j implies t[i]
            != t[j] by {
            let si = if i < idx { i } else { i + 1 };
            let sj = if j < idx { j } else { j + 1 };
            assert(t[i] == s[si]);
            assert(t[j] == s[sj]);
        }
        assert forall|i: int| 0 <= i < t.len() implies (t[i] as int) < n - 1 by {
            let si = if i < idx { i } else { i + 1 };
            assert(t[i] == s[si]);
            assert(si != idx);
        }
        let v = lemma_missing_node(t, (n - 1) as nat);
        if s.contains(v) {
            let j = choose|i: int| 0 <= i < s.len() && s[i] == v;
            assert(s[j] == v);
            assert(j != idx);
            let tj = if j < idx { j } else { j - 1 };
            assert(t[tj] == s[j]);
        }
        v
    }
}

/// When some node outside `done` still waits on an edge from outside `done`
/// for every such node, no order of the nodes respects the edges.
proof fn lemma_stuck_no_order(n: nat, edges: Seq<(usize, usize)>, done: Set<usize>, w: usize)
    requires
        n <= usize::MAX,
        (w as int) < n,
        !done.contains(w),
        forall|v: usize| (v as int) < n && !done.contains(v) ==> pending_in(edges, v, done) > 0,
    ensures
        !has_topological_order(n, edges),
{
    if has_topological_order(n, edges) {
        let order = choose|order: Seq<usize>| is_topological_order(order, n, edges);
        lemma_full_perm(order, n, w);
        // The first position of the order that holds a node outside `done`.
        let first = first_outside(order, done);
        let v = order[first];
        lemma_pending_zero(edges, v, done);
        let k = choose|k: int|
            0 <= k < edges.len() && edges[k].1 == v && !done.contains(#[trigger] edges[k].0);
        let a = edges[k].0;
        assert((a as int) < n);
        lemma_full_perm(order, n, a);
        let j = order.index_of(a);
        assert(j < first);
        assert(done.contains(order[j]));
    }
}

proof fn first_outside(order: Seq<usize>, done: Set<usize>) -> (i: int)
    requires
        exists|j: int| 0 <= j < order.len() && !done.contains(order[j]),
    ensures
        0 <= i < order.len(),
        !done.contains(order[i]),
        forall|j: int| 0 <= j < i ==> done.contains(order[j]),
    decreases order.len(),
{
    let l = order.len() - 1;
    if forall|j: int| 0 <= j < l ==> done.contains(order[j]) {
        if done.contains(order[l]) {
            let j = choose|j: int| 0 <= j < order.len() && !done.contains(order[j]);
            assert(false);
        }
        l
    } else {
        let init = order.drop_last();
        assert(exists|j: int| 0 <= j < init.len() && !done.contains(init[j])) by {
            let j = choose|j: int| 0 <= j < l && !done.contains(order[j]);
            assert(init[j] == order[j]);
        }
        let i = first_outside(init, done);
        assert forall|j: int| 0 <= j < i implies done.contains(order[j]) by {
            assert(init[j] == order[j]);
        }
        assert(init[i] == order[i]);
        i
    }
}

/// The nodes below `k`, ascending, that are not done and wait on no edge.
pub open spec fn ready_nodes(k: nat, edges: Seq<(usize, usize)>, done: Set<usize>) -> Seq<usize>
    decreases k,
{
    if k == 0 {
        Seq::empty()
    } else {
        let v = (k - 1) as usize;
        let r = ready_nodes((k - 1) as nat, edges, done);
        if !done.contains(v) && pending_in(edges, v, done) == 0 {
            r.push(v)
        } else {
            r
        }
    }
}

proof fn lemma_ready_nodes(k: nat, edges: Seq<(usize, usize)>, done: Set<usize>)
    requires
        k <= usize::MAX + 1,
    ensures
        ready_nodes(k, edges, done).no_duplicates(),
        all_below(ready_nodes(k, edges, done), k),
        forall|v: usize|
            #[trigger] ready_nodes(k, edges, done).contains(v) <==> ((v as int) < k && !done.contains(
                v,
            ) && pending_in(edges, v, done) == 0),
    decreases k,
{
    if k > 0 {
        let v = (k - 1) as usize;
        let r = ready_nodes((k - 1) as nat, edges, done);
        lemma_ready_nodes((k - 1) as nat, edges, done);
        lemma_push_contains(r, v);
    }
}

/// The nodes in the first `l` levels.
pub open spec fn levels_done(levels: Seq<Seq<usize>>, l: int) -> Set<usize> {
    levels.take(l).flatten().to_set()
}

/// `lv` lists the nodes level by level: together they form an order that
/// respects every edge, and each level holds, ascending, every node not in an
/// earlier level whose dependencies all lie in earlier levels.
pub open spec fn are_execution_levels(lv: Seq<Seq<usize>>, n: nat, edges: Seq<(usize, usize)>) -> bool {
    &&& is_topological_order(lv.flatten(), n, edges)
    &&& forall|l: int|
        0 <= l < lv.len() ==> lv[l] == ready_nodes(n, edges, levels_done(lv, l)) && lv[l].len() > 0
}

// ---------------------------------------------------------------------------
// The graph
// ---------------------------------------------------------------------------

/// A dependency graph over a list of nodes.
#[derive(Debug)]
pub struct DependencyGraph<T> {
    nodes: Vec<T>,
    /// `(from, to)` pairs in the order they were added.
    edges: Vec<(usize, usize)>,
}

impl<T> DependencyGraph<T> {
    /// The nodes of the graph.
    pub closed spec fn node_seq(&self) -> Seq<T> {
        self.nodes@
    }

    /// The edges `(from, to)`, in the order they were added.
    pub closed spec fn edge_seq(&self) -> Seq<(usize, usize)> {
        self.edges@
    }

    pub open spec fn node_count(&self) -> nat {
        self.node_seq().len()
    }

    /// Every edge ends at a node of the graph.
    pub open spec fn targets_in_range(&self) -> bool {
        forall|k: int| 0 <= k < self.edge_seq().len() ==> (self.edge_seq()[k].1 as int) < self.node_count()
    }

    pub fn new(nodes: Vec<T>) -> (g: Self)
        ensures
            g.node_seq() == nodes@,
            g.edge_seq() == Seq::<(usize, usize)>::empty(),
    {
        DependencyGraph { nodes, edges: Vec::new() }
    }

    /// Record that `to` depends on `from`.
    pub fn add_dependency(&mut self, from: usize, to: usize)
        ensures
            final(self).node_seq() == old(self).node_seq(),
            final(self).edge_seq() == old(self).edge_seq().push((from, to)),
    {
        self.edges.push((from, to));
    }

    pub fn get_node(&self, index: usize) -> (r: Option<&T>)
        ensures
            match r {
                Some(t) => (index as int) < self.node_count() && *t == self.node_seq()[index as int],
                None => (index as int) >= self.node_count(),
            },
    {
        if index < self.nodes.len() {
            Some(&self.nodes[index])
        } else {
            None
        }
    }

    /// In-degree of every node, counting every edge.
    fn initial_in_degrees(&self) -> (deg: Vec<usize>)
        requires
            self.targets_in_range(),
        ensures
            deg@.len() == self.node_count(),
            forall|v: int|
                0 <= v < self.node_count() ==> deg@[v] == pending_in(
                    self.edge_seq(),
                    v as usize,
                    Set::empty(),
                ),
    {
        let n = self.nodes.len();
        let mut deg: Vec<usize> = Vec::new();
        let mut i: usize = 0;
        while i < n
            invariant
                i <= n,
                n == self.nodes@.len(),
                deg@.len() == i,
                forall|v: int| 0 <= v < i ==> deg@[v] == 0,
            decreases n - i,
        {
            deg.push(0);
            i = i + 1;
        }
        let ghost edges = self.edges@;
        let mut k: usize = 0;
        while k < self.edges.len()
            invariant
                k <= edges.len(),
                edges == self.edges@,
                n == self.nodes@.len(),
                deg@.len() == n,
                self.targets_in_range(),
                forall|v: int|
                    0 <= v < n ==> deg@[v] == pending_in(edges.take(k as int), v as usize, Set::empty()),
            decreases edges.len() - k,
        {
            let to = self.edges[k].1;
            proof {
                assert(self.edge_seq()[k as int] == edges[k as int]);
                assert((to as int) < n);
                assert(deg@[to as int] == pending_in(edges.take(k as int), to, Set::empty()));
                assert forall|v: int| 0 <= v < n implies #[trigger] pending_in(
                    edges.take(k + 1),
                    v as usize,
                    Set::empty(),
                ) == pending_in(edges.take(k as int), v as usize, Set::empty()) + if v == to {
                    1nat
                } else {
                    0nat
                } by {
                    lemma_pending_take_step(edges, k as int, v as usize, Set::empty());
                }
                lemma_pending_take_le(edges, k + 1, to, Set::empty());
            }
            let d = deg[to];
            deg.set(to, d + 1);
            k = k + 1;
        }
        assert(edges.take(edges.len() as int) == edges);
        deg
    }

    /// Lower the in-degree of every target of an edge leaving `u`.
    fn release(&self, deg: &mut Vec<usize>, u: usize, done: Ghost<Set<usize>>)
        requires
            self.targets_in_range(),
            old(deg)@.len() == self.node_count(),
            !done@.contains(u),
            forall|v: int|
                0 <= v < self.node_count() ==> old(deg)@[v] == pending_in(
                    self.edge_seq(),
                    v as usize,
                    done@,
                ),
        ensures
            final(deg)@.len() == self.node_count(),
            forall|v: int|
                0 <= v < self.node_count() ==> final(deg)@[v] == pending_in(
                    self.edge_seq(),
                    v as usize,
                    done@.insert(u),
                ),
    {
        let ghost edges = self.edges@;
        let ghost d2 = done@.insert(u);
        let n = self.nodes.len();
        let mut k: usize = 0;
        while k < self.edges.len()
            invariant
                k <= edges.len(),
                edges == self.edges@,
                n == self.nodes@.len(),
                deg@.len() == n,
                self.targets_in_range(),
                !done@.contains(u),
                d2 == done@.insert(u),
                forall|v: int|
                    0 <= v < n ==> deg@[v] + pending_in(edges.take(k as int), v as usize, done@)
                        == pending_in(edges, v as usize, done@) + pending_in(
                        edges.take(k as int),
                        v as usize,
                        d2,
                    ),
            decreases edges.len() - k,
        {
            let (from, to) = self.edges[k];
            proof {
                assert(self.edge_seq()[k as int] == edges[k as int]);
                assert forall|v: int| 0 <= v < n implies {
                    &&& #[trigger] pending_in(edges.take(k + 1), v as usize, done@) == pending_in(
                        edges.take(k as int),
                        v as usize,
                        done@,
                    ) + if to == v && !done@.contains(from) {
                        1nat
                    } else {
                        0nat
                    }
                    &&& pending_in(edges.take(k + 1), v as usize, d2) == pending_in(
                        edges.take(k as int),
                        v as usize,
                        d2,
                    ) + if to == v && !d2.contains(from) {
                        1nat
                    } else {
                        0nat
                    }
                } by {
                    lemma_pending_take_step(edges, k as int, v as usize, done@);
                    lemma_pending_take_step(edges, k as int, v as usize, d2);
                }
                lemma_pending_take_le(edges, k + 1, to, done@);
            }
            if from == u {
                let d = deg[to];
                proof {
                    assert(deg@[to as int] + pending_in(edges.take(k as int), to, done@)
                        == pending_in(edges, to, done@) + pending_in(edges.take(k as int), to, d2));
                }
                deg.set(to, d - 1);
            }
            k = k + 1;
        }
        assert(edges.take(edges.len() as int) == edges);
    }

    /// The nodes grouped into levels that can run in parallel: each level holds,
    /// in ascending order, every node not in an earlier level whose
    /// dependencies all lie in earlier levels.
    pub fn get_execution_levels(&self) -> (r: Result<Vec<Vec<usize>>, String>)
        requires
            self.targets_in_range(),
        ensures
            match r {
                Ok(levels) => are_execution_levels(
                    levels@.map_values(|l: Vec<usize>| l@),
                    self.node_count(),
                    self.edge_seq(),
                ),
                Err(msg) => !has_topological_order(self.node_count(), self.edge_seq()) && msg@
                    == "Circular dependency detected"@,
            },
    {
        let n = self.nodes.len();
        let ghost edges = self.edges@;
        let mut deg = self.initial_in_degrees();
        let mut processed: Vec<bool> = Vec::new();
        let mut i: usize = 0;
        while i < n
            invariant
                i <= n,
                processed@.len() == i,
                forall|v: int| 0 <= v < i ==> !processed@[v],
            decreases n - i,
        {
            processed.push(false);
            i = i + 1;
        }
        let mut levels: Vec<Vec<usize>> = Vec::new();
        let mut count: usize = 0;
        let ghost mut flat: Seq<usize> = Seq::empty();
        let ghost mut done: Set<usize> = Set::empty();
        proof {
            assert(levels@.map_values(|l: Vec<usize>| l@) == Seq::<Seq<usize>>::empty());
            assert(flat.to_set() == done);
        }
        while count < n
            invariant
                n == self.nodes@.len(),
                edges == self.edges@,
                self.targets_in_range(),
                deg@.len() == n,
                processed@.len() == n,
                flat == levels@.map_values(|l: Vec<usize>| l@).flatten(),
                count == flat.len(),
                count <= n,
                done == flat.to_set(),
                flat.no_duplicates(),
                all_below(flat, n as nat),
                forall|v: int| 0 <= v < n ==> (processed@[v] <==> done.contains(v as usize)),
                forall|v: int| 0 <= v < n ==> deg@[v] == pending_in(edges, v as usize, done),
                forall|l: int|
                    0 <= l < levels@.len() ==> levels@[l]@ == ready_nodes(
                        n as nat,
                        edges,
                        levels_done(levels@.map_values(|l: Vec<usize>| l@), l),
                    ) && levels@[l]@.len() > 0,
                forall|i: int, k: int|
                    0 <= i < flat.len() && 0 <= k < edges.len() && edges[k].1 == flat[i]
                        ==> exists|j: int| 0 <= j < i && flat[j] == edges[k].0,
            decreases n - count,
        {
            let mut current: Vec<usize> = Vec::new();
            let mut v: usize = 0;
            while v < n
                invariant
                    v <= n,
                    n == self.nodes@.len(),
                    deg@.len() == n,
                    processed@.len() == n,
                    forall|w: int| 0 <= w < n ==> (processed@[w] <==> done.contains(w as usize)),
                    forall|w: int| 0 <= w < n ==> deg@[w] == pending_in(edges, w as usize, done),
                    current@ == ready_nodes(v as nat, edges, done),
                decreases n - v,
            {
                if !processed[v] && deg[v] == 0 {
                    current.push(v);
                }
                v = v + 1;
            }
            proof {
                lemma_ready_nodes(n as nat, edges, done);
                lemma_nodup_len_bound(flat, n as nat);
            }
            if current.len() == 0 {
                proof {
                    let w = lemma_missing_node(flat, n as nat);
                    assert forall|x: usize| (x as int) < n && !done.contains(x) implies pending_in(
                        edges,
                        x,
                        done,
                    ) > 0 by {
                        if pending_in(edges, x, done) == 0 {
                            assert(current@.contains(x));
                        }
                    }
                    lemma_stuck_no_order(n as nat, edges, done, w);
                }
                return Err(String::from_str("Circular dependency detected"));
            }
            let ghost level = current@;
            let ghost old_done = done;
            let ghost old_flat = flat;
            // Mark the level done and release its edges, node by node.
            let mut j: usize = 0;
            while j < current.len()
                invariant
                    n == self.nodes@.len(),
                    edges == self.edges@,
                    self.targets_in_range(),
                    current@ == level,
                    level == ready_nodes(n as nat, edges, old_done),
                    level.no_duplicates(),
                    all_below(level, n as nat),
                    j <= level.len(),
                    deg@.len() == n,
                    processed@.len() == n,
                    done == old_done + level.take(j as int).to_set(),
                    forall|w: int| 0 <= w < n ==> (processed@[w] <==> done.contains(w as usize)),
                    forall|w: int| 0 <= w < n ==> deg@[w] == pending_in(edges, w as usize, done),
                    forall|w: usize| #[trigger] level.contains(w) ==> !old_done.contains(w),
                decreases level.len() - j,
            {
                let u = current[j];
                proof {
                    assert(level.contains(u));
                    assert(!done.contains(u)) by {
                        if level.take(j as int).to_set().contains(u) {
                            let jj = choose|jj: int| 0 <= jj < j && level.take(j as int)[jj] == u;
                            assert(level[jj] == level[j as int]);
                        }
                    }
                }
                self.release(&mut deg, u, Ghost(done));
                processed.set(u, true);
                proof {
                    assert(level.take(j + 1).to_set() == level.take(j as int).to_set().insert(u)) by {
                        assert(level.take(j + 1) == level.take(j as int).push(u));
                        lemma_push_contains(level.take(j as int), u);
                    }
                    done = done.insert(u);
                    assert(done == old_done + level.take(j + 1).to_set());
                }
                j = j + 1;
            }
            let ghost lv_old = levels@.map_values(|l: Vec<usize>| l@);
            let level_len = current.len();
            levels.push(current);
            proof {
                assert(level.take(level.len() as int) == level);
                let lv = levels@.map_values(|l: Vec<usize>| l@);
                assert(lv == lv_old.push(level));
                lv_old.lemma_flatten_push(level);
                flat = old_flat + level;
                assert(flat == lv.flatten());
                assert(flat.to_set() == done) by {
                    assert forall|x: usize| flat.to_set().contains(x) <==> done.contains(x) by {
                        if flat.to_set().contains(x) {
                            let i = choose|i: int| 0 <= i < flat.len() && flat[i] == x;
                            if i < old_flat.len() {
                                assert(old_flat[i] == x);
                            } else {
                                assert(level[i - old_flat.len()] == x);
                                assert(level.take(level.len() as int).to_set().contains(x));
                            }
                        }
                        if done.contains(x) {
                            if old_done.contains(x) {
                                let i = choose|i: int| 0 <= i < old_flat.len() && old_flat[i] == x;
                                assert(flat[i] == x);
                            } else {
                                assert(level.take(level.len() as int).to_set().contains(x));
                                let i = choose|i: int| 0 <= i < level.len() && level[i] == x;
                                assert(flat[old_flat.len() + i] == x);
                            }
                        }
                    }
                }
                assert(flat.no_duplicates()) by {
                    assert forall|a: int, b: int| 0 <= a < flat.len() && 0 <= b < flat.len() && a != b
                        implies flat[a] != flat[b] by {
                        if a >= old_flat.len() && b < old_flat.len() {
                            assert(level.contains(flat[a]));
                            assert(old_done.contains(flat[b]));
                        } else if a < old_flat.len() && b >= old_flat.len() {
                            assert(level.contains(flat[b]));
                            assert(old_done.contains(flat[a]));
                        } else if a >= old_flat.len() && b >= old_flat.len() {
                            assert(flat[a] == level[a - old_flat.len()]);
                            assert(flat[b] == level[b - old_flat.len()]);
                        }
                    }
                }
                assert forall|l: int|
                    0 <= l < levels@.len() implies levels@[l]@ == ready_nodes(
                        n as nat,
                        edges,
                        levels_done(lv, l),
                    ) && levels@[l]@.len() > 0 by {
                    if l < lv_old.len() {
                        assert(lv.take(l) == lv_old.take(l));
                    } else {
                        assert(lv.take(l) == lv_old);
                        assert(old_flat.to_set() == old_done);
                    }
                }
                assert forall|i: int, k: int|
                    0 <= i < flat.len() && 0 <= k < edges.len() && edges[k].1 == flat[i]
                        implies exists|j: int| 0 <= j < i && flat[j] == edges[k].0 by {
                    if i < old_flat.len() {
                        let j = choose|j: int| 0 <= j < i && old_flat[j] == edges[k].0;
                        assert(flat[j] == edges[k].0);
                    } else {
                        let x = flat[i];
                        assert(level.contains(x));
                        lemma_pending_zero(edges, x, old_done);
                        assert(old_done.contains(edges[k].0));
                        let j = choose|j: int| 0 <= j < old_flat.len() && old_flat[j] == edges[k].0;
                        assert(flat[j] == edges[k].0);
                    }
                }
                lemma_nodup_len_bound(flat, n as nat);
            }
            count = count + level_len;
        }
        proof {
            let lv = levels@.map_values(|l: Vec<usize>| l@);
            assert forall|k: int| 0 <= k < edges.len() implies (edges[k].0 as int) < n by {
                let b = edges[k].1;
                assert(self.edge_seq()[k] == edges[k]);
                lemma_full_perm(flat, n as nat, b);
                let i = choose|i: int| 0 <= i < flat.len() && flat[i] == b;
                let j = choose|j: int| 0 <= j < i && flat[j] == edges[k].0;
            }
            assert forall|k: int, i: int, j: int|
                0 <= k < edges.len() && 0 <= i < flat.len() && 0 <= j < flat.len()
                    && flat[i] == edges[k].0 && flat[j] == edges[k].1 implies i < j by {
                let jj = choose|jj: int| 0 <= jj < j && flat[jj] == edges[k].0;
                assert(jj == i);
            }
        }
        Ok(levels)
    }

    /// Topological sort using Kahn's algorithm: the nodes in an order in which
    /// they can be executed.
    pub fn topological_sort(&self) -> (r: Result<Vec<usize>, String>)
        requires
            self.targets_in_range(),
        ensures
            match r {
                Ok(order) => is_topological_order(order@, self.node_count(), self.edge_seq()),
                Err(msg) => !has_topological_order(self.node_count(), self.edge_seq()) && msg@
                    == "Circular dependency detected"@,
            },
    {
        let order = self.kahn_order();
        if order.len() != self.nodes.len() {
            return Err(String::from_str("Circular dependency detected"));
        }
        Ok(order)
    }

    /// The nodes in the order in which Kahn's algorithm releases them: the
    /// nodes without pending dependencies in ascending order, then each node
    /// as its last dependency is released.  Every node appears at most once,
    /// after all of its dependencies; all nodes appear exactly when some
    /// order respects every edge.
    pub fn kahn_order(&self) -> (r: Vec<usize>)
        requires
            self.targets_in_range(),
        ensures
            r@.no_duplicates(),
            all_below(r@, self.node_count()),
            forall|i: int, k: int|
                0 <= i < r@.len() && 0 <= k < self.edge_seq().len() && self.edge_seq()[k].1 == r@[i]
                    ==> exists|j: int| 0 <= j < i && r@[j] == self.edge_seq()[k].0,
            r@.len() == self.node_count() ==> is_topological_order(r@, self.node_count(), self.edge_seq()),
            r@.len() != self.node_count() ==> !has_topological_order(self.node_count(), self.edge_seq()),
    {
        let n = self.nodes.len();
        let ghost edges = self.edges@;
        let mut deg = self.initial_in_degrees();
        let mut queue: Vec<usize> = Vec::new();
        let mut v: usize = 0;
        while v < n
            invariant
                v <= n,
                n == self.nodes@.len(),
                deg@.len() == n,
                queue@.no_duplicates(),
                all_below(queue@, n as nat),
                forall|w: usize| (w as int) < v ==> (queue@.contains(w) <==> deg@[w as int] == 0),
                forall|w: usize| (w as int) >= v ==> !queue@.contains(w),
            decreases n - v,
        {
            assert(!queue@.contains(v));
            let ghost before = queue@;
            if deg[v] == 0 {
                queue.push(v);
                proof {
                    lemma_push_contains(before, v);
                }
            }
            v = v + 1;
        }
        let mut head: usize = 0;
        let mut result: Vec<usize> = Vec::new();
        let ghost mut done: Set<usize> = Set::empty();
        while head < queue.len()
            invariant
                n == self.nodes@.len(),
                edges == self.edges@,
                self.targets_in_range(),
                deg@.len() == n,
                head <= queue@.len(),
                result@ == queue@.take(head as int),
                queue@.no_duplicates(),
                all_below(queue@, n as nat),
                done == result@.to_set(),
                forall|w: int| 0 <= w < n ==> deg@[w] == pending_in(edges, w as usize, done),
                forall|w: usize|
                    (w as int) < n ==> (queue@.contains(w) <==> pending_in(edges, w, done) == 0),
                forall|i: int, k: int|
                    0 <= i < result@.len() && 0 <= k < edges.len() && edges[k].1 == result@[i]
                        ==> exists|j: int| 0 <= j < i && result@[j] == edges[k].0,
            decreases n + 1 - head,
        {
            proof {
                lemma_nodup_len_bound(queue@, n as nat);
            }
            let u = queue[head];
            let ghost old_queue = queue@;
            let ghost old_done = done;
            proof {
                assert(!done.contains(u)) by {
                    if done.contains(u) {
                        let j = choose|j: int| 0 <= j < result@.len() && result@[j] == u;
                        assert(queue@[j] == u);
                    }
                }
                lemma_pending_zero(edges, u, done);
            }
            result.push(u);
            proof {
                assert(result@ == queue@.take(head + 1));
                assert(result@.to_set() == done.insert(u)) by {
                    assert forall|x: usize| result@.to_set().contains(x) <==> done.insert(u).contains(x) by {
                        if result@.to_set().contains(x) {
                            let j = choose|j: int| 0 <= j < result@.len() && result@[j] == x;
                            if j < head {
                                assert(old_done.contains(x)) by {
                                    assert(queue@.take(head as int)[j] == x);
                                }
                            }
                        }
                        if old_done.contains(x) {
                            let j = choose|j: int| 0 <= j < head && queue@.take(head as int)[j] == x;
                            assert(result@[j] == x);
                        }
                        if x == u {
                            assert(result@[head as int] == x);
                        }
                    }
                }
                assert forall|i: int, k: int|
                    0 <= i < result@.len() && 0 <= k < edges.len() && edges[k].1 == result@[i]
                        implies exists|j: int| 0 <= j < i && result@[j] == edges[k].0 by {
                    if i == head {
                        assert(done.contains(edges[k].0));
                        let j = choose|j: int| 0 <= j < head && queue@.take(head as int)[j] == edges[k].0;
                        assert(result@[j] == edges[k].0);
                    } else {
                        let j = choose|j: int| 0 <= j < i && queue@.take(head as int)[j] == edges[k].0;
                        assert(result@[j] == edges[k].0);
                    }
                }
            }
            // Release the edges leaving `u`; enqueue each node whose last
            // pending edge this was.
            let ghost d2 = done.insert(u);
            let mut k: usize = 0;
            while k < self.edges.len()
                invariant
                    n == self.nodes@.len(),
                    edges == self.edges@,
                    self.targets_in_range(),
                    deg@.len() == n,
                    k <= edges.len(),
                    !done.contains(u),
                    d2 == done.insert(u),
                    queue@.no_duplicates(),
                    all_below(queue@, n as nat),
                    queue@.take(old_queue.len() as int) == old_queue,
                    old_queue.len() <= queue@.len(),
                    forall|w: int|
                        0 <= w < n ==> deg@[w] + pending_in(edges.take(k as int), w as usize, done)
                            == pending_in(edges, w as usize, done) + pending_in(
                            edges.take(k as int),
                            w as usize,
                            d2,
                        ),
                    forall|w: usize| (w as int) < n ==> (queue@.contains(w) <==> deg@[w as int] == 0),
                decreases edges.len() - k,
            {
                let (from, to) = self.edges[k];
                proof {
                    assert(self.edge_seq()[k as int] == edges[k as int]);
                    assert((to as int) < n);
                    assert forall|w: int| 0 <= w < n implies {
                        &&& #[trigger] pending_in(edges.take(k + 1), w as usize, done) == pending_in(
                            edges.take(k as int),
                            w as usize,
                            done,
                        ) + if to == w && !done.contains(from) {
                            1nat
                        } else {
                            0nat
                        }
                        &&& pending_in(edges.take(k + 1), w as usize, d2) == pending_in(
                            edges.take(k as int),
                            w as usize,
                            d2,
                        ) + if to == w && !d2.contains(from) {
                            1nat
                        } else {
                            0nat
                        }
                    } by {
                        lemma_pending_take_step(edges, k as int, w as usize, done);
                        lemma_pending_take_step(edges, k as int, w as usize, d2);
                    }
                    lemma_pending_take_le(edges, k + 1, to, done);
                }
                if from == u {
                    let d = deg[to];
                    proof {
                        assert(deg@[to as int] + pending_in(edges.take(k as int), to, done)
                            == pending_in(edges, to, done) + pending_in(edges.take(k as int), to, d2));
                        lemma_pending_take_step(edges, k as int, to, done);
                        lemma_pending_take_step(edges, k as int, to, d2);
                    }
                    deg.set(to, d - 1);
                    if d - 1 == 0 {
                        let ghost before = queue@;
                        queue.push(to);
                        proof {
                            lemma_push_contains(before, to);
                            assert(queue@.take(old_queue.len() as int) == old_queue) by {
                                assert(queue@.take(old_queue.len() as int) == before.take(
                                    old_queue.len() as int,
                                ));
                            }
                        }
                    }
                }
                k = k + 1;
            }
            proof {
                assert(edges.take(edges.len() as int) == edges);
                done = d2;
                assert(result@ == queue@.take(head + 1));
            }
            head = head + 1;
        }
        if result.len() != n {
            proof {
                lemma_nodup_len_bound(queue@, n as nat);
                assert(result@.no_duplicates());
                let w = lemma_missing_node(result@, n as nat);
                assert forall|v: usize| (v as int) < n && !done.contains(v) implies pending_in(
                    edges,
                    v,
                    done,
                ) > 0 by {
                    if pending_in(edges, v, done) == 0 {
                        assert(queue@.contains(v));
                        let j = choose|j: int| 0 <= j < queue@.len() && queue@[j] == v;
                        assert(result@[j] == v);
                    }
                }
                lemma_stuck_no_order(n as nat, edges, done, w);
                assert(all_below(result@, n as nat)) by {
                    assert forall|i: int| 0 <= i < result@.len() implies (result@[i] as int) < n by {
                        assert(result@[i] == queue@[i]);
                    }
                }
            }
            return result;
        }
        proof {
            assert forall|k: int| 0 <= k < edges.len() implies (edges[k].0 as int) < n by {
                let b = edges[k].1;
                assert(self.edge_seq()[k] == edges[k]);
                lemma_full_perm(result@, n as nat, b);
                let i = result@.index_of(b);
                let j = choose|j: int| 0 <= j < i && result@[j] == edges[k].0;
            }
            assert forall|k: int, i: int, j: int|
                0 <= k < edges.len() && 0 <= i < result@.len() && 0 <= j < result@.len()
                    && result@[i] == edges[k].0 && result@[j] == edges[k].1 implies i < j by {
                let jj = choose|jj: int| 0 <= jj < j && result@[jj] == edges[k].0;
                assert(jj == i);
            }
            lemma_nodup_len_bound(queue@, n as nat);
            assert(result@.no_duplicates());
        }
        result
    }
}

proof fn lemma_levels_done_step(lv: Seq<Seq<usize>>, k: int)
    requires
        0 < k <= lv.len(),
    ensures
        forall|x: usize|
            #[trigger] levels_done(lv, k).contains(x) <==> (levels_done(lv, k - 1).contains(x)
                || lv[k - 1].contains(x)),
{
    let a = lv.take(k - 1);
    assert(lv.take(k) =~= a.push(lv[k - 1]));
    a.lemma_flatten_push(lv[k - 1]);
    let f = a.flatten();
    let b = lv[k - 1];
    assert forall|x: usize| #[trigger] levels_done(lv, k).contains(x) <==> (levels_done(
        lv,
        k - 1,
    ).contains(x) || lv[k - 1].contains(x)) by {
        if f.contains(x) {
            let j = choose|j: int| 0 <= j < f.len() && f[j] == x;
            assert((f + b)[j] == x);
        }
        if b.contains(x) {
            let j = choose|j: int| 0 <= j < b.len() && b[j] == x;
            assert((f + b)[f.len() + j] == x);
        }
        if (f + b).contains(x) {
            let j = choose|j: int| 0 <= j < (f + b).len() && (f + b)[j] == x;
            if j < f.len() {
                assert(f[j] == x);
            } else {
                assert(b[j - f.len()] == x);
            }
        }
    }
}

proof fn lemma_node_count_bound<T>(g: &DependencyGraph<T>)
    ensures
        g.node_count() <= usize::MAX,
{
    assert(g.nodes.len() == g.nodes@.len());
}

/// Each node in a level after the first depends on some node of the level
/// just before it.
pub proof fn lemma_level_follows_previous<T>(g: &DependencyGraph<T>, lv: Seq<Seq<usize>>, k: int, i: int)
    requires
        are_execution_levels(lv, g.node_count(), g.edge_seq()),
        0 < k < lv.len(),
        0 <= i < lv[k].len(),
    ensures
        exists|e: int|
            0 <= e < g.edge_seq().len() && #[trigger] g.edge_seq()[e].1 == lv[k][i] && lv[k
                - 1].contains(g.edge_seq()[e].0),
{
    let n = g.node_count();
    let edges = g.edge_seq();
    lemma_node_count_bound(g);
    let done_prev = levels_done(lv, k - 1);
    let done = levels_done(lv, k);
    lemma_ready_nodes(n, edges, done_prev);
    lemma_ready_nodes(n, edges, done);
    lemma_levels_done_step(lv, k);
    let v = lv[k][i];
    assert(lv[k].contains(v));
    assert(ready_nodes(n, edges, done).contains(v));
    assert(!done.contains(v));
    assert(!done_prev.contains(v));
    assert(!lv[k - 1].contains(v));
    assert(!ready_nodes(n, edges, done_prev).contains(v));
    lemma_pending_zero(edges, v, done_prev);
    lemma_pending_zero(edges, v, done);
    let e = choose|e: int| 0 <= e < edges.len() && edges[e].1 == v && !done_prev.contains(#[trigger] edges[e].0);
    assert(done.contains(edges[e].0));
}

/// Some level lists node `v`.
pub open spec fn in_some_level(lv: Seq<Seq<usize>>, v: usize) -> bool {
    exists|l: int| 0 <= l < lv.len() && #[trigger] lv[l].contains(v)
}

proof fn lemma_levels_done_exists(lv: Seq<Seq<usize>>, k: int)
    requires
        0 <= k <= lv.len(),
    ensures
        forall|x: usize| #[trigger] levels_done(lv, k).contains(x) <==> exists|l: int| 0 <= l < k && lv[l].contains(x),
    decreases k,
{
    if k == 0 {
        assert(lv.take(0).flatten() =~= Seq::<usize>::empty());
    } else {
        lemma_levels_done_exists(lv, k - 1);
        lemma_levels_done_step(lv, k);
        assert forall|x: usize| #[trigger] levels_done(lv, k).contains(x) <==> exists|l: int|
            0 <= l < k && lv[l].contains(x) by {
            if levels_done(lv, k).contains(x) {
                if levels_done(lv, k - 1).contains(x) {
                    let l = choose|l: int| 0 <= l < k - 1 && lv[l].contains(x);
                } else {
                    assert(lv[k - 1].contains(x));
                }
            }
            if exists|l: int| 0 <= l < k && lv[l].contains(x) {
                let l = choose|l: int| 0 <= l < k && lv[l].contains(x);
                if l < k - 1 {
                    assert(levels_done(lv, k - 1).contains(x));
                }
            }
        }
    }
}

proof fn lemma_ready_ascending(k: nat, edges: Seq<(usize, usize)>, done: Set<usize>)
    requires
        k <= usize::MAX + 1,
    ensures
        forall|i: int, j: int|
            0 <= i < j < ready_nodes(k, edges, done).len() ==> ready_nodes(k, edges, done)[i] < ready_nodes(
                k,
                edges,
                done,
            )[j],
    decreases k,
{
    if k > 0 {
        lemma_ready_ascending((k - 1) as nat, edges, done);
        lemma_ready_nodes((k - 1) as nat, edges, done);
    }
}

/// The levels of a graph split its nodes: every node stands in exactly one
/// level, each level lists its nodes in ascending order, and every edge goes
/// from a node of some level to a node of a later level.
pub proof fn lemma_levels_partition<T>(g: &DependencyGraph<T>, lv: Seq<Seq<usize>>)
    requires
        g.targets_in_range(),
        are_execution_levels(lv, g.node_count(), g.edge_seq()),
    ensures
        forall|v: usize| (v as int) < g.node_count() ==> #[trigger] in_some_level(lv, v),
        forall|l1: int, l2: int, v: usize|
            0 <= l1 < lv.len() && 0 <= l2 < lv.len() && #[trigger] lv[l1].contains(v) && #[trigger] lv[l2].contains(v)
                ==> l1 == l2,
        forall|l: int| 0 <= l < lv.len() ==> (#[trigger] lv[l]).len() > 0 && lv[l].no_duplicates(),
        forall|l: int, i: int, j: int| 0 <= l < lv.len() && 0 <= i < j < lv[l].len() ==> #[trigger] lv[l][i] < #[trigger] lv[l][j],
        forall|e: int|
            0 <= e < g.edge_seq().len() ==> exists|l1: int, l2: int|
                0 <= l1 < l2 < lv.len() && lv[l1].contains(#[trigger] g.edge_seq()[e].0) && lv[l2].contains(
                    g.edge_seq()[e].1,
                ),
{
    let n = g.node_count();
    let edges = g.edge_seq();
    lemma_node_count_bound(g);
    let flat = lv.flatten();
    lemma_levels_done_exists(lv, lv.len() as int);
    assert(lv.take(lv.len() as int) =~= lv);
    assert forall|v: usize| (v as int) < n implies #[trigger] in_some_level(lv, v) by {
        lemma_full_perm(flat, n, v);
        assert(levels_done(lv, lv.len() as int).contains(v));
    }
    assert forall|l1: int, l2: int, v: usize|
        0 <= l1 < lv.len() && 0 <= l2 < lv.len() && #[trigger] lv[l1].contains(v) && #[trigger] lv[l2].contains(v)
            implies l1 == l2 by {
        if l1 != l2 {
            let (a, b) = if l1 < l2 { (l1, l2) } else { (l2, l1) };
            lemma_levels_done_exists(lv, b);
            assert(levels_done(lv, b).contains(v));
            lemma_ready_nodes(n, edges, levels_done(lv, b));
            assert(ready_nodes(n, edges, levels_done(lv, b)).contains(v));
        }
    }
    assert forall|l: int| 0 <= l < lv.len() implies (#[trigger] lv[l]).len() > 0 && lv[l].no_duplicates() by {
        lemma_ready_nodes(n, edges, levels_done(lv, l));
    }
    assert forall|l: int, i: int, j: int| 0 <= l < lv.len() && 0 <= i < j < lv[l].len() implies #[trigger] lv[l][i]
        < #[trigger] lv[l][j] by {
        lemma_ready_ascending(n, edges, levels_done(lv, l));
    }
    assert forall|e: int| 0 <= e < edges.len() implies exists|l1: int, l2: int|
        0 <= l1 < l2 < lv.len() && lv[l1].contains(#[trigger] edges[e].0) && lv[l2].contains(edges[e].1) by {
        let v = edges[e].1;
        lemma_full_perm(flat, n, v);
        assert(levels_done(lv, lv.len() as int).contains(v));
        let l2 = choose|l: int| 0 <= l < lv.len() && lv[l].contains(v);
        let done = levels_done(lv, l2);
        lemma_ready_nodes(n, edges, done);
        assert(ready_nodes(n, edges, done).contains(v));
        lemma_pending_zero(edges, v, done);
        assert(done.contains(edges[e].0));
        lemma_levels_done_exists(lv, l2);
        let l1 = choose|l: int| 0 <= l < l2 && lv[l].contains(edges[e].0);
        assert(0 <= l1 < l2 < lv.len() && lv[l1].contains(edges[e].0) && lv[l2].contains(edges[e].1));
    }
}

proof fn lemma_repeated_edge_pending(edges: Seq<(usize, usize)>, e: (usize, usize), v: usize, done: Set<usize>)
    requires
        edges.contains(e),
    ensures
        (pending_in(edges.push(e), v, done) == 0) == (pending_in(edges, v, done) == 0),
{
    lemma_pending_push(edges, e, v, done);
    lemma_pending_zero(edges, v, done);
    let j = choose|j: int| 0 <= j < edges.len() && edges[j] == e;
    assert(edges[j].0 == e.0);
}

proof fn lemma_repeated_edge_ready(k: nat, edges: Seq<(usize, usize)>, e: (usize, usize), done: Set<usize>)
    requires
        edges.contains(e),
    ensures
        ready_nodes(k, edges.push(e), done) == ready_nodes(k, edges, done),
    decreases k,
{
    if k > 0 {
        lemma_repeated_edge_ready((k - 1) as nat, edges, e, done);
        lemma_repeated_edge_pending(edges, e, (k - 1) as usize, done);
    }
}

proof fn lemma_repeated_edge_order(order: Seq<usize>, n: nat, edges: Seq<(usize, usize)>, e: (usize, usize))
    requires
        edges.contains(e),
    ensures
        is_topological_order(order, n, edges.push(e)) == is_topological_order(order, n, edges),
{
    let e2 = edges.push(e);
    let j0 = choose|j: int| 0 <= j < edges.len() && edges[j] == e;
    assert(e2[edges.len() as int] == edges[j0]);
    if is_topological_order(order, n, edges) {
        assert forall|k: int| 0 <= k < e2.len() implies (e2[k].0 as int) < n by {
            if k < edges.len() {
                assert(e2[k] == edges[k]);
            }
        }
        assert forall|k: int, i: int, j: int|
            0 <= k < e2.len() && 0 <= i < order.len() && 0 <= j < order.len() && order[i] == e2[k].0
                && order[j] == e2[k].1 implies i < j by {
            if k < edges.len() {
                assert(e2[k] == edges[k]);
            } else {
                assert(order[i] == edges[j0].0);
            }
        }
    }
    if is_topological_order(order, n, e2) {
        assert forall|k: int| 0 <= k < edges.len() implies (edges[k].0 as int) < n by {
            assert(e2[k] == edges[k]);
        }
        assert forall|k: int, i: int, j: int|
            0 <= k < edges.len() && 0 <= i < order.len() && 0 <= j < order.len() && order[i]
                == edges[k].0 && order[j] == edges[k].1 implies i < j by {
            assert(e2[k] == edges[k]);
        }
    }
}

/// Adding an edge that the graph already has changes nothing of its levels:
/// the same lists are its levels, and it has an order exactly when it had one.
pub proof fn lemma_repeated_edge_keeps_levels<T>(g: &DependencyGraph<T>, e: (usize, usize), lv: Seq<Seq<usize>>)
    requires
        g.edge_seq().contains(e),
    ensures
        are_execution_levels(lv, g.node_count(), g.edge_seq().push(e)) == are_execution_levels(
            lv,
            g.node_count(),
            g.edge_seq(),
        ),
        has_topological_order(g.node_count(), g.edge_seq().push(e)) == has_topological_order(
            g.node_count(),
            g.edge_seq(),
        ),
{
    let n = g.node_count();
    let edges = g.edge_seq();
    lemma_repeated_edge_order(lv.flatten(), n, edges, e);
    assert forall|l: int| 0 <= l < lv.len() implies #[trigger] ready_nodes(n, edges.push(e), levels_done(lv, l))
        == ready_nodes(n, edges, levels_done(lv, l)) by {
        lemma_repeated_edge_ready(n, edges, e, levels_done(lv, l));
    }
    if has_topological_order(n, edges) {
        let o = choose|o: Seq<usize>| is_topological_order(o, n, edges);
        lemma_repeated_edge_order(o, n, edges, e);
    }
    if has_topological_order(n, edges.push(e)) {
        let o = choose|o: Seq<usize>| is_topological_order(o, n, edges.push(e));
        lemma_repeated_edge_order(o, n, edges, e);
    }
}

/// A graph has at most one list of levels: its nodes and edges decide it.
pub proof fn lemma_execution_levels_unique<T>(g: &DependencyGraph<T>, lv1: Seq<Seq<usize>>, lv2: Seq<Seq<usize>>)
    requires
        are_execution_levels(lv1, g.node_count(), g.edge_seq()),
        are_execution_levels(lv2, g.node_count(), g.edge_seq()),
    ensures
        lv1 == lv2,
{
    lemma_node_count_bound(g);
    if lv1.len() <= lv2.len() {
        lemma_levels_unique_ordered(g, lv1, lv2);
    } else {
        lemma_levels_unique_ordered(g, lv2, lv1);
    }
}

proof fn lemma_levels_prefix(n: nat, edges: Seq<(usize, usize)>, lv1: Seq<Seq<usize>>, lv2: Seq<Seq<usize>>, l: int)
    requires
        are_execution_levels(lv1, n, edges),
        are_execution_levels(lv2, n, edges),
        0 <= l <= lv1.len(),
        l <= lv2.len(),
    ensures
        lv1.take(l) == lv2.take(l),
    decreases l,
{
    if l > 0 {
        lemma_levels_prefix(n, edges, lv1, lv2, l - 1);
        assert(levels_done(lv1, l - 1) == levels_done(lv2, l - 1));
        assert(lv1[l - 1] == lv2[l - 1]);
        assert(lv1.take(l) =~= lv1.take(l - 1).push(lv1[l - 1]));
        assert(lv2.take(l) =~= lv2.take(l - 1).push(lv2[l - 1]));
    }
}

proof fn lemma_levels_unique_ordered<T>(g: &DependencyGraph<T>, lv1: Seq<Seq<usize>>, lv2: Seq<Seq<usize>>)
    requires
        are_execution_levels(lv1, g.node_count(), g.edge_seq()),
        are_execution_levels(lv2, g.node_count(), g.edge_seq()),
        lv1.len() <= lv2.len(),
        g.node_count() <= usize::MAX,
    ensures
        lv1 == lv2,
{
    let n = g.node_count();
    let edges = g.edge_seq();
    let m = lv1.len() as int;
    lemma_levels_prefix(n, edges, lv1, lv2, m);
    assert(lv1.take(m) =~= lv1);
    if m < lv2.len() {
        let done = levels_done(lv2, m);
        let flat = lv1.flatten();
        assert(done == flat.to_set());
        lemma_ready_nodes(n, edges, done);
        let x = lv2[m][0];
        assert(ready_nodes(n, edges, done).contains(x));
        lemma_full_perm(flat, n, x);
        assert(done.contains(x));
        assert(false);
    }
    assert(lv2.take(m) =~= lv2);
}

fn contains_node(v: &Vec<usize>, x: usize) -> (b: bool)
    ensures
        b == v@.contains(x),
{
    let mut i: usize = 0;
    while i < v.len()
        invariant
            i <= v@.len(),
            forall|j: int| 0 <= j < i ==> v@[j] != x,
        decreases v@.len() - i,
    {
        if v[i] == x {
            return true;
        }
        i = i + 1;
    }
    false
}


// ---------------------------------------------------------------------------
// Graphs of named stages and jobs
// ---------------------------------------------------------------------------

/// Index of the last name in `names` equal to `name`: a later item of the
/// same name shadows an earlier one.
pub open spec fn last_named(names: Seq<Seq<char>>, name: Seq<char>) -> Option<int>
    decreases names.len(),
{
    if names.len() == 0 {
        None
    } else if names.last() == name {
        Some(names.len() - 1)
    } else {
        last_named(names.drop_last(), name)
    }
}

/// The `(item, dependency name)` pairs of a list of items, in order.
pub open spec fn dependency_pairs(deps: Seq<Seq<Seq<char>>>) -> Seq<(int, Seq<char>)>
    decreases deps.len(),
{
    if deps.len() == 0 {
        Seq::empty()
    } else {
        dependency_pairs(deps.drop_last()) + deps.last().map_values(
            |d: Seq<char>| (deps.len() - 1, d),
        )
    }
}

/// The first pair whose dependency names no item.
pub open spec fn first_unknown(names: Seq<Seq<char>>, pairs: Seq<(int, Seq<char>)>) -> Option<int>
    decreases pairs.len(),
{
    if pairs.len() == 0 {
        None
    } else if last_named(names, pairs[0].1) is None {
        Some(0)
    } else {
        match first_unknown(names, pairs.drop_first()) {
            Some(k) => Some(k + 1),
            None => None,
        }
    }
}

/// The edges that the pairs give: from the named dependency to the item.
pub open spec fn dependency_edges(names: Seq<Seq<char>>, pairs: Seq<(int, Seq<char>)>) -> Seq<
    (usize, usize),
> {
    pairs.map_values(
        |p: (int, Seq<char>)| (last_named(names, p.1)->0 as usize, p.0 as usize),
    )
}

proof fn lemma_last_named_range(names: Seq<Seq<char>>, name: Seq<char>)
    ensures
        last_named(names, name) matches Some(i) ==> 0 <= i < names.len() && names[i] == name,
    decreases names.len(),
{
    if names.len() > 0 && names.last() != name {
        lemma_last_named_range(names.drop_last(), name);
    }
}

proof fn lemma_first_unknown_none(names: Seq<Seq<char>>, pairs: Seq<(int, Seq<char>)>)
    requires
        forall|k: int| 0 <= k < pairs.len() ==> #[trigger] last_named(names, pairs[k].1) is Some,
    ensures
        first_unknown(names, pairs) is None,
    decreases pairs.len(),
{
    if pairs.len() > 0 {
        assert(last_named(names, pairs[0].1) is Some);
        assert forall|k: int| 0 <= k < pairs.drop_first().len() implies #[trigger] last_named(
            names,
            pairs.drop_first()[k].1,
        ) is Some by {
            assert(pairs.drop_first()[k] == pairs[k + 1]);
        }
        lemma_first_unknown_none(names, pairs.drop_first());
    }
}

proof fn lemma_first_unknown_at(names: Seq<Seq<char>>, pairs: Seq<(int, Seq<char>)>, k: int)
    requires
        0 <= k < pairs.len(),
        last_named(names, pairs[k].1) is None,
        forall|j: int| 0 <= j < k ==> #[trigger] last_named(names, pairs[j].1) is Some,
    ensures
        first_unknown(names, pairs) == Some(k),
    decreases k,
{
    if k > 0 {
        assert(last_named(names, pairs[0].1) is Some);
        assert forall|j: int| 0 <= j < k - 1 implies #[trigger] last_named(
            names,
            pairs.drop_first()[j].1,
        ) is Some by {
            assert(pairs.drop_first()[j] == pairs[j + 1]);
        }
        assert(pairs.drop_first()[k - 1] == pairs[k]);
        lemma_first_unknown_at(names, pairs.drop_first(), k - 1);
    }
}

/// Looks up a dependency name among the item names: the index of the last
/// item so named.
fn find_last_named(names: &Vec<&str>, name: &str) -> (r: Option<usize>)
    ensures
        match r {
            Some(i) => last_named(names@.map_values(|n: &str| n@), name@) == Some(i as int),
            None => last_named(names@.map_values(|n: &str| n@), name@) is None,
        },
{
    let ghost all = names@.map_values(|n: &str| n@);
    let mut i = names.len();
    assert(all.subrange(0, i as int) == all);
    while i > 0
        invariant
            i <= names@.len(),
            all == names@.map_values(|n: &str| n@),
            last_named(all, name@) == last_named(all.subrange(0, i as int), name@),
        decreases i,
    {
        let ghost pre = all.subrange(0, i as int);
        assert(pre.last() == names@[i - 1]@);
        assert(pre.drop_last() == all.subrange(0, i - 1));
        if crate::template::str_eq(names[i - 1], name) {
            return Some(i - 1);
        }
        i = i - 1;
    }
    None
}

/// Resolves the dependency lists of named items into edges, or reports the
/// first `(item, position in its list)` whose dependency names no item.
#[verifier::spinoff_prover]
#[verifier::rlimit(30)]
fn link_dependencies(names: &Vec<&str>, deps: &Vec<&Vec<String>>) -> (r: Result<
    Vec<(usize, usize)>,
    (usize, usize),
>)
    requires
        deps@.len() == names@.len(),
    ensures
        ({
            let nv = names@.map_values(|n: &str| n@);
            let pairs = dependency_pairs(
                deps@.map_values(|d: &Vec<String>| d@.map_values(|s: String| s@)),
            );
            match r {
                Ok(edges) => {
                    &&& first_unknown(nv, pairs) is None
                    &&& edges@ == dependency_edges(nv, pairs)
                    &&& forall|m: int| 0 <= m < edges@.len() ==> (#[trigger] edges@[m]).1 < names@.len()
                },
                Err((i, j)) => {
                    &&& i < deps@.len()
                    &&& j < deps@[i as int]@.len()
                    &&& first_unknown(nv, pairs) matches Some(k) && pairs[k] == (
                        i as int,
                        deps@[i as int]@[j as int]@,
                    )
                },
            }
        }),
{
    let ghost nv = names@.map_values(|n: &str| n@);
    let ghost dv = deps@.map_values(|d: &Vec<String>| d@.map_values(|s: String| s@));
    let mut edges: Vec<(usize, usize)> = Vec::new();
    let mut i: usize = 0;
    while i < deps.len()
        invariant
            i <= deps@.len(),
            deps@.len() == names@.len(),
            nv == names@.map_values(|n: &str| n@),
            dv == deps@.map_values(|d: &Vec<String>| d@.map_values(|s: String| s@)),
            forall|m: int| 0 <= m < edges@.len() ==> (#[trigger] edges@[m]).1 < i,
            ({
                let done = dependency_pairs(dv.subrange(0, i as int));
                &&& forall|k: int| 0 <= k < done.len() ==> #[trigger] last_named(nv, done[k].1) is Some
                &&& edges@ == dependency_edges(nv, done)
            }),
        decreases deps@.len() - i,
    {
        let list = deps[i];
        let ghost done = dependency_pairs(dv.subrange(0, i as int));
        let ghost row = dv[i as int].map_values(|d: Seq<char>| (i as int, d));
        proof {
            let pre = dv.subrange(0, i + 1);
            assert(pre.drop_last() == dv.subrange(0, i as int));
            assert(pre.last() == dv[i as int]);
            assert(dependency_pairs(pre) == done + row);
        }
        let mut j: usize = 0;
        while j < list.len()
            invariant
                i < deps@.len(),
                list == deps@[i as int],
                j <= list@.len(),
                nv == names@.map_values(|n: &str| n@),
                dv == deps@.map_values(|d: &Vec<String>| d@.map_values(|s: String| s@)),
                row == dv[i as int].map_values(|d: Seq<char>| (i as int, d)),
                done == dependency_pairs(dv.subrange(0, i as int)),
                dependency_pairs(dv.subrange(0, i + 1)) == done + row,
                forall|m: int| 0 <= m < edges@.len() ==> (#[trigger] edges@[m]).1 <= i,
                ({
                    let seen = done + row.subrange(0, j as int);
                    &&& forall|k: int| 0 <= k < seen.len() ==> #[trigger] last_named(nv, seen[k].1) is Some
                    &&& edges@ == dependency_edges(nv, seen)
                }),
            decreases list@.len() - j,
        {
            let ghost seen = done + row.subrange(0, j as int);
            assert(row[j as int] == (i as int, list@[j as int]@));
            assert(seen.len() == done.len() + j);
            match find_last_named(names, list[j].as_str()) {
                Some(from) => {
                    edges.push((from, i));
                    proof {
                        let seen2 = done + row.subrange(0, j + 1);
                        assert(seen2 == seen.push(row[j as int]));
                        assert(dependency_edges(nv, seen2) =~= dependency_edges(nv, seen).push(
                            (from, i),
                        ));
                    }
                    j = j + 1;
                },
                None => {
                    proof {
                        let all = dependency_pairs(dv);
                        let k = seen.len() as int;
                        lemma_dependency_pairs_prefix(dv, i as int + 1);
                        let upto = dependency_pairs(dv.subrange(0, i + 1));
                        assert(upto == done + row);
                        assert(all.subrange(0, upto.len() as int) == upto);
                        assert(all[k] == upto[k]);
                        assert(upto[k] == row[j as int]);
                        assert forall|m: int| 0 <= m < k implies #[trigger] last_named(
                            nv,
                            all[m].1,
                        ) is Some by {
                            assert(all[m] == upto[m]);
                            assert(upto[m] == seen[m]);
                        }
                        lemma_first_unknown_at(nv, all, k);
                    }
                    return Err((i, j));
                },
            }
        }
        proof {
            assert(row.subrange(0, row.len() as int) == row);
            assert(dependency_pairs(dv.subrange(0, i + 1)) == done + row);
        }
        i = i + 1;
    }
    proof {
        assert(dv.subrange(0, dv.len() as int) == dv);
        lemma_first_unknown_none(nv, dependency_pairs(dv));
    }
    Ok(edges)
}

proof fn lemma_dependency_pairs_prefix(deps: Seq<Seq<Seq<char>>>, i: int)
    requires
        0 <= i <= deps.len(),
    ensures
        dependency_pairs(deps.subrange(0, i)).len() <= dependency_pairs(deps).len(),
        dependency_pairs(deps).subrange(0, dependency_pairs(deps.subrange(0, i)).len() as int)
            == dependency_pairs(deps.subrange(0, i)),
    decreases deps.len(),
{
    if i == deps.len() {
        assert(deps.subrange(0, i) == deps);
        assert(dependency_pairs(deps).subrange(0, dependency_pairs(deps).len() as int)
            == dependency_pairs(deps));
    } else {
        let d = deps.drop_last();
        lemma_dependency_pairs_prefix(d, i);
        assert(d.subrange(0, i) == deps.subrange(0, i));
        let a = dependency_pairs(deps.subrange(0, i));
        let b = dependency_pairs(d);
        let all = dependency_pairs(deps);
        assert(all == b + deps.last().map_values(|x: Seq<char>| (deps.len() - 1, x)));
        assert(all.subrange(0, a.len() as int) == b.subrange(0, a.len() as int));
    }
}

/// The stage names of a list of stages.
pub open spec fn stage_names(stages: Seq<Stage>) -> Seq<Seq<char>> {
    stages.map_values(|s: Stage| s.stage@)
}

/// The dependency names of each stage.
pub open spec fn stage_deps(stages: Seq<Stage>) -> Seq<Seq<Seq<char>>> {
    stages.map_values(|s: Stage| s.depends_on@.map_values(|d: String| d@))
}

/// The job names of a list of jobs.
pub open spec fn job_names(jobs: Seq<Job>) -> Seq<Seq<char>> {
    jobs.map_values(|j: Job| j.job@)
}

/// The dependency names of each job.
pub open spec fn job_deps(jobs: Seq<Job>) -> Seq<Seq<Seq<char>>> {
    jobs.map_values(|j: Job| j.depends_on@.map_values(|d: String| d@))
}

/// "`kind` '`item`' depends on unknown `noun` '`dep`'".
pub open spec fn unknown_dependency_message(
    kind: Seq<char>,
    noun: Seq<char>,
    item: Seq<char>,
    dep: Seq<char>,
) -> Seq<char> {
    kind + seq![' ', '\''] + item + "' depends on unknown "@ + noun + seq![' ', '\''] + dep
        + seq!['\'']
}

fn unknown_dependency_text(kind: &str, noun: &str, item: &str, dep: &str) -> (r: String)
    ensures
        r@ == unknown_dependency_message(kind@, noun@, item@, dep@),
{
    let mut r = String::from_str(kind);
    r.push(' ');
    r.push('\'');
    r.append(item);
    r.append("' depends on unknown ");
    r.append(noun);
    r.push(' ');
    r.push('\'');
    r.append(dep);
    r.push('\'');
    r
}

/// A dependency graph over the stages, with an edge from each named
/// dependency to the stage that names it (a name shared by several stages
/// means the last of them); an error for the first dependency that names no
/// stage.
pub fn build_stage_graph(stages: &[Stage]) -> (r: Result<DependencyGraph<Stage>, String>)
    ensures
        ({
            let names = stage_names(stages@);
            let pairs = dependency_pairs(stage_deps(stages@));
            match r {
                Ok(g) => {
                    &&& first_unknown(names, pairs) is None
                    &&& g.edge_seq() == dependency_edges(names, pairs)
                    &&& g.node_count() == stages@.len()
                    &&& g.targets_in_range()
                    &&& forall|i: int| 0 <= i < stages@.len() ==> cloned(stages@[i], #[trigger] g.node_seq()[i])
                },
                Err(msg) => first_unknown(names, pairs) matches Some(k) && msg@
                    == unknown_dependency_message("Stage"@, "stage"@, names[pairs[k].0], pairs[k].1),
            }
        }),
{
    let mut names: Vec<&str> = Vec::new();
    let mut deps: Vec<&Vec<String>> = Vec::new();
    let mut nodes: Vec<Stage> = Vec::new();
    let mut i: usize = 0;
    while i < stages.len()
        invariant
            i <= stages@.len(),
            names@.len() == i,
            deps@.len() == i,
            nodes@.len() == i,
            names@.map_values(|n: &str| n@) == stage_names(stages@).subrange(0, i as int),
            deps@.map_values(|d: &Vec<String>| d@.map_values(|s: String| s@)) == stage_deps(
                stages@,
            ).subrange(0, i as int),
            forall|k: int| 0 <= k < i ==> cloned(stages@[k], #[trigger] nodes@[k]),
        decreases stages@.len() - i,
    {
        names.push(stages[i].stage.as_str());
        deps.push(&stages[i].depends_on);
        nodes.push(stages[i].clone());
        proof {
            assert(names@.map_values(|n: &str| n@) =~= stage_names(stages@).subrange(0, i + 1));
            assert(deps@.map_values(|d: &Vec<String>| d@.map_values(|s: String| s@))
                =~= stage_deps(stages@).subrange(0, i + 1));
        }
        i = i + 1;
    }
    proof {
        assert(stage_names(stages@).subrange(0, i as int) == stage_names(stages@));
        assert(stage_deps(stages@).subrange(0, i as int) == stage_deps(stages@));
    }
    match link_dependencies(&names, &deps) {
        Ok(edges) => {
            let mut graph = DependencyGraph::new(nodes);
            let mut k: usize = 0;
            while k < edges.len()
                invariant
                    k <= edges@.len(),
                    graph.node_count() == stages@.len(),
                    graph.node_seq() == nodes@,
                    graph.edge_seq() == edges@.subrange(0, k as int),
                    forall|m: int| 0 <= m < edges@.len() ==> (#[trigger] edges@[m]).1 < stages@.len(),
                decreases edges@.len() - k,
            {
                graph.add_dependency(edges[k].0, edges[k].1);
                assert(edges@.subrange(0, k + 1) == edges@.subrange(0, k as int).push(edges@[k as int]));
                k = k + 1;
            }
            assert(edges@.subrange(0, edges@.len() as int) == edges@);
            Ok(graph)
        },
        Err((si, dj)) => {
            let msg = unknown_dependency_text("Stage", "stage", names[si], deps[si][dj].as_str());
            Err(msg)
        },
    }
}

/// A dependency graph over the jobs, with an edge from each named
/// dependency to the job that names it (a name shared by several jobs means
/// the last of them); an error for the first dependency that names no job.
pub fn build_job_graph(jobs: &[Job]) -> (r: Result<DependencyGraph<Job>, String>)
    ensures
        ({
            let names = job_names(jobs@);
            let pairs = dependency_pairs(job_deps(jobs@));
            match r {
                Ok(g) => {
                    &&& first_unknown(names, pairs) is None
                    &&& g.edge_seq() == dependency_edges(names, pairs)
                    &&& g.node_count() == jobs@.len()
                    &&& g.targets_in_range()
                    &&& forall|i: int| 0 <= i < jobs@.len() ==> cloned(jobs@[i], #[trigger] g.node_seq()[i])
                },
                Err(msg) => first_unknown(names, pairs) matches Some(k) && msg@
                    == unknown_dependency_message("Job"@, "job"@, names[pairs[k].0], pairs[k].1),
            }
        }),
{
    let mut names: Vec<&str> = Vec::new();
    let mut deps: Vec<&Vec<String>> = Vec::new();
    let mut nodes: Vec<Job> = Vec::new();
    let mut i: usize = 0;
    while i < jobs.len()
        invariant
            i <= jobs@.len(),
            names@.len() == i,
            deps@.len() == i,
            nodes@.len() == i,
            names@.map_values(|n: &str| n@) == job_names(jobs@).subrange(0, i as int),
            deps@.map_values(|d: &Vec<String>| d@.map_values(|s: String| s@)) == job_deps(
                jobs@,
            ).subrange(0, i as int),
            forall|k: int| 0 <= k < i ==> cloned(jobs@[k], #[trigger] nodes@[k]),
        decreases jobs@.len() - i,
    {
        names.push(jobs[i].job.as_str());
        deps.push(&jobs[i].depends_on);
        nodes.push(jobs[i].clone());
        proof {
            assert(names@.map_values(|n: &str| n@) =~= job_names(jobs@).subrange(0, i + 1));
            assert(deps@.map_values(|d: &Vec<String>| d@.map_values(|s: String| s@))
                =~= job_deps(jobs@).subrange(0, i + 1));
        }
        i = i + 1;
    }
    proof {
        assert(job_names(jobs@).subrange(0, i as int) == job_names(jobs@));
        assert(job_deps(jobs@).subrange(0, i as int) == job_deps(jobs@));
    }
    match link_dependencies(&names, &deps) {
        Ok(edges) => {
            let mut graph = DependencyGraph::new(nodes);
            let mut k: usize = 0;
            while k < edges.len()
                invariant
                    k <= edges@.len(),
                    graph.node_count() == jobs@.len(),
                    graph.node_seq() == nodes@,
                    graph.edge_seq() == edges@.subrange(0, k as int),
                    forall|m: int| 0 <= m < edges@.len() ==> (#[trigger] edges@[m]).1 < jobs@.len(),
                decreases edges@.len() - k,
            {
                graph.add_dependency(edges[k].0, edges[k].1);
                assert(edges@.subrange(0, k + 1) == edges@.subrange(0, k as int).push(edges@[k as int]));
                k = k + 1;
            }
            assert(edges@.subrange(0, edges@.len() as int) == edges@);
            Ok(graph)
        },
        Err((si, dj)) => {
            let msg = unknown_dependency_text("Job", "job", names[si], deps[si][dj].as_str());
            Err(msg)
        },
    }
}

} // verus!
