//! A directed graph whose node and edge identities stay stable: a removed
//! node or edge leaves a vacant slot, and its index is never reused.

use vstd::prelude::*;

verus! {

/// An edge from `source` to `target`, labelled with `weight`.
#[derive(Clone, Copy, Debug)]
pub struct Edge<E> {
    pub source: usize,
    pub target: usize,
    pub weight: E,
}

/// A directed graph with stable indices. Slot `i` of `nodes` holds node `i`,
/// or `None` once that node is removed; `edges` likewise.
#[derive(Clone, Debug)]
pub struct StableGraph<N, E> {
    pub nodes: Vec<Option<N>>,
    pub edges: Vec<Option<Edge<E>>>,
}

impl<N: Copy, E: Copy> StableGraph<N, E> {
    /// Node `i` exists in `nodes`.
    pub open spec fn live_in(nodes: Seq<Option<N>>, i: int) -> bool {
        0 <= i < nodes.len() && nodes[i] is Some
    }

    /// Every edge joins two existing nodes.
    pub open spec fn edges_wf(nodes: Seq<Option<N>>, edges: Seq<Option<Edge<E>>>) -> bool {
        forall|j: int|
            0 <= j < edges.len() && (#[trigger] edges[j]) is Some ==> {
                &&& Self::live_in(nodes, edges[j]->Some_0.source as int)
                &&& Self::live_in(nodes, edges[j]->Some_0.target as int)
            }
    }

    /// Node `i` exists.
    pub open spec fn is_live(&self, i: int) -> bool {
        Self::live_in(self.nodes@, i)
    }

    /// Well-formedness: every edge joins two existing nodes.
    pub open spec fn wf(&self) -> bool {
        Self::edges_wf(self.nodes@, self.edges@)
    }

    /// An empty graph.
    pub fn new() -> (r: Self)
        ensures
            r.nodes@ == Seq::<Option<N>>::empty(),
            r.edges@ == Seq::<Option<Edge<E>>>::empty(),
            r.wf(),
    {
        StableGraph { nodes: Vec::new(), edges: Vec::new() }
    }

    /// One past the largest node index ever handed out.
    pub fn node_bound(&self) -> (r: usize)
        ensures
            r == self.nodes@.len(),
    {
        self.nodes.len()
    }

    /// One past the largest edge index ever handed out.
    pub fn edge_bound(&self) -> (r: usize)
        ensures
            r == self.edges@.len(),
    {
        self.edges.len()
    }

    /// Adds a node labelled `weight` and returns its index.
    pub fn add_node(&mut self, weight: N) -> (r: usize)
        ensures
            r == old(self).nodes@.len(),
            final(self).nodes@ == old(self).nodes@.push(Some(weight)),
            final(self).edges@ == old(self).edges@,
            old(self).wf() ==> final(self).wf(),
    {
        let r = self.nodes.len();
        self.nodes.push(Some(weight));
        r
    }

    /// Makes edge `j` leave from node `source` instead, keeping its target and label.
    pub fn move_edge_source(&mut self, j: usize, source: usize)
        requires
            j < old(self).edges@.len(),
            old(self).edges@[j as int] is Some,
            old(self).is_live(source as int),
        ensures
            final(self).nodes@ == old(self).nodes@,
            final(self).edges@ == old(self).edges@.update(
                j as int,
                Some(Edge { source, ..old(self).edges@[j as int]->Some_0 }),
            ),
            old(self).wf() ==> final(self).wf(),
    {
        match self.edges[j] {
            Some(e) => {
                self.edges.set(j, Some(Edge { source, target: e.target, weight: e.weight }));
            },
            None => {},
        }
    }

    /// Adds an edge from `a` to `b` labelled `weight` and returns its index.
    pub fn add_edge(&mut self, a: usize, b: usize, weight: E) -> (r: usize)
        requires
            old(self).is_live(a as int),
            old(self).is_live(b as int),
        ensures
            r == old(self).edges@.len(),
            final(self).nodes@ == old(self).nodes@,
            final(self).edges@ == old(self).edges@.push(Some(Edge { source: a, target: b, weight })),
            old(self).wf() ==> final(self).wf(),
    {
        let r = self.edges.len();
        self.edges.push(Some(Edge { source: a, target: b, weight }));
        r
    }
}


/// The number of `false` entries of `s`.
pub open spec fn count_unmarked(s: Seq<bool>) -> nat
    decreases s.len(),
{
    if s.len() == 0 {
        0
    } else {
        count_unmarked(s.drop_last()) + if s.last() {
            0nat
        } else {
            1nat
        }
    }
}

proof fn lemma_count_unmarked_bound(s: Seq<bool>)
    ensures
        count_unmarked(s) <= s.len(),
    decreases s.len(),
{
    if s.len() > 0 {
        lemma_count_unmarked_bound(s.drop_last());
    }
}

proof fn lemma_count_unmarked_mark(s: Seq<bool>, i: int)
    requires
        0 <= i < s.len(),
        !s[i],
    ensures
        count_unmarked(s.update(i, true)) + 1 == count_unmarked(s),
    decreases s.len(),
{
    let t = s.update(i, true);
    if i == s.len() - 1 {
        assert(t.drop_last() =~= s.drop_last());
    } else {
        assert(t.drop_last() =~= s.drop_last().update(i, true));
        lemma_count_unmarked_mark(s.drop_last(), i);
    }
}

impl<N: Copy, E: Copy> StableGraph<N, E> {
    /// Node `u` reaches a node of `roots` by a path of at most `k` edges.
    pub open spec fn reaches_within(
        nodes: Seq<Option<N>>,
        edges: Seq<Option<Edge<E>>>,
        u: int,
        is_root: spec_fn(int) -> bool,
        k: nat,
    ) -> bool
        decreases k,
    {
        ||| (Self::live_in(nodes, u) && is_root(u))
        ||| (k > 0 && exists|j: int|
            0 <= j < edges.len() && (#[trigger] edges[j]) is Some && edges[j]->Some_0.source == u
                && Self::reaches_within(nodes, edges, edges[j]->Some_0.target as int, is_root, (k - 1) as nat))
    }

    /// Node `u` exists and reaches a node of `roots` along the edges.
    pub open spec fn reaches(
        nodes: Seq<Option<N>>,
        edges: Seq<Option<Edge<E>>>,
        u: int,
        is_root: spec_fn(int) -> bool,
    ) -> bool {
        Self::live_in(nodes, u) && exists|k: nat| Self::reaches_within(nodes, edges, u, is_root, k)
    }

    /// For each node, whether it reaches one of `roots`.
    pub open spec fn reach_marks(nodes: Seq<Option<N>>, edges: Seq<Option<Edge<E>>>, is_root: spec_fn(int) -> bool) -> Seq<bool> {
        Seq::new(nodes.len(), |i: int| Self::reaches(nodes, edges, i, is_root))
    }

    /// Reaching a root depends only on which existing nodes are roots.
    pub proof fn lemma_reaches_same_roots(
        nodes: Seq<Option<N>>,
        edges: Seq<Option<Edge<E>>>,
        u: int,
        p: spec_fn(int) -> bool,
        q: spec_fn(int) -> bool,
        k: nat,
    )
        requires
            forall|x: int| Self::live_in(nodes, x) ==> p(x) == q(x),
        ensures
            Self::reaches_within(nodes, edges, u, p, k) == Self::reaches_within(nodes, edges, u, q, k),
        decreases k,
    {
        if k > 0 {
            assert forall|j: int| 0 <= j < edges.len() && (#[trigger] edges[j]) is Some implies
                Self::reaches_within(nodes, edges, edges[j]->Some_0.target as int, p, (k - 1) as nat)
                    == Self::reaches_within(nodes, edges, edges[j]->Some_0.target as int, q, (k - 1) as nat) by {
                Self::lemma_reaches_same_roots(nodes, edges, edges[j]->Some_0.target as int, p, q, (k - 1) as nat);
            }
        }
    }

    /// The node slots that survive when only the nodes marked in `keep` stay.
    pub open spec fn kept_nodes(nodes: Seq<Option<N>>, keep: Seq<bool>) -> Seq<Option<N>> {
        Seq::new(nodes.len(), |i: int| if keep[i] { nodes[i] } else { None })
    }

    /// The edge slots that survive when only the nodes marked in `keep` stay:
    /// an edge stays exactly when both its ends do.
    pub open spec fn kept_edges(edges: Seq<Option<Edge<E>>>, keep: Seq<bool>) -> Seq<Option<Edge<E>>> {
        Seq::new(
            edges.len(),
            |j: int|
                match edges[j] {
                    Some(e) => if keep[e.source as int] && keep[e.target as int] {
                        Some(e)
                    } else {
                        None
                    },
                    None => None,
                },
        )
    }

    /// The label of node `i`, or `None` where there is no such node.
    pub fn node_weight(&self, i: usize) -> (r: Option<N>)
        ensures
            r == (if i < self.nodes@.len() { self.nodes@[i as int] } else { None }),
    {
        if i < self.nodes.len() {
            self.nodes[i]
        } else {
            None
        }
    }

    /// The edge with index `j`, or `None` where there is no such edge.
    pub fn edge(&self, j: usize) -> (r: Option<Edge<E>>)
        ensures
            r == (if j < self.edges@.len() { self.edges@[j as int] } else { None }),
    {
        if j < self.edges.len() {
            self.edges[j]
        } else {
            None
        }
    }

    /// Marks each node that reaches one of `roots`, itself included.
    pub fn ancestors(&self, roots: &Vec<usize>) -> (marked: Vec<bool>)
        requires
            self.wf(),
        ensures
            marked@.len() == self.nodes@.len(),
            forall|i: int|
                0 <= i < marked@.len() ==> (marked@[i] <==> Self::reaches(
                    self.nodes@,
                    self.edges@,
                    i,
                    in_roots(roots@),
                )),
    {
        let n = self.nodes.len();
        let ghost nodes = self.nodes@;
        let ghost edges = self.edges@;
        let mut marked: Vec<bool> = Vec::new();
        let mut n_unmarked: usize = 0;
        let mut i: usize = 0;
        while i < n
            invariant
                i <= n == nodes.len(),
                nodes == self.nodes@,
                marked@.len() == i,
                n_unmarked == count_unmarked(marked@),
                forall|x: int| 0 <= x < i ==> (marked@[x] <==> (Self::live_in(nodes, x) && in_roots(roots@)(x))),
            decreases n - i,
        {
            proof { lemma_count_unmarked_bound(marked@); }
            let is_root = self.nodes[i].is_some() && vec_contains(roots, i);
            proof {
                assert(marked@.push(is_root).drop_last() =~= marked@);
            }
            marked.push(is_root);
            assert(in_roots(roots@)(i as int) == roots@.contains(i));
            if !is_root {
                n_unmarked = n_unmarked + 1;
            }
            i = i + 1;
        }
        assert forall|x: int| 0 <= x < n && #[trigger] marked@[x] implies Self::reaches(nodes, edges, x, in_roots(roots@)) by {
            assert(Self::reaches_within(nodes, edges, x, in_roots(roots@), 0));
        }
        let m = self.edges.len();
        loop
            invariant
                nodes == self.nodes@,
                edges == self.edges@,
                m == edges.len(),
                marked@.len() == n == nodes.len(),
                Self::edges_wf(nodes, edges),
                n_unmarked == count_unmarked(marked@),
                forall|x: int| 0 <= x < n && Self::live_in(nodes, x) && in_roots(roots@)(x) ==> #[trigger] marked@[x],
                forall|x: int| 0 <= x < n && #[trigger] marked@[x] ==> Self::reaches(nodes, edges, x, in_roots(roots@)),
            ensures
                marked@.len() == n,
                forall|x: int| 0 <= x < n && #[trigger] marked@[x] ==> Self::reaches(nodes, edges, x, in_roots(roots@)),
                forall|u: int, k: nat| #[trigger] Self::reaches_within(nodes, edges, u, in_roots(roots@), k) ==> 0 <= u < n && marked@[u],
            decreases n_unmarked,
        {
            let before = n_unmarked;
            let ghost start = marked@;
            let mut j: usize = 0;
            while j < m
                invariant
                    nodes == self.nodes@,
                    edges == self.edges@,
                    m == edges.len(),
                    j <= m,
                    marked@.len() == n == nodes.len(),
                    Self::edges_wf(nodes, edges),
                    n_unmarked == count_unmarked(marked@),
                    n_unmarked <= before,
                    start.len() == n,
                    forall|x: int| 0 <= x < n && start[x] ==> #[trigger] marked@[x],
                    forall|x: int| 0 <= x < n && #[trigger] marked@[x] ==> Self::reaches(nodes, edges, x, in_roots(roots@)),
                    n_unmarked == before ==> marked@ == start,
                    n_unmarked == before ==> forall|y: int|
                        0 <= y < j && (#[trigger] edges[y]) is Some && marked@[edges[y]->Some_0.target as int]
                            ==> marked@[edges[y]->Some_0.source as int],
                decreases m - j,
            {
                match self.edges[j] {
                    Some(e) => {
                        if marked[e.target] && !marked[e.source] {
                            proof {
                                lemma_count_unmarked_mark(marked@, e.source as int);
                                let t = e.target as int;
                                assert(Self::reaches(nodes, edges, t, in_roots(roots@)));
                                let k = choose|k: nat| Self::reaches_within(nodes, edges, t, in_roots(roots@), k);
                                assert(edges[j as int] is Some);
                                assert(Self::reaches_within(nodes, edges, e.source as int, in_roots(roots@), k + 1));
                            }
                            marked.set(e.source, true);
                            n_unmarked = n_unmarked - 1;
                        }
                    },
                    None => {},
                }
                j = j + 1;
            }
            if n_unmarked == before {
                proof {
                    assert forall|u: int, k: nat| #[trigger] Self::reaches_within(nodes, edges, u, in_roots(roots@), k) implies 0 <= u < n && marked@[u] by {
                        self.lemma_closed_marks(marked@, u, in_roots(roots@), k);
                    }
                }
                break;
            }
        }
        marked
    }

    proof fn lemma_closed_marks(&self, marked: Seq<bool>, u: int, is_root: spec_fn(int) -> bool, k: nat)
        requires
            self.wf(),
            marked.len() == self.nodes@.len(),
            forall|x: int| 0 <= x < marked.len() && Self::live_in(self.nodes@, x) && is_root(x) ==> #[trigger] marked[x],
            forall|y: int|
                0 <= y < self.edges@.len() && (#[trigger] self.edges@[y]) is Some && marked[self.edges@[y]->Some_0.target as int]
                    ==> marked[self.edges@[y]->Some_0.source as int],
            Self::reaches_within(self.nodes@, self.edges@, u, is_root, k),
        ensures
            0 <= u < marked.len() && marked[u],
        decreases k,
    {
        if Self::live_in(self.nodes@, u) && is_root(u) {
        } else {
            let j = choose|j: int|
                0 <= j < self.edges@.len() && (#[trigger] self.edges@[j]) is Some && self.edges@[j]->Some_0.source == u
                    && Self::reaches_within(self.nodes@, self.edges@, self.edges@[j]->Some_0.target as int, is_root, (k - 1) as nat);
            self.lemma_closed_marks(marked, self.edges@[j]->Some_0.target as int, is_root, (k - 1) as nat);
        }
    }

    /// The graph that keeps exactly the nodes marked in `keep`, and the edges
    /// between them, each under its index.
    pub fn retain_marked(&self, keep: &Vec<bool>) -> (r: Self)
        requires
            keep@.len() == self.nodes@.len(),
            self.wf(),
        ensures
            r.nodes@ == Self::kept_nodes(self.nodes@, keep@),
            r.edges@ == Self::kept_edges(self.edges@, keep@),
            r.wf(),
    {
        let mut nodes: Vec<Option<N>> = Vec::new();
        let mut i: usize = 0;
        while i < self.nodes.len()
            invariant
                i <= self.nodes@.len() == keep@.len(),
                nodes@ =~= Self::kept_nodes(self.nodes@, keep@).take(i as int),
            decreases self.nodes@.len() - i,
        {
            if keep[i] {
                nodes.push(self.nodes[i]);
            } else {
                nodes.push(None);
            }
            i = i + 1;
        }
        let mut edges: Vec<Option<Edge<E>>> = Vec::new();
        let mut j: usize = 0;
        while j < self.edges.len()
            invariant
                j <= self.edges@.len(),
                keep@.len() == self.nodes@.len(),
                self.wf(),
                edges@ =~= Self::kept_edges(self.edges@, keep@).take(j as int),
            decreases self.edges@.len() - j,
        {
            match self.edges[j] {
                Some(e) => {
                    if keep[e.source] && keep[e.target] {
                        edges.push(Some(e));
                    } else {
                        edges.push(None);
                    }
                },
                None => {
                    edges.push(None);
                },
            }
            j = j + 1;
        }
        assert(nodes@ =~= Self::kept_nodes(self.nodes@, keep@));
        assert(edges@ =~= Self::kept_edges(self.edges@, keep@));
        StableGraph { nodes, edges }
    }

    /// The subgraph of the nodes that reach one of `roots`, and the edges
    /// between them. Surviving nodes and edges keep their indices.
    pub fn from_reachable(&self, roots: &Vec<usize>) -> (r: Self)
        requires
            self.wf(),
        ensures
            r.wf(),
            r.nodes@.len() == self.nodes@.len(),
            r.edges@.len() == self.edges@.len(),
            r.nodes@ == Self::kept_nodes(self.nodes@, Self::reach_marks(self.nodes@, self.edges@, in_roots(roots@))),
            r.edges@ == Self::kept_edges(self.edges@, Self::reach_marks(self.nodes@, self.edges@, in_roots(roots@))),
    {
        let keep = self.ancestors(roots);
        assert(keep@ =~= Self::reach_marks(self.nodes@, self.edges@, in_roots(roots@)));
        self.retain_marked(&keep)
    }
}

/// The nodes listed in `roots`, as a predicate on node indices.
pub open spec fn in_roots(roots: Seq<usize>) -> spec_fn(int) -> bool {
    |x: int| 0 <= x && roots.contains(x as usize)
}

/// Whether `v` holds `x`.
pub fn vec_contains(v: &Vec<usize>, x: usize) -> (r: bool)
    ensures
        r == v@.contains(x),
{
    let mut i: usize = 0;
    while i < v.len()
        invariant
            i <= v@.len(),
            forall|k: int| 0 <= k < i ==> v@[k] != x,
        decreases v@.len() - i,
    {
        if v[i] == x {
            return true;
        }
        i = i + 1;
    }
    false
}

} // verus!
