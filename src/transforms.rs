//! The backend transforms: relinearization after each multiplication, then
//! removal of the nodes that no output depends on.

use vstd::prelude::*;
use crate::circuit::{
    is_output_node, output_roots, reaches_output, Circuit, CircuitGraph, EdgeInfo, EdgeSeq, NodeInfo, NodeSeq,
    Operation,
};
use crate::graph::{in_roots, Edge};

verus! {

/// Node `i` exists and is a multiplication.
pub open spec fn is_multiply(nodes: NodeSeq, i: int) -> bool {
    0 <= i < nodes.len() && nodes[i] == Some(NodeInfo { operation: Operation::Multiply })
}

/// The number of multiplications among the first `k` node slots.
pub open spec fn multiplies_before(nodes: NodeSeq, k: int) -> nat
    decreases k,
{
    if k <= 0 {
        0
    } else {
        multiplies_before(nodes, k - 1) + if is_multiply(nodes, k - 1) {
            1nat
        } else {
            0nat
        }
    }
}

/// The edges with every edge that leaves `m` made to leave `r` instead.
pub open spec fn redirect_sources(edges: EdgeSeq, m: usize, r: usize) -> EdgeSeq {
    Seq::new(
        edges.len(),
        |j: int|
            match edges[j] {
                Some(e) => if e.source == m {
                    Some(Edge { source: r, ..e })
                } else {
                    Some(e)
                },
                None => None,
            },
    )
}

/// The graph after relinearizing the multiplication `m`: a new
/// `Relinearize` node takes over every edge that left `m`, and `m` feeds it.
pub open spec fn relinearize_one(g: (NodeSeq, EdgeSeq), m: usize) -> (NodeSeq, EdgeSeq) {
    let r = g.0.len() as usize;
    (
        g.0.push(Some(NodeInfo { operation: Operation::Relinearize })),
        redirect_sources(g.1, m, r).push(Some(Edge { source: m, target: r, weight: EdgeInfo::UnaryOperand })),
    )
}

/// The graph after relinearizing each multiplication among the first `k`
/// nodes, in index order.
pub open spec fn relinearized_upto(nodes: NodeSeq, edges: EdgeSeq, k: int) -> (NodeSeq, EdgeSeq)
    decreases k,
{
    if k <= 0 {
        (nodes, edges)
    } else {
        let prev = relinearized_upto(nodes, edges, k - 1);
        if is_multiply(nodes, k - 1) {
            relinearize_one(prev, (k - 1) as usize)
        } else {
            prev
        }
    }
}

/// The graph after relinearizing every multiplication of the graph.
pub open spec fn relinearized(nodes: NodeSeq, edges: EdgeSeq) -> (NodeSeq, EdgeSeq) {
    relinearized_upto(nodes, edges, nodes.len() as int)
}

/// The graph with only the nodes that reach an output, and the edges
/// between them.
pub open spec fn pruned(nodes: NodeSeq, edges: EdgeSeq) -> (NodeSeq, EdgeSeq) {
    let keep = Seq::new(nodes.len(), |i: int| reaches_output(nodes, edges, i));
    (CircuitGraph::kept_nodes(nodes, keep), CircuitGraph::kept_edges(edges, keep))
}

/// After pruning, a node is present exactly where it was present before and
/// has a path to an output; each edge stays exactly where both its ends do.
pub proof fn lemma_pruned_keeps_output_ancestors(nodes: NodeSeq, edges: EdgeSeq)
    requires
        CircuitGraph::edges_wf(nodes, edges),
    ensures
        ({
            let g = pruned(nodes, edges);
            &&& g.0.len() == nodes.len()
            &&& forall|i: int| 0 <= i < nodes.len() ==> (#[trigger] g.0[i] is Some <==> reaches_output(nodes, edges, i))
            &&& forall|i: int| 0 <= i < nodes.len() && #[trigger] g.0[i] is Some ==> g.0[i] == nodes[i]
            &&& forall|j: int| 0 <= j < edges.len() ==> (#[trigger] g.1[j] is Some <==> {
                &&& edges[j] is Some
                &&& reaches_output(nodes, edges, edges[j]->Some_0.source as int)
                &&& reaches_output(nodes, edges, edges[j]->Some_0.target as int)
            })
        }),
{
    let g = pruned(nodes, edges);
    assert forall|j: int| 0 <= j < edges.len() implies (#[trigger] g.1[j] is Some <==> {
        &&& edges[j] is Some
        &&& reaches_output(nodes, edges, edges[j]->Some_0.source as int)
        &&& reaches_output(nodes, edges, edges[j]->Some_0.target as int)
    }) by {
        if edges[j] is Some {
            assert(CircuitGraph::live_in(nodes, edges[j]->Some_0.source as int));
            assert(CircuitGraph::live_in(nodes, edges[j]->Some_0.target as int));
        }
    }
}

proof fn lemma_relinearized_upto_shape(nodes: NodeSeq, edges: EdgeSeq, k: int)
    requires
        0 <= k <= nodes.len(),
    ensures
        relinearized_upto(nodes, edges, k).0.len() == nodes.len() + multiplies_before(nodes, k),
        relinearized_upto(nodes, edges, k).0.subrange(0, nodes.len() as int) == nodes,
        relinearized_upto(nodes, edges, k).1.len() == edges.len() + multiplies_before(nodes, k),
    decreases k,
{
    if k > 0 {
        lemma_relinearized_upto_shape(nodes, edges, k - 1);
        let prev = relinearized_upto(nodes, edges, k - 1);
        if is_multiply(nodes, k - 1) {
            let g = relinearize_one(prev, (k - 1) as usize);
            assert(prev.0.subrange(0, nodes.len() as int) == nodes);
            assert(g.0.subrange(0, nodes.len() as int) =~= nodes);
        }
    }
}

proof fn lemma_multiplies_before_grows(nodes: NodeSeq, m: int, k: int)
    requires
        0 <= m < k,
    ensures
        multiplies_before(nodes, m) + (if is_multiply(nodes, m) { 1nat } else { 0nat }) <= multiplies_before(nodes, k),
    decreases k,
{
    if m < k - 1 {
        lemma_multiplies_before_grows(nodes, m, k - 1);
    }
}

/// The index of the `Relinearize` node that the pass gives multiplication `m`.
pub open spec fn relin_node_of(nodes: NodeSeq, m: int) -> int {
    (nodes.len() + multiplies_before(nodes, m)) as int
}

/// The index of the edge that the pass adds from multiplication `m`.
pub open spec fn relin_edge_of(nodes: NodeSeq, edges: EdgeSeq, m: int) -> int {
    (edges.len() + multiplies_before(nodes, m)) as int
}

/// Edge slot `j` of the input after the multiplications among the first `k`
/// nodes are relinearized.
pub open spec fn redirected_slot(nodes: NodeSeq, edges: EdgeSeq, j: int, k: int) -> Option<Edge<EdgeInfo>> {
    match edges[j] {
        Some(e) => if e.source < k && is_multiply(nodes, e.source as int) {
            Some(Edge { source: relin_node_of(nodes, e.source as int) as usize, ..e })
        } else {
            Some(e)
        },
        None => None,
    }
}

proof fn lemma_relinearized_upto_edges(nodes: NodeSeq, edges: EdgeSeq, k: int)
    requires
        0 <= k <= nodes.len(),
        nodes.len() + multiplies_before(nodes, k) <= usize::MAX,
    ensures
        ({
            let g = relinearized_upto(nodes, edges, k);
            &&& forall|j: int| 0 <= j < edges.len() ==> g.1[j] == #[trigger] redirected_slot(nodes, edges, j, k)
            &&& forall|t: int| 0 <= t < multiplies_before(nodes, k) ==> {
                &&& (#[trigger] g.1[edges.len() + t]) is Some
                &&& g.1[edges.len() + t]->Some_0.source < k
                &&& is_multiply(nodes, g.1[edges.len() + t]->Some_0.source as int)
                &&& multiplies_before(nodes, g.1[edges.len() + t]->Some_0.source as int) == t
                &&& g.1[edges.len() + t]->Some_0.target == nodes.len() + t
                &&& g.1[edges.len() + t]->Some_0.weight == EdgeInfo::UnaryOperand
            }
            &&& forall|i: int| nodes.len() <= i < g.0.len() ==> #[trigger] g.0[i] == Some(NodeInfo { operation: Operation::Relinearize })
        }),
    decreases k,
{
    lemma_relinearized_upto_shape(nodes, edges, k);
    if k > 0 {
        lemma_relinearized_upto_shape(nodes, edges, k - 1);
        lemma_multiplies_before_grows(nodes, k - 1, k);
        lemma_relinearized_upto_edges(nodes, edges, k - 1);
        let prev = relinearized_upto(nodes, edges, k - 1);
        let g = relinearized_upto(nodes, edges, k);
        if is_multiply(nodes, k - 1) {
            let m = (k - 1) as usize;
            let r = prev.0.len() as usize;
            assert forall|j: int| 0 <= j < edges.len() implies g.1[j] == #[trigger] redirected_slot(nodes, edges, j, k) by {
                assert(prev.1[j] == redirected_slot(nodes, edges, j, k - 1));
                assert(g.1[j] == redirect_sources(prev.1, m, r)[j]);
                if let Some(e) = edges[j] {
                    if e.source < k - 1 && is_multiply(nodes, e.source as int) {
                        lemma_multiplies_before_grows(nodes, e.source as int, k);
                    }
                }
            }
            assert forall|t: int| 0 <= t < multiplies_before(nodes, k) implies {
                &&& (#[trigger] g.1[edges.len() + t]) is Some
                &&& g.1[edges.len() + t]->Some_0.source < k
                &&& is_multiply(nodes, g.1[edges.len() + t]->Some_0.source as int)
                &&& multiplies_before(nodes, g.1[edges.len() + t]->Some_0.source as int) == t
                &&& g.1[edges.len() + t]->Some_0.target == nodes.len() + t
                &&& g.1[edges.len() + t]->Some_0.weight == EdgeInfo::UnaryOperand
            } by {
                if t < multiplies_before(nodes, k - 1) {
                    assert(g.1[edges.len() + t] == redirect_sources(prev.1, m, r)[edges.len() + t]);
                    assert(prev.1[edges.len() + t] is Some);
                }
            }
        } else {
            assert forall|j: int| 0 <= j < edges.len() implies g.1[j] == #[trigger] redirected_slot(nodes, edges, j, k) by {
                assert(prev.1[j] == redirected_slot(nodes, edges, j, k - 1));
            }
        }
    }
}

/// Relinearization rewires each multiplication `m`: its new `Relinearize`
/// node `r` is the one node that `m` feeds, through a single unary edge, and
/// every edge that left `m` before now leaves `r`, with the same target and
/// role.
pub proof fn lemma_relinearization_rewires(nodes: NodeSeq, edges: EdgeSeq, m: int)
    requires
        CircuitGraph::edges_wf(nodes, edges),
        is_multiply(nodes, m),
        nodes.len() + multiplies_before(nodes, nodes.len() as int) <= usize::MAX,
    ensures
        ({
            let g = relinearized(nodes, edges);
            let r = relin_node_of(nodes, m);
            &&& g.0[r] == Some(NodeInfo { operation: Operation::Relinearize })
            &&& 0 <= relin_edge_of(nodes, edges, m) < g.1.len()
            &&& g.1[relin_edge_of(nodes, edges, m)] == Some(
                Edge { source: m as usize, target: r as usize, weight: EdgeInfo::UnaryOperand },
            )
            &&& forall|j: int|
                0 <= j < g.1.len() && (#[trigger] g.1[j]) is Some && g.1[j]->Some_0.source == m
                    ==> j == relin_edge_of(nodes, edges, m)
            &&& forall|j: int|
                0 <= j < edges.len() && (#[trigger] edges[j]) is Some && edges[j]->Some_0.source == m
                    ==> g.1[j] == Some(Edge { source: r as usize, ..edges[j]->Some_0 })
        }),
{
    let k = nodes.len() as int;
    lemma_relinearized_upto_shape(nodes, edges, k);
    lemma_relinearized_upto_edges(nodes, edges, k);
    lemma_multiplies_before_grows(nodes, m, k);
    let g = relinearized(nodes, edges);
    let t = multiplies_before(nodes, m) as int;
    let ix = edges.len() + t;
    assert(g.1[ix] is Some);
    let m2 = g.1[ix]->Some_0.source as int;
    if m2 != m {
        if m2 < m {
            lemma_multiplies_before_grows(nodes, m2, m);
        } else {
            lemma_multiplies_before_grows(nodes, m, m2);
        }
    }
    assert forall|j: int|
        0 <= j < g.1.len() && (#[trigger] g.1[j]) is Some && g.1[j]->Some_0.source == m
            implies j == relin_edge_of(nodes, edges, m) by {
        if j < edges.len() {
            assert(g.1[j] == redirected_slot(nodes, edges, j, k));
            let e = edges[j]->Some_0;
            if is_multiply(nodes, e.source as int) {
                lemma_multiplies_before_grows(nodes, e.source as int, k);
            }
        } else {
            let t2 = j - edges.len();
            assert(g.1[edges.len() + t2] is Some);
        }
    }
    assert forall|j: int|
        0 <= j < edges.len() && (#[trigger] edges[j]) is Some && edges[j]->Some_0.source == m
            implies g.1[j] == Some(Edge { source: relin_node_of(nodes, m) as usize, ..edges[j]->Some_0 }) by {
        assert(g.1[j] == redirected_slot(nodes, edges, j, k));
    }
}

proof fn lemma_relinearized_keeps_paths(nodes: NodeSeq, edges: EdgeSeq, u: int, k: nat)
    requires
        CircuitGraph::edges_wf(nodes, edges),
        nodes.len() + multiplies_before(nodes, nodes.len() as int) <= usize::MAX,
        CircuitGraph::reaches_within(nodes, edges, u, output_roots(nodes), k),
    ensures
        0 <= u < nodes.len(),
        ({
            let g = relinearized(nodes, edges);
            CircuitGraph::reaches(g.0, g.1, u, output_roots(g.0))
        }),
    decreases k,
{
    let n = nodes.len() as int;
    let g = relinearized(nodes, edges);
    lemma_relinearized_upto_shape(nodes, edges, n);
    lemma_relinearized_upto_edges(nodes, edges, n);
    if CircuitGraph::live_in(nodes, u) && output_roots(nodes)(u) {
        assert(g.0.subrange(0, n)[u] == nodes[u]);
        assert(output_roots(g.0)(u));
        assert(CircuitGraph::reaches_within(g.0, g.1, u, output_roots(g.0), 0));
    } else {
        let j = choose|j: int|
            0 <= j < edges.len() && (#[trigger] edges[j]) is Some && edges[j]->Some_0.source == u
                && CircuitGraph::reaches_within(nodes, edges, edges[j]->Some_0.target as int, output_roots(nodes), (k - 1) as nat);
        let e = edges[j]->Some_0;
        let v = e.target as int;
        lemma_relinearized_keeps_paths(nodes, edges, v, (k - 1) as nat);
        let k2 = choose|k2: nat| CircuitGraph::reaches_within(g.0, g.1, v, output_roots(g.0), k2);
        assert(CircuitGraph::live_in(nodes, u));
        assert(g.0.subrange(0, n)[u] == nodes[u]);
        assert(g.1[j] == redirected_slot(nodes, edges, j, n));
        if is_multiply(nodes, u) {
            lemma_multiplies_before_grows(nodes, u, n);
            let r = relin_node_of(nodes, u);
            let re = relin_edge_of(nodes, edges, u);
            assert(g.1[j] == Some(Edge { source: r as usize, ..e }));
            assert(CircuitGraph::reaches_within(g.0, g.1, r, output_roots(g.0), k2 + 1));
            let t = multiplies_before(nodes, u) as int;
            assert(g.1[edges.len() + t] is Some);
            let m2 = g.1[re]->Some_0.source as int;
            if m2 != u {
                if m2 < u {
                    lemma_multiplies_before_grows(nodes, m2, u);
                } else {
                    lemma_multiplies_before_grows(nodes, u, m2);
                }
            }
            assert(g.1[re] == Some(Edge { source: u as usize, target: r as usize, weight: EdgeInfo::UnaryOperand }));
            assert(CircuitGraph::reaches_within(g.0, g.1, u, output_roots(g.0), k2 + 2));
        } else {
            assert(g.1[j] == Some(e));
            assert(CircuitGraph::reaches_within(g.0, g.1, u, output_roots(g.0), k2 + 1));
        }
    }
}

/// Through the whole transform, relinearization then pruning, a
/// multiplication `m` that has a path to an output keeps its place and gets
/// one `Relinearize` node `r`: the unary edge from `m` to `r` is the only
/// edge that leaves `m` and the only one that enters `r`, and each edge that
/// left `m` and whose target survives now leaves `r`, with its role.
pub proof fn lemma_transform_rewires_multiply(nodes: NodeSeq, edges: EdgeSeq, m: int)
    requires
        CircuitGraph::edges_wf(nodes, edges),
        is_multiply(nodes, m),
        reaches_output(nodes, edges, m),
        nodes.len() + multiplies_before(nodes, nodes.len() as int) <= usize::MAX,
    ensures
        ({
            let g = relinearized(nodes, edges);
            let f = pruned(g.0, g.1);
            let r = relin_node_of(nodes, m);
            let re = relin_edge_of(nodes, edges, m);
            &&& f.0[m] == nodes[m]
            &&& f.0[r] == Some(NodeInfo { operation: Operation::Relinearize })
            &&& 0 <= re < f.1.len()
            &&& f.1[re] == Some(Edge { source: m as usize, target: r as usize, weight: EdgeInfo::UnaryOperand })
            &&& forall|j: int| 0 <= j < f.1.len() && (#[trigger] f.1[j]) is Some && f.1[j]->Some_0.source == m ==> j == re
            &&& forall|j: int| 0 <= j < f.1.len() && (#[trigger] f.1[j]) is Some && f.1[j]->Some_0.target == r ==> j == re
            &&& forall|j: int|
                0 <= j < edges.len() && (#[trigger] edges[j]) is Some && edges[j]->Some_0.source == m
                    && f.0[edges[j]->Some_0.target as int] is Some
                    ==> f.1[j] == Some(Edge { source: r as usize, ..edges[j]->Some_0 })
        }),
{
    let n = nodes.len() as int;
    let g = relinearized(nodes, edges);
    let f = pruned(g.0, g.1);
    let r = relin_node_of(nodes, m);
    let re = relin_edge_of(nodes, edges, m);
    let keep = Seq::new(g.0.len(), |i: int| reaches_output(g.0, g.1, i));
    lemma_relinearized_upto_shape(nodes, edges, n);
    lemma_relinearized_upto_edges(nodes, edges, n);
    lemma_relinearization_rewires(nodes, edges, m);
    lemma_multiplies_before_grows(nodes, m, n);
    let k = choose|k: nat| CircuitGraph::reaches_within(nodes, edges, m, output_roots(nodes), k);
    lemma_relinearized_keeps_paths(nodes, edges, m, k);
    assert(g.0.subrange(0, n)[m] == nodes[m]);
    // m is no output, so its path to an output leaves through its one edge, to r.
    let k2 = choose|k2: nat| CircuitGraph::reaches_within(g.0, g.1, m, output_roots(g.0), k2);
    assert(!output_roots(g.0)(m));
    let j0 = choose|j: int|
        0 <= j < g.1.len() && (#[trigger] g.1[j]) is Some && g.1[j]->Some_0.source == m
            && CircuitGraph::reaches_within(g.0, g.1, g.1[j]->Some_0.target as int, output_roots(g.0), (k2 - 1) as nat);
    assert(j0 == re);
    assert(CircuitGraph::live_in(g.0, r));
    assert(reaches_output(g.0, g.1, r));
    assert(reaches_output(g.0, g.1, m));
    assert(keep[m] && keep[r]);
    assert(f.0[m] == g.0[m]);
    assert(f.0[r] == g.0[r]);
    assert(f.1[re] == g.1[re]);
    assert forall|j: int| 0 <= j < f.1.len() && (#[trigger] f.1[j]) is Some && f.1[j]->Some_0.source == m implies j == re by {
        assert(g.1[j] is Some);
    }
    assert forall|j: int| 0 <= j < f.1.len() && (#[trigger] f.1[j]) is Some && f.1[j]->Some_0.target == r implies j == re by {
        assert(g.1[j] is Some);
        if j < edges.len() {
            assert(g.1[j] == redirected_slot(nodes, edges, j, n));
            assert(edges[j] is Some);
        } else {
            let t = j - edges.len();
            assert(g.1[edges.len() + t] is Some);
        }
    }
    assert forall|j: int|
        0 <= j < edges.len() && (#[trigger] edges[j]) is Some && edges[j]->Some_0.source == m
            && f.0[edges[j]->Some_0.target as int] is Some
            implies f.1[j] == Some(Edge { source: r as usize, ..edges[j]->Some_0 }) by {
        let c = edges[j]->Some_0.target as int;
        assert(CircuitGraph::live_in(nodes, c));
        assert(keep[c]);
    }
}

proof fn lemma_relinearized_upto_no_multiply(nodes: NodeSeq, edges: EdgeSeq, k: int)
    requires
        forall|i: int| 0 <= i < nodes.len() ==> !is_multiply(nodes, i),
    ensures
        relinearized_upto(nodes, edges, k) == (nodes, edges),
    decreases k,
{
    if k > 0 {
        lemma_relinearized_upto_no_multiply(nodes, edges, k - 1);
    }
}

/// Relinearizing twice gives the graph that relinearizing once gives, for a
/// graph without multiplications. A multiplication breaks this: each pass
/// puts one more `Relinearize` node after it.
pub proof fn lemma_relinearization_idempotent(nodes: NodeSeq, edges: EdgeSeq)
    requires
        forall|i: int| 0 <= i < nodes.len() ==> !is_multiply(nodes, i),
    ensures
        ({
            let g = relinearized(nodes, edges);
            relinearized(g.0, g.1) == g
        }),
{
    lemma_relinearized_upto_no_multiply(nodes, edges, nodes.len() as int);
}

/// Puts a `Relinearize` node after each multiplication. Visiting the nodes in
/// index order, each multiplication `m` gets a new `Relinearize` node `r`;
/// every edge that left `m` leaves `r` instead, with its role, and a unary
/// edge joins `m` to `r`. Nodes added by the pass are not visited.
pub fn apply_insert_relinearizations(ir: &mut Circuit)
    requires
        old(ir).graph.wf(),
    ensures
        final(ir).scheme_type == old(ir).scheme_type,
        final(ir).graph.wf(),
        (final(ir).graph.nodes@, final(ir).graph.edges@) == relinearized(old(ir).graph.nodes@, old(ir).graph.edges@),
{
    let ghost nodes0 = ir.graph.nodes@;
    let ghost edges0 = ir.graph.edges@;
    let n = ir.graph.node_bound();
    let mut m: usize = 0;
    while m < n
        invariant
            m <= n == nodes0.len(),
            CircuitGraph::edges_wf(nodes0, edges0),
            ir.scheme_type == old(ir).scheme_type,
            nodes0 == old(ir).graph.nodes@,
            edges0 == old(ir).graph.edges@,
            ir.graph.wf(),
            (ir.graph.nodes@, ir.graph.edges@) == relinearized_upto(nodes0, edges0, m as int),
        decreases n - m,
    {
        proof {
            lemma_relinearized_upto_shape(nodes0, edges0, m as int);
            assert(ir.graph.nodes@.subrange(0, n as int)[m as int] == nodes0[m as int]);
        }
        let is_mul = match ir.graph.node_weight(m) {
            Some(info) => {
                match info.operation {
                    Operation::Multiply => true,
                    _ => false,
                }
            },
            None => false,
        };
        if is_mul {
            let ghost g = (ir.graph.nodes@, ir.graph.edges@);
            let r = ir.graph.add_node(NodeInfo::new(Operation::Relinearize));
            let n_edges = ir.graph.edge_bound();
            let mut j: usize = 0;
            while j < n_edges
                invariant
                    j <= n_edges == g.1.len(),
                    m < n == nodes0.len(),
                    r == g.0.len(),
                    ir.scheme_type == old(ir).scheme_type,
                    ir.graph.wf(),
                    ir.graph.nodes@ == g.0.push(Some(NodeInfo { operation: Operation::Relinearize })),
                    CircuitGraph::live_in(ir.graph.nodes@, m as int),
                    ir.graph.edges@.len() == n_edges,
                    forall|y: int| 0 <= y < j ==> ir.graph.edges@[y] == #[trigger] redirect_sources(g.1, m, r)[y],
                    forall|y: int| j <= y < n_edges ==> ir.graph.edges@[y] == #[trigger] g.1[y],
                decreases n_edges - j,
            {
                match ir.graph.edge(j) {
                    Some(e) => {
                        if e.source == m {
                            ir.graph.move_edge_source(j, r);
                        }
                    },
                    None => {},
                }
                j = j + 1;
            }
            ir.graph.add_edge(m, r, EdgeInfo::UnaryOperand);
            proof {
                assert(ir.graph.edges@ =~= relinearize_one(g, m).1);
                assert(ir.graph.nodes@ =~= relinearize_one(g, m).0);
            }
        }
        m = m + 1;
    }
}

/// Relinearizes every multiplication, then drops each node that no output
/// depends on. Surviving nodes keep their indices.
pub fn transform_intermediate_represenation(ir: &mut Circuit)
    requires
        old(ir).graph.wf(),
    ensures
        final(ir).scheme_type == old(ir).scheme_type,
        final(ir).graph.wf(),
        (final(ir).graph.nodes@, final(ir).graph.edges@) == ({
            let g = relinearized(old(ir).graph.nodes@, old(ir).graph.edges@);
            pruned(g.0, g.1)
        }),
{
    apply_insert_relinearizations(ir);
    let outputs = ir.get_outputs();
    let bound = ir.graph.node_bound();
    let ghost nodes = ir.graph.nodes@;
    let ghost edges = ir.graph.edges@;
    proof {
        assert forall|i: int| CircuitGraph::live_in(nodes, i) implies
            in_roots(outputs@)(i) == output_roots(nodes)(i) by {
            assert(in_roots(outputs@)(i) == outputs@.contains(i as usize));
            assert(output_roots(nodes)(i) == is_output_node(nodes, i));
            if outputs@.contains(i as usize) {
                let k = choose|k: int| 0 <= k < outputs@.len() && outputs@[k] == i as usize;
                assert(is_output_node(nodes, outputs@[k] as int));
            }
        }
        assert forall|i: int, k: nat| CircuitGraph::reaches_within(nodes, edges, i, in_roots(outputs@), k)
            == #[trigger] CircuitGraph::reaches_within(nodes, edges, i, output_roots(nodes), k) by {
            CircuitGraph::lemma_reaches_same_roots(nodes, edges, i, in_roots(outputs@), output_roots(nodes), k);
        }
        assert forall|i: int| CircuitGraph::reaches(nodes, edges, i, in_roots(outputs@))
            == #[trigger] CircuitGraph::reaches(nodes, edges, i, output_roots(nodes)) by {
            if CircuitGraph::reaches(nodes, edges, i, in_roots(outputs@)) {
                let k = choose|k: nat| CircuitGraph::reaches_within(nodes, edges, i, in_roots(outputs@), k);
                assert(CircuitGraph::reaches_within(nodes, edges, i, output_roots(nodes), k));
            }
            if CircuitGraph::reaches(nodes, edges, i, output_roots(nodes)) {
                let k = choose|k: nat| CircuitGraph::reaches_within(nodes, edges, i, output_roots(nodes), k);
                assert(CircuitGraph::reaches_within(nodes, edges, i, in_roots(outputs@), k));
            }
        }
        assert(CircuitGraph::reach_marks(nodes, edges, in_roots(outputs@))
            =~= Seq::new(nodes.len(), |i: int| reaches_output(nodes, edges, i)));
    }
    *ir = ir.prune(&outputs);
}

} // verus!
