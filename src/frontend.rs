//! The frontend IR: the graph that capturing a circuit function builds, the
//! context that builds it, and its lowering into a backend circuit.

use vstd::prelude::*;
use crate::circuit::{
    Circuit, CircuitGraph, EdgeInfo, Literal as CircuitLiteral, NodeInfo, Operation as CircuitOperation,
    OuterLiteral as CircuitOuterLiteral, SchemeType,
};
use crate::graph::{Edge, StableGraph};
use crate::params::Params;
use crate::transforms::{pruned, relinearized, transform_intermediate_represenation};

verus! {

/// The index of a node of the frontend graph.
pub type NodeIndex = usize;

/// The data of a literal node.
#[derive(PartialEq, Eq, Structural, Clone, Copy, Debug)]
pub enum Literal {
    /// An unsigned 64-bit integer.
    U64(u64),
}

/// An operation of the frontend IR.
#[derive(PartialEq, Eq, Structural, Clone, Copy, Debug)]
pub enum Operation {
    /// Loads a ciphertext from an input.
    InputCiphertext,
    /// Addition.
    Add,
    /// Subtraction.
    Sub,
    /// Multiplication.
    Multiply,
    /// A literal operand.
    Literal(Literal),
    /// Rotate left.
    RotateLeft,
    /// Rotate right.
    RotateRight,
    /// Swaps the rows of the SIMD vectors.
    SwapRows,
    /// Marks its operand as a result of the circuit.
    Output,
}

/// The role an edge plays for the node it enters.
#[derive(PartialEq, Eq, Structural, Clone, Copy, Debug)]
pub enum OperandInfo {
    /// The left operand.
    Left,
    /// The right operand.
    Right,
    /// The single operand.
    Unary,
}

/// The node slots of a frontend graph.
pub type FrontendNodes = Seq<Option<Operation>>;

/// The edge slots of a frontend graph.
pub type FrontendEdges = Seq<Option<Edge<OperandInfo>>>;

/// The graph type of the frontend IR.
pub type FrontendGraph = StableGraph<Operation, OperandInfo>;

/// The frontend IR of a circuit.
#[derive(Clone, Debug)]
pub struct FrontendCompilation {
    /// The dependency graph of the operations.
    pub graph: StableGraph<Operation, OperandInfo>,
}

/// The state of capturing a circuit: the graph under construction, the
/// parameters it targets, and storage for node indices.
#[derive(Clone, Debug)]
pub struct Context {
    pub compilation: FrontendCompilation,
    pub params: Params,
    pub indicies_store: Vec<NodeIndex>,
}

/// The position of input node `k` among the inputs: the number of input
/// nodes that were added before it.
pub open spec fn input_position(nodes: FrontendNodes, k: int) -> nat
    decreases k,
{
    if k <= 0 {
        0
    } else {
        input_position(nodes, k - 1) + if 0 <= k - 1 < nodes.len() && nodes[k - 1] == Some(Operation::InputCiphertext) {
            1nat
        } else {
            0nat
        }
    }
}

/// The backend operation for frontend operation `op`, for an input at
/// position `position`.
pub open spec fn lower_operation(op: Operation, position: nat) -> CircuitOperation {
    match op {
        Operation::InputCiphertext => CircuitOperation::InputCiphertext(position as usize),
        Operation::Add => CircuitOperation::Add,
        Operation::Sub => CircuitOperation::Sub,
        Operation::Multiply => CircuitOperation::Multiply,
        Operation::Literal(Literal::U64(x)) => CircuitOperation::Literal(CircuitOuterLiteral::Scalar(CircuitLiteral::U64(x))),
        Operation::RotateLeft => CircuitOperation::ShiftLeft,
        Operation::RotateRight => CircuitOperation::ShiftRight,
        Operation::SwapRows => CircuitOperation::SwapRows,
        Operation::Output => CircuitOperation::OutputCiphertext,
    }
}

/// The backend role for frontend role `info`.
pub open spec fn lower_operand(info: OperandInfo) -> EdgeInfo {
    match info {
        OperandInfo::Left => EdgeInfo::LeftOperand,
        OperandInfo::Right => EdgeInfo::RightOperand,
        OperandInfo::Unary => EdgeInfo::UnaryOperand,
    }
}

/// The lowered node slots: each node keeps its index.
pub open spec fn lowered_nodes(nodes: FrontendNodes) -> Seq<Option<NodeInfo>> {
    Seq::new(
        nodes.len(),
        |i: int|
            match nodes[i] {
                Some(op) => Some(NodeInfo { operation: lower_operation(op, input_position(nodes, i)) }),
                None => None,
            },
    )
}

/// The lowered edge slots: each edge keeps its index and its ends.
pub open spec fn lowered_edges(edges: FrontendEdges) -> Seq<Option<Edge<EdgeInfo>>> {
    Seq::new(
        edges.len(),
        |j: int|
            match edges[j] {
                Some(e) => Some(Edge { source: e.source, target: e.target, weight: lower_operand(e.weight) }),
                None => None,
            },
    )
}

/// The index of the first literal node holding `literal` in `nodes`, if any.
pub open spec fn is_first_literal(nodes: FrontendNodes, literal: Literal, i: int) -> bool {
    &&& 0 <= i < nodes.len()
    &&& nodes[i] == Some(Operation::Literal(literal))
    &&& forall|k: int| 0 <= k < i ==> nodes[k] != Some(Operation::Literal(literal))
}

/// No two literal nodes hold the same value.
pub open spec fn literals_unique(nodes: FrontendNodes) -> bool {
    forall|a: int, b: int|
        0 <= a < nodes.len() && 0 <= b < nodes.len() && nodes[a] is Some && nodes[a]->Some_0 is Literal
            && #[trigger] nodes[a] == #[trigger] nodes[b] ==> a == b
}

/// petgraph's answer to whether two frontend graphs, vacant slots left out,
/// are isomorphic with equal operations and roles. For graphs without
/// parallel edges it is exactly that: some one-to-one map between the nodes
/// keeps every operation and every edge with its role. Where two edges join
/// the same pair of nodes (`a * a`), only the role of one of them is
/// compared.
pub uninterp spec fn frontend_isomorphic(
    a_nodes: FrontendNodes,
    a_edges: FrontendEdges,
    b_nodes: FrontendNodes,
    b_edges: FrontendEdges,
) -> bool;

/// The number of occupied slots of `s`.
pub open spec fn occupied<T>(s: Seq<Option<T>>) -> nat {
    s.filter(|x: Option<T>| x is Some).len()
}

/// Whether `a` and `b` are the same operation.
pub fn same_operation(a: &Operation, b: &Operation) -> (r: bool)
    ensures
        r == (*a == *b),
{
    *a == *b
}

/// Whether `a` and `b` are the same operand role.
pub fn same_operand(a: &OperandInfo, b: &OperandInfo) -> (r: bool)
    ensures
        r == (*a == *b),
{
    *a == *b
}

/// Relies on petgraph's `is_isomorphic_matching` (VF2) over the two graphs
/// with their vacant slots left out. Its answer depends on the graphs alone,
/// and is `false` at once where the node or edge counts differ. petgraph
/// documents it for graphs without parallel edges, where it decides
/// isomorphism with equal operations and roles.
#[verifier::external_body]
fn graphs_isomorphic(a: &FrontendGraph, b: &FrontendGraph) -> (r: bool)
    requires
        a.wf(),
        b.wf(),
    ensures
        r == frontend_isomorphic(a.nodes@, a.edges@, b.nodes@, b.edges@),
        r ==> occupied(a.nodes@) == occupied(b.nodes@) && occupied(a.edges@) == occupied(b.edges@),
{
    let dense = |s: &FrontendGraph| {
        let mut g = petgraph::Graph::new();
        let ids: Vec<_> = s.nodes.iter().map(|n| n.map(|w| g.add_node(w))).collect();
        for e in s.edges.iter().flatten() {
            g.add_edge(ids[e.source].unwrap(), ids[e.target].unwrap(), e.weight);
        }
        g
    };
    petgraph::algo::is_isomorphic_matching(&dense(a), &dense(b), same_operation, same_operand)
}

impl FrontendCompilation {
    /// Whether the two graphs are isomorphic, matching operations and
    /// operand roles; node indices do not matter. Exact for graphs without
    /// parallel edges; see `frontend_isomorphic`.
    pub fn eq(&self, b: &FrontendCompilation) -> (r: bool)
        requires
            self.graph.wf(),
            b.graph.wf(),
        ensures
            r == frontend_isomorphic(self.graph.nodes@, self.graph.edges@, b.graph.nodes@, b.graph.edges@),
            r ==> occupied(self.graph.nodes@) == occupied(b.graph.nodes@),
            r ==> occupied(self.graph.edges@) == occupied(b.graph.edges@),
    {
        graphs_isomorphic(&self.graph, &b.graph)
    }

    /// The frontend graph rewritten into a backend BFV circuit: each node
    /// keeps its index and gets the matching backend operation, an input
    /// its position among the inputs; each edge keeps its index, its ends
    /// and its role.
    pub fn lower(&self) -> (r: Circuit)
        requires
            self.graph.wf(),
        ensures
            r.scheme_type == SchemeType::Bfv,
            r.graph.nodes@ == lowered_nodes(self.graph.nodes@),
            r.graph.edges@ == lowered_edges(self.graph.edges@),
            r.graph.wf(),
    {
        let ghost nodes = self.graph.nodes@;
        let ghost edges = self.graph.edges@;
        let mut circuit = Circuit::new(SchemeType::Bfv);
        let n = self.graph.node_bound();
        let mut position: usize = 0;
        let mut i: usize = 0;
        while i < n
            invariant
                i <= n == nodes.len(),
                nodes == self.graph.nodes@,
                position == input_position(nodes, i as int),
                position <= i,
                circuit.scheme_type == SchemeType::Bfv,
                circuit.graph.edges@.len() == 0,
                circuit.graph.nodes@ == lowered_nodes(nodes).take(i as int),
            decreases n - i,
        {
            let lowered = match self.graph.node_weight(i) {
                Some(op) => {
                    let operation = match op {
                        Operation::InputCiphertext => CircuitOperation::InputCiphertext(position),
                        Operation::Add => CircuitOperation::Add,
                        Operation::Sub => CircuitOperation::Sub,
                        Operation::Multiply => CircuitOperation::Multiply,
                        Operation::Literal(Literal::U64(x)) => CircuitOperation::Literal(
                            CircuitOuterLiteral::Scalar(CircuitLiteral::U64(x)),
                        ),
                        Operation::RotateLeft => CircuitOperation::ShiftLeft,
                        Operation::RotateRight => CircuitOperation::ShiftRight,
                        Operation::SwapRows => CircuitOperation::SwapRows,
                        Operation::Output => CircuitOperation::OutputCiphertext,
                    };
                    Some(NodeInfo::new(operation))
                },
                None => None,
            };
            if let Some(Operation::InputCiphertext) = self.graph.node_weight(i) {
                position = position + 1;
            }
            circuit.graph.nodes.push(lowered);
            assert(circuit.graph.nodes@ =~= lowered_nodes(nodes).take(i + 1));
            i = i + 1;
        }
        let m = self.graph.edge_bound();
        let mut j: usize = 0;
        while j < m
            invariant
                j <= m == edges.len(),
                edges == self.graph.edges@,
                circuit.scheme_type == SchemeType::Bfv,
                circuit.graph.nodes@ == lowered_nodes(nodes),
                circuit.graph.edges@ == lowered_edges(edges).take(j as int),
            decreases m - j,
        {
            let lowered = match self.graph.edge(j) {
                Some(e) => {
                    let weight = match e.weight {
                        OperandInfo::Left => EdgeInfo::LeftOperand,
                        OperandInfo::Right => EdgeInfo::RightOperand,
                        OperandInfo::Unary => EdgeInfo::UnaryOperand,
                    };
                    Some(Edge { source: e.source, target: e.target, weight })
                },
                None => None,
            };
            circuit.graph.edges.push(lowered);
            assert(circuit.graph.edges@ =~= lowered_edges(edges).take(j + 1));
            j = j + 1;
        }
        assert(circuit.graph.nodes@ =~= lowered_nodes(nodes));
        assert(circuit.graph.edges@ =~= lowered_edges(edges));
        assert forall|k: int| 0 <= k < edges.len() && (#[trigger] circuit.graph.edges@[k]) is Some implies {
            &&& CircuitGraph::live_in(circuit.graph.nodes@, circuit.graph.edges@[k]->Some_0.source as int)
            &&& CircuitGraph::live_in(circuit.graph.nodes@, circuit.graph.edges@[k]->Some_0.target as int)
        } by {
            assert(edges[k] is Some);
        }
        circuit
    }

    /// Compiles the frontend graph into a backend circuit: lowers it, puts a
    /// `Relinearize` node after each multiplication, and drops the nodes
    /// that no output depends on.
    pub fn compile(&self) -> (r: Circuit)
        requires
            self.graph.wf(),
        ensures
            r.scheme_type == SchemeType::Bfv,
            r.graph.wf(),
            (r.graph.nodes@, r.graph.edges@) == ({
                let g = relinearized(lowered_nodes(self.graph.nodes@), lowered_edges(self.graph.edges@));
                pruned(g.0, g.1)
            }),
    {
        let mut circuit = self.lower();
        transform_intermediate_represenation(&mut circuit);
        circuit
    }
}

impl Context {
    /// The graph under construction is well formed, with at most one node
    /// per literal value.
    pub open spec fn wf(&self) -> bool {
        &&& self.compilation.graph.wf()
        &&& literals_unique(self.compilation.graph.nodes@)
    }

    /// A context with an empty graph for `params`.
    pub fn new(params: &Params) -> (r: Context)
        ensures
            r.compilation.graph.nodes@.len() == 0,
            r.compilation.graph.edges@.len() == 0,
            r.wf(),
            r.params.lattice_dimension == params.lattice_dimension,
            r.params.plain_modulus == params.plain_modulus,
            r.params.coeff_modulus@ == params.coeff_modulus@,
            r.params.scheme_type == params.scheme_type,
            r.params.security_level == params.security_level,
            r.indicies_store@.len() == 0,
    {
        Context {
            compilation: FrontendCompilation { graph: StableGraph::new() },
            params: params.copy(),
            indicies_store: Vec::new(),
        }
    }

    fn add_2_input(&mut self, op: Operation, left: NodeIndex, right: NodeIndex) -> (r: NodeIndex)
        requires
            !(op is Literal),
            old(self).compilation.graph.is_live(left as int),
            old(self).compilation.graph.is_live(right as int),
        ensures
            r == old(self).compilation.graph.nodes@.len(),
            final(self).compilation.graph.nodes@ == old(self).compilation.graph.nodes@.push(Some(op)),
            final(self).compilation.graph.edges@ == old(self).compilation.graph.edges@.push(
                Some(Edge { source: left, target: r, weight: OperandInfo::Left }),
            ).push(Some(Edge { source: right, target: r, weight: OperandInfo::Right })),
            old(self).wf() ==> final(self).wf(),
            final(self).params == old(self).params,
            final(self).indicies_store == old(self).indicies_store,
    {
        let new_id = self.compilation.graph.add_node(op);
        self.compilation.graph.add_edge(left, new_id, OperandInfo::Left);
        self.compilation.graph.add_edge(right, new_id, OperandInfo::Right);
        new_id
    }

    fn add_1_input(&mut self, op: Operation, i: NodeIndex) -> (r: NodeIndex)
        requires
            !(op is Literal),
            old(self).compilation.graph.is_live(i as int),
        ensures
            r == old(self).compilation.graph.nodes@.len(),
            final(self).compilation.graph.nodes@ == old(self).compilation.graph.nodes@.push(Some(op)),
            final(self).compilation.graph.edges@ == old(self).compilation.graph.edges@.push(
                Some(Edge { source: i, target: r, weight: OperandInfo::Unary }),
            ),
            old(self).wf() ==> final(self).wf(),
            final(self).params == old(self).params,
            final(self).indicies_store == old(self).indicies_store,
    {
        let new_id = self.compilation.graph.add_node(op);
        self.compilation.graph.add_edge(i, new_id, OperandInfo::Unary);
        new_id
    }

    /// Adds an input node.
    pub fn add_input(&mut self) -> (r: NodeIndex)
        ensures
            r == old(self).compilation.graph.nodes@.len(),
            final(self).compilation.graph.nodes@ == old(self).compilation.graph.nodes@.push(Some(Operation::InputCiphertext)),
            final(self).compilation.graph.edges@ == old(self).compilation.graph.edges@,
            old(self).wf() ==> final(self).wf(),
            final(self).params == old(self).params,
            final(self).indicies_store == old(self).indicies_store,
    {
        self.compilation.graph.add_node(Operation::InputCiphertext)
    }

    /// Adds a subtraction of `left` by `right`: `left` enters as the left operand,
    /// `right` as the right one.
    pub fn add_subtraction(&mut self, left: NodeIndex, right: NodeIndex) -> (r: NodeIndex)
        requires
            old(self).compilation.graph.is_live(left as int),
            old(self).compilation.graph.is_live(right as int),
        ensures
            r == old(self).compilation.graph.nodes@.len(),
            final(self).compilation.graph.nodes@ == old(self).compilation.graph.nodes@.push(Some(Operation::Sub)),
            final(self).compilation.graph.edges@ == old(self).compilation.graph.edges@.push(
                Some(Edge { source: left, target: r, weight: OperandInfo::Left }),
            ).push(Some(Edge { source: right, target: r, weight: OperandInfo::Right })),
            old(self).wf() ==> final(self).wf(),
            final(self).params == old(self).params,
            final(self).indicies_store == old(self).indicies_store,
    {
        self.add_2_input(Operation::Sub, left, right)
    }

    /// Adds an addition of `left` by `right`: `left` enters as the left operand,
    /// `right` as the right one.
    pub fn add_addition(&mut self, left: NodeIndex, right: NodeIndex) -> (r: NodeIndex)
        requires
            old(self).compilation.graph.is_live(left as int),
            old(self).compilation.graph.is_live(right as int),
        ensures
            r == old(self).compilation.graph.nodes@.len(),
            final(self).compilation.graph.nodes@ == old(self).compilation.graph.nodes@.push(Some(Operation::Add)),
            final(self).compilation.graph.edges@ == old(self).compilation.graph.edges@.push(
                Some(Edge { source: left, target: r, weight: OperandInfo::Left }),
            ).push(Some(Edge { source: right, target: r, weight: OperandInfo::Right })),
            old(self).wf() ==> final(self).wf(),
            final(self).params == old(self).params,
            final(self).indicies_store == old(self).indicies_store,
    {
        self.add_2_input(Operation::Add, left, right)
    }

    /// Adds a multiplication of `left` by `right`: `left` enters as the left operand,
    /// `right` as the right one.
    pub fn add_multiplication(&mut self, left: NodeIndex, right: NodeIndex) -> (r: NodeIndex)
        requires
            old(self).compilation.graph.is_live(left as int),
            old(self).compilation.graph.is_live(right as int),
        ensures
            r == old(self).compilation.graph.nodes@.len(),
            final(self).compilation.graph.nodes@ == old(self).compilation.graph.nodes@.push(Some(Operation::Multiply)),
            final(self).compilation.graph.edges@ == old(self).compilation.graph.edges@.push(
                Some(Edge { source: left, target: r, weight: OperandInfo::Left }),
            ).push(Some(Edge { source: right, target: r, weight: OperandInfo::Right })),
            old(self).wf() ==> final(self).wf(),
            final(self).params == old(self).params,
            final(self).indicies_store == old(self).indicies_store,
    {
        self.add_2_input(Operation::Multiply, left, right)
    }

    /// Returns the node of `literal`, adding one only where the graph has
    /// none yet: a graph holds at most one node per literal value.
    pub fn add_literal(&mut self, literal: Literal) -> (r: NodeIndex)
        ensures
            (exists|i: int| is_first_literal(old(self).compilation.graph.nodes@, literal, i)) ==> {
                &&& is_first_literal(old(self).compilation.graph.nodes@, literal, r as int)
                &&& final(self).compilation.graph.nodes@ == old(self).compilation.graph.nodes@
            },
            !(exists|i: int| is_first_literal(old(self).compilation.graph.nodes@, literal, i)) ==> {
                &&& r == old(self).compilation.graph.nodes@.len()
                &&& final(self).compilation.graph.nodes@ == old(self).compilation.graph.nodes@.push(Some(Operation::Literal(literal)))
            },
            final(self).compilation.graph.edges@ == old(self).compilation.graph.edges@,
            old(self).wf() ==> final(self).wf(),
            final(self).params == old(self).params,
            final(self).indicies_store == old(self).indicies_store,
    {
        let ghost nodes = self.compilation.graph.nodes@;
        let n = self.compilation.graph.node_bound();
        let mut i: usize = 0;
        while i < n
            invariant
                i <= n == nodes.len(),
                nodes == self.compilation.graph.nodes@,
                forall|k: int| 0 <= k < i ==> nodes[k] != Some(Operation::Literal(literal)),
            decreases n - i,
        {
            match self.compilation.graph.node_weight(i) {
                Some(Operation::Literal(x)) => {
                    if x == literal {
                        return i;
                    }
                },
                _ => {},
            }
            i = i + 1;
        }
        self.compilation.graph.add_node(Operation::Literal(literal))
    }

    /// Adds a left rotation of `left` by `right`: `left` enters as the left operand,
    /// `right` as the right one.
    pub fn add_rotate_left(&mut self, left: NodeIndex, right: NodeIndex) -> (r: NodeIndex)
        requires
            old(self).compilation.graph.is_live(left as int),
            old(self).compilation.graph.is_live(right as int),
        ensures
            r == old(self).compilation.graph.nodes@.len(),
            final(self).compilation.graph.nodes@ == old(self).compilation.graph.nodes@.push(Some(Operation::RotateLeft)),
            final(self).compilation.graph.edges@ == old(self).compilation.graph.edges@.push(
                Some(Edge { source: left, target: r, weight: OperandInfo::Left }),
            ).push(Some(Edge { source: right, target: r, weight: OperandInfo::Right })),
            old(self).wf() ==> final(self).wf(),
            final(self).params == old(self).params,
            final(self).indicies_store == old(self).indicies_store,
    {
        self.add_2_input(Operation::RotateLeft, left, right)
    }

    /// Adds a right rotation of `left` by `right`: `left` enters as the left operand,
    /// `right` as the right one.
    pub fn add_rotate_right(&mut self, left: NodeIndex, right: NodeIndex) -> (r: NodeIndex)
        requires
            old(self).compilation.graph.is_live(left as int),
            old(self).compilation.graph.is_live(right as int),
        ensures
            r == old(self).compilation.graph.nodes@.len(),
            final(self).compilation.graph.nodes@ == old(self).compilation.graph.nodes@.push(Some(Operation::RotateRight)),
            final(self).compilation.graph.edges@ == old(self).compilation.graph.edges@.push(
                Some(Edge { source: left, target: r, weight: OperandInfo::Left }),
            ).push(Some(Edge { source: right, target: r, weight: OperandInfo::Right })),
            old(self).wf() ==> final(self).wf(),
            final(self).params == old(self).params,
            final(self).indicies_store == old(self).indicies_store,
    {
        self.add_2_input(Operation::RotateRight, left, right)
    }

    /// Adds an output node whose single operand is `i`.
    pub fn add_output(&mut self, i: NodeIndex) -> (r: NodeIndex)
        requires
            old(self).compilation.graph.is_live(i as int),
        ensures
            r == old(self).compilation.graph.nodes@.len(),
            final(self).compilation.graph.nodes@ == old(self).compilation.graph.nodes@.push(Some(Operation::Output)),
            final(self).compilation.graph.edges@ == old(self).compilation.graph.edges@.push(
                Some(Edge { source: i, target: r, weight: OperandInfo::Unary }),
            ),
            old(self).wf() ==> final(self).wf(),
            final(self).params == old(self).params,
            final(self).indicies_store == old(self).indicies_store,
    {
        self.add_1_input(Operation::Output, i)
    }
}

} // verus!
