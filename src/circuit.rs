//! The backend circuit: a graph of BFV operations with operand-role edges.

use vstd::prelude::*;
use crate::graph::{in_roots, Edge, StableGraph};

verus! {

/// The data of a literal node.
#[derive(PartialEq, Eq, Structural, Clone, Copy, Debug)]
pub enum Literal {
    /// An unsigned 64-bit integer.
    U64(u64),
}

/// A literal operand, as a scalar.
#[derive(PartialEq, Eq, Structural, Clone, Copy, Debug)]
pub enum OuterLiteral {
    /// A single value.
    Scalar(Literal),
}

/// An operation of the backend circuit.
#[derive(PartialEq, Eq, Structural, Clone, Copy, Debug)]
pub enum Operation {
    /// Loads the input ciphertext at the given argument position.
    InputCiphertext(usize),
    /// A literal operand.
    Literal(OuterLiteral),
    /// Addition.
    Add,
    /// Subtraction.
    Sub,
    /// Multiplication.
    Multiply,
    /// Rotation of the SIMD rows to the left.
    ShiftLeft,
    /// Rotation of the SIMD rows to the right.
    ShiftRight,
    /// Swaps the two SIMD rows.
    SwapRows,
    /// Marks its operand as a result of the circuit.
    OutputCiphertext,
    /// Brings a product back to a degree-2 ciphertext.
    Relinearize,
}

/// The label of a node of the circuit.
#[derive(PartialEq, Eq, Structural, Clone, Copy, Debug)]
pub struct NodeInfo {
    pub operation: Operation,
}

/// The role an edge plays for the node it enters.
#[derive(PartialEq, Eq, Structural, Clone, Copy, Debug)]
pub enum EdgeInfo {
    /// The left operand.
    LeftOperand,
    /// The right operand.
    RightOperand,
    /// The single operand.
    UnaryOperand,
}

/// The encryption scheme a circuit targets.
#[derive(PartialEq, Eq, Structural, Clone, Copy, Debug)]
pub enum SchemeType {
    /// Brakerski/Fan-Vercauteren.
    Bfv,
}

/// The node slots of a circuit graph.
pub type NodeSeq = Seq<Option<NodeInfo>>;

/// The edge slots of a circuit graph.
pub type EdgeSeq = Seq<Option<Edge<EdgeInfo>>>;

/// The graph type of a circuit.
pub type CircuitGraph = StableGraph<NodeInfo, EdgeInfo>;

impl NodeInfo {
    /// A node label for `operation`.
    pub fn new(operation: Operation) -> (r: NodeInfo)
        ensures
            r.operation == operation,
    {
        NodeInfo { operation }
    }
}

/// A compiled circuit: its scheme and its graph.
#[derive(Clone, Debug)]
pub struct Circuit {
    pub scheme_type: SchemeType,
    pub graph: StableGraph<NodeInfo, EdgeInfo>,
}

/// Node `i` exists and is an output.
pub open spec fn is_output_node(nodes: NodeSeq, i: int) -> bool {
    &&& 0 <= i < nodes.len()
    &&& nodes[i] is Some
    &&& nodes[i]->Some_0.operation is OutputCiphertext
}

/// The output nodes, as a predicate on node indices.
pub open spec fn output_roots(nodes: NodeSeq) -> spec_fn(int) -> bool {
    |x: int| is_output_node(nodes, x)
}

/// Node `i` exists and has a path, possibly empty, to an output.
pub open spec fn reaches_output(nodes: NodeSeq, edges: EdgeSeq, i: int) -> bool {
    CircuitGraph::reaches(nodes, edges, i, output_roots(nodes))
}

impl Circuit {
    /// An empty circuit for `scheme_type`.
    pub fn new(scheme_type: SchemeType) -> (r: Circuit)
        ensures
            r.scheme_type == scheme_type,
            r.graph.nodes@.len() == 0,
            r.graph.edges@.len() == 0,
            r.graph.wf(),
    {
        Circuit { scheme_type, graph: StableGraph::new() }
    }

    /// The indices of the output nodes, in increasing order.
    pub fn get_outputs(&self) -> (r: Vec<usize>)
        ensures
            forall|k: int| 0 <= k < r@.len() ==> is_output_node(self.graph.nodes@, #[trigger] r@[k] as int),
            forall|i: int| is_output_node(self.graph.nodes@, i) ==> r@.contains(i as usize),
            forall|a: int, b: int| 0 <= a < b < r@.len() ==> r@[a] < r@[b],
    {
        let mut r: Vec<usize> = Vec::new();
        let mut i: usize = 0;
        while i < self.graph.node_bound()
            invariant
                i <= self.graph.nodes@.len(),
                forall|k: int| 0 <= k < r@.len() ==> is_output_node(self.graph.nodes@, #[trigger] r@[k] as int) && r@[k] < i,
                forall|x: int| 0 <= x < i && is_output_node(self.graph.nodes@, x) ==> r@.contains(x as usize),
                forall|a: int, b: int| 0 <= a < b < r@.len() ==> r@[a] < r@[b],
            decreases self.graph.nodes@.len() - i,
        {
            let ghost prev = r@;
            match self.graph.node_weight(i) {
                Some(info) => {
                    if let Operation::OutputCiphertext = info.operation {
                        r.push(i);
                        assert(r@[r@.len() - 1] == i);
                        assert forall|x: usize| prev.contains(x) implies #[trigger] r@.contains(x) by {
                            let k = choose|k: int| 0 <= k < prev.len() && prev[k] == x;
                            assert(r@[k] == x);
                        }
                    }
                },
                None => {},
            }
            i = i + 1;
        }
        r
    }

    /// The circuit that keeps only the nodes that reach one of `roots`, and
    /// the edges between them, each under its index.
    pub fn prune(&self, roots: &Vec<usize>) -> (r: Circuit)
        requires
            self.graph.wf(),
        ensures
            r.scheme_type == self.scheme_type,
            r.graph.wf(),
            r.graph.nodes@ == CircuitGraph::kept_nodes(
                self.graph.nodes@,
                CircuitGraph::reach_marks(self.graph.nodes@, self.graph.edges@, in_roots(roots@)),
            ),
            r.graph.edges@ == CircuitGraph::kept_edges(
                self.graph.edges@,
                CircuitGraph::reach_marks(self.graph.nodes@, self.graph.edges@, in_roots(roots@)),
            ),
    {
        Circuit { scheme_type: self.scheme_type, graph: self.graph.from_reachable(roots) }
    }
}

} // verus!
