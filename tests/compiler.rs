use sunscreen_compiler::circuit::{
    EdgeInfo, Literal as CircuitLiteral, NodeInfo, Operation as CircuitOperation, OuterLiteral,
};
use sunscreen_compiler::graph::Edge;
use sunscreen_compiler::transforms::apply_insert_relinearizations;
use sunscreen_compiler::{
    transform_intermediate_represenation, Circuit, Context, Literal, OperandInfo, Operation,
    Params, SchemeType, SecurityLevel,
};

fn context() -> Context {
    Context::new(&Params {
        lattice_dimension: 4096,
        plain_modulus: 1_000_000,
        coeff_modulus: vec![],
        scheme_type: SchemeType::Bfv,
        security_level: SecurityLevel::TC128,
    })
}

fn op(c: &Circuit, i: usize) -> Option<CircuitOperation> {
    c.graph.nodes[i].map(|n| n.operation)
}

fn live_edges<E: Copy>(edges: &[Option<Edge<E>>]) -> Vec<(usize, usize, E)> {
    edges.iter().flatten().map(|e| (e.source, e.target, e.weight)).collect()
}

#[test]
fn builder_records_operand_roles() {
    let mut ctx = context();
    let a = ctx.add_input();
    let b = ctx.add_input();
    let s = ctx.add_subtraction(a, b);
    let l = ctx.add_rotate_left(s, b);
    let r = ctx.add_rotate_right(l, a);
    let o = ctx.add_output(r);
    let g = &ctx.compilation.graph;
    assert_eq!((a, b, s, l, r, o), (0, 1, 2, 3, 4, 5));
    assert_eq!(g.nodes[2], Some(Operation::Sub));
    assert_eq!(g.nodes[3], Some(Operation::RotateLeft));
    assert_eq!(g.nodes[4], Some(Operation::RotateRight));
    assert_eq!(g.nodes[5], Some(Operation::Output));
    assert_eq!(
        live_edges(&g.edges),
        vec![
            (0, 2, OperandInfo::Left),
            (1, 2, OperandInfo::Right),
            (2, 3, OperandInfo::Left),
            (1, 3, OperandInfo::Right),
            (3, 4, OperandInfo::Left),
            (0, 4, OperandInfo::Right),
            (4, 5, OperandInfo::Unary),
        ]
    );
}

#[test]
fn literal_added_twice_is_one_node() {
    let mut ctx = context();
    let x = ctx.add_literal(Literal::U64(7));
    let y = ctx.add_literal(Literal::U64(7));
    let z = ctx.add_literal(Literal::U64(8));
    assert_eq!(x, y);
    assert_ne!(x, z);
    let sevens = ctx
        .compilation
        .graph
        .nodes
        .iter()
        .filter(|n| **n == Some(Operation::Literal(Literal::U64(7))))
        .count();
    assert_eq!(sevens, 1);
    assert_eq!(ctx.compilation.graph.nodes.len(), 2);
}

#[test]
fn simple_multiply_compiles() {
    let mut ctx = context();
    let a = ctx.add_input();
    let b = ctx.add_input();
    let m = ctx.add_multiplication(a, b);
    let o = ctx.add_output(m);

    let lowered = ctx.compilation.lower();
    assert_eq!(op(&lowered, a), Some(CircuitOperation::InputCiphertext(0)));
    assert_eq!(op(&lowered, b), Some(CircuitOperation::InputCiphertext(1)));
    assert_eq!(op(&lowered, m), Some(CircuitOperation::Multiply));
    assert_eq!(op(&lowered, o), Some(CircuitOperation::OutputCiphertext));
    assert_eq!(
        live_edges(&lowered.graph.edges),
        vec![
            (0, 2, EdgeInfo::LeftOperand),
            (1, 2, EdgeInfo::RightOperand),
            (2, 3, EdgeInfo::UnaryOperand),
        ]
    );

    let c = ctx.compilation.compile();
    assert_eq!(c.scheme_type, SchemeType::Bfv);
    assert_eq!(c.graph.nodes.len(), 5);
    assert_eq!(op(&c, 4), Some(CircuitOperation::Relinearize));
    assert_eq!(op(&c, 0), Some(CircuitOperation::InputCiphertext(0)));
    assert_eq!(op(&c, 1), Some(CircuitOperation::InputCiphertext(1)));
    assert_eq!(
        live_edges(&c.graph.edges),
        vec![
            (0, 2, EdgeInfo::LeftOperand),
            (1, 2, EdgeInfo::RightOperand),
            (4, 3, EdgeInfo::UnaryOperand),
            (2, 4, EdgeInfo::UnaryOperand),
        ]
    );
}

#[test]
fn unused_input_is_pruned() {
    let mut ctx = context();
    let a = ctx.add_input();
    let _b = ctx.add_input();
    ctx.add_output(a);
    let c = ctx.compilation.compile();
    assert_eq!(op(&c, 0), Some(CircuitOperation::InputCiphertext(0)));
    assert_eq!(op(&c, 1), None);
    assert_eq!(op(&c, 2), Some(CircuitOperation::OutputCiphertext));
    assert_eq!(live_edges(&c.graph.edges), vec![(0, 2, EdgeInfo::UnaryOperand)]);
}

#[test]
fn shared_multiply_consumer() {
    let mut ctx = context();
    let a = ctx.add_input();
    let b = ctx.add_input();
    let m1 = ctx.add_multiplication(a, b);
    let m2 = ctx.add_multiplication(a, b);
    let s = ctx.add_addition(m1, m2);
    ctx.add_output(s);
    assert_ne!(m1, m2);
    let c = ctx.compilation.compile();
    assert_eq!(c.graph.nodes.len(), 8);
    assert_eq!(op(&c, 6), Some(CircuitOperation::Relinearize));
    assert_eq!(op(&c, 7), Some(CircuitOperation::Relinearize));
    let edges = live_edges(&c.graph.edges);
    assert!(edges.contains(&(6, s, EdgeInfo::LeftOperand)));
    assert!(edges.contains(&(7, s, EdgeInfo::RightOperand)));
    assert!(edges.contains(&(m1, 6, EdgeInfo::UnaryOperand)));
    assert!(edges.contains(&(m2, 7, EdgeInfo::UnaryOperand)));
    assert!(!edges.iter().any(|e| e.0 == m1 && e.1 == s));
}

#[test]
fn literal_feeds_add_and_multiply() {
    let mut ctx = context();
    let a = ctx.add_input();
    let l1 = ctx.add_literal(Literal::U64(7));
    let s = ctx.add_addition(a, l1);
    let l2 = ctx.add_literal(Literal::U64(7));
    let m = ctx.add_multiplication(a, l2);
    ctx.add_output(s);
    ctx.add_output(m);
    assert_eq!(l1, l2);
    let c = ctx.compilation.compile();
    assert_eq!(
        op(&c, l1),
        Some(CircuitOperation::Literal(OuterLiteral::Scalar(CircuitLiteral::U64(7))))
    );
    let edges = live_edges(&c.graph.edges);
    assert!(edges.contains(&(l1, s, EdgeInfo::RightOperand)));
    assert!(edges.contains(&(l1, m, EdgeInfo::RightOperand)));
}

#[test]
fn relinearization_moves_every_consumer() {
    let mut ctx = context();
    let a = ctx.add_input();
    let b = ctx.add_input();
    let m = ctx.add_multiplication(a, b);
    let s = ctx.add_addition(m, a);
    let t = ctx.add_subtraction(b, m);
    ctx.add_output(s);
    ctx.add_output(t);
    let mut c = ctx.compilation.lower();
    apply_insert_relinearizations(&mut c);
    let r = 7;
    assert_eq!(op(&c, r), Some(CircuitOperation::Relinearize));
    let edges = live_edges(&c.graph.edges);
    let from_m: Vec<_> = edges.iter().filter(|e| e.0 == m).collect();
    assert_eq!(from_m, vec![&(m, r, EdgeInfo::UnaryOperand)]);
    assert!(edges.contains(&(r, s, EdgeInfo::LeftOperand)));
    assert!(edges.contains(&(r, t, EdgeInfo::RightOperand)));
}

#[test]
fn terminal_multiply_relinearization_is_pruned() {
    let mut ctx = context();
    let a = ctx.add_input();
    let b = ctx.add_input();
    let _m = ctx.add_multiplication(a, b);
    ctx.add_output(a);
    let mut c = ctx.compilation.lower();
    apply_insert_relinearizations(&mut c);
    assert_eq!(op(&c, 4), Some(CircuitOperation::Relinearize));
    transform_intermediate_represenation(&mut c);
    assert_eq!(op(&c, 0), Some(CircuitOperation::InputCiphertext(0)));
    assert_eq!(op(&c, 1), None);
    assert_eq!(op(&c, 2), None);
    assert_eq!(op(&c, 3), Some(CircuitOperation::OutputCiphertext));
    assert_eq!(op(&c, 4), None);
}

#[test]
fn relinearization_without_multiply_is_idempotent() {
    let mut ctx = context();
    let a = ctx.add_input();
    let b = ctx.add_input();
    let s = ctx.add_addition(a, b);
    ctx.add_output(s);
    let mut once = ctx.compilation.lower();
    apply_insert_relinearizations(&mut once);
    let mut twice = once.clone();
    apply_insert_relinearizations(&mut twice);
    assert_eq!(once.graph.nodes, twice.graph.nodes);
    assert_eq!(live_edges(&once.graph.edges), live_edges(&twice.graph.edges));
}

#[test]
fn outputs_are_listed_in_order() {
    let mut ctx = context();
    let a = ctx.add_input();
    let o1 = ctx.add_output(a);
    let o2 = ctx.add_output(a);
    let c = ctx.compilation.lower();
    assert_eq!(c.get_outputs(), vec![o1, o2]);
    let pruned = c.prune(&vec![a]);
    assert_eq!(op(&pruned, a), Some(CircuitOperation::InputCiphertext(0)));
    assert_eq!(op(&pruned, o1), None);
    assert!(pruned.graph.edges.iter().all(|e| e.is_none()));
    let _ = NodeInfo::new(CircuitOperation::Add);
}

#[test]
fn isomorphic_graphs_compare_equal() {
    let mut c1 = context();
    let a = c1.add_input();
    let b = c1.add_input();
    let m = c1.add_multiplication(a, b);
    c1.add_output(m);

    let mut c2 = context();
    let l = c2.add_literal(Literal::U64(3));
    let a2 = c2.add_input();
    let b2 = c2.add_input();
    let m2 = c2.add_multiplication(a2, b2);
    c2.add_output(m2);
    assert!(!c1.compilation.eq(&c2.compilation));

    let mut c3 = context();
    let b3 = c3.add_input();
    let a3 = c3.add_input();
    let m3 = c3.add_multiplication(a3, b3);
    c3.add_output(m3);
    assert!(c1.compilation.eq(&c3.compilation));

    let mut c4 = context();
    let a4 = c4.add_input();
    let b4 = c4.add_input();
    let m4 = c4.add_addition(a4, b4);
    c4.add_output(m4);
    assert!(!c1.compilation.eq(&c4.compilation));
    assert!(c2.compilation.eq(&c2.compilation));
    let _ = l;
}
