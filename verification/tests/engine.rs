//! Compiling and evaluating document graphs.

use graph_craft::bezier::{ManipulatorGroup, Point};
use graph_craft::broadcast::{BroadcastEvent, BroadcastMessage, BroadcastMessageHandler, Message};
use graph_craft::cache::Cache;
use graph_craft::compiler::compile;
use graph_craft::document::{Binding, DocumentGraph, Metadata, StructuralError};
use graph_craft::executor::{evaluate, EvalError};
use graph_craft::num::{rat_int, Rat};
use graph_craft::proto::ProtoOp;
use graph_craft::registry::{
    default_registry, EvalErrorKind, KIND_ADD, KIND_BOOL_VALUE, KIND_DIV, KIND_DOUBLE,
    KIND_INPUT_SCALAR, KIND_PATH_VALUE, KIND_SCALAR_VALUE, KIND_TRANSLATE_PATH, KIND_VEC2_NEW,
};
use graph_craft::subpath::Subpath;
use graph_craft::value::{Ty, Value};

fn meta() -> Metadata {
    Metadata { position_x: 0, position_y: 0 }
}

fn scalar(n: i64) -> Value {
    Value::Scalar(rat_int(n))
}

fn scalar_of(v: &Value) -> Rat {
    match v {
        Value::Scalar(r) => *r,
        other => panic!("expected a scalar, got {:?}", other),
    }
}

#[test]
fn literal_only_graph_folds_to_one_entry() {
    // A := literal 2, B := literal 3, C := A + B compiles to a single
    // folded literal 5 and evaluates with zero computations run.
    let reg = default_registry();
    let mut g = DocumentGraph::new();
    let a = g.add_node(KIND_SCALAR_VALUE, meta(), &reg).unwrap();
    g.set_input(a, 0, Binding::Literal(scalar(2)), &reg).unwrap();
    let b = g.add_node(KIND_SCALAR_VALUE, meta(), &reg).unwrap();
    g.set_input(b, 0, Binding::Literal(scalar(3)), &reg).unwrap();
    let c = g.add_node(KIND_ADD, meta(), &reg).unwrap();
    g.set_input(c, 0, Binding::Edge(a), &reg).unwrap();
    g.set_input(c, 1, Binding::Edge(b), &reg).unwrap();

    let p = compile(&g, &reg, c).unwrap();
    assert_eq!(p.nodes.len(), 1);
    assert_eq!(p.output, 0);
    match &p.nodes[0].op {
        ProtoOp::Literal(v) => assert_eq!(scalar_of(v), rat_int(5)),
        other => panic!("expected a folded literal, got {:?}", other),
    }
    let mut cache = Cache::new(64);
    let out = evaluate(&p, &reg, &mut cache).unwrap();
    assert_eq!(scalar_of(&out.value), rat_int(5));
    assert_eq!(out.computations, 0);
}

#[test]
fn editing_an_input_recomputes_through_changed_fingerprints() {
    // A := input x, B := double A, C := double B; x = 3 gives 12, editing
    // x to 4 gives 16 with every stage recomputed because its fingerprint
    // changed — no explicit invalidation is issued.
    let reg = default_registry();
    let mut g = DocumentGraph::new();
    let a = g.add_node(KIND_INPUT_SCALAR, meta(), &reg).unwrap();
    g.set_input(a, 0, Binding::Literal(scalar(3)), &reg).unwrap();
    let b = g.add_node(KIND_DOUBLE, meta(), &reg).unwrap();
    g.set_input(b, 0, Binding::Edge(a), &reg).unwrap();
    let c = g.add_node(KIND_DOUBLE, meta(), &reg).unwrap();
    g.set_input(c, 0, Binding::Edge(b), &reg).unwrap();

    let mut cache = Cache::new(64);
    let p = compile(&g, &reg, c).unwrap();
    assert_eq!(p.nodes.len(), 3);
    let out = evaluate(&p, &reg, &mut cache).unwrap();
    assert_eq!(scalar_of(&out.value), rat_int(12));
    assert_eq!(out.computations, 3);

    g.set_input(a, 0, Binding::Literal(scalar(4)), &reg).unwrap();
    let p2 = compile(&g, &reg, c).unwrap();
    let out2 = evaluate(&p2, &reg, &mut cache).unwrap();
    assert_eq!(scalar_of(&out2.value), rat_int(16));
    assert_eq!(out2.computations, 3);
}

#[test]
fn second_evaluation_is_all_cache_hits() {
    // Fixed graph, no edits: the second evaluation returns the identical
    // value and runs zero computations.
    let reg = default_registry();
    let mut g = DocumentGraph::new();
    let a = g.add_node(KIND_INPUT_SCALAR, meta(), &reg).unwrap();
    g.set_input(a, 0, Binding::Literal(scalar(3)), &reg).unwrap();
    let b = g.add_node(KIND_DOUBLE, meta(), &reg).unwrap();
    g.set_input(b, 0, Binding::Edge(a), &reg).unwrap();

    let mut cache = Cache::new(64);
    let p = compile(&g, &reg, b).unwrap();
    let out1 = evaluate(&p, &reg, &mut cache).unwrap();
    assert_eq!(out1.computations, 2);
    let out2 = evaluate(&p, &reg, &mut cache).unwrap();
    assert_eq!(out1.value, out2.value);
    assert_eq!(out2.computations, 0);
}

#[test]
fn editing_one_leaf_recomputes_only_its_dependents() {
    // D := add(double(A), C): editing A's literal re-runs A, B and D; the
    // untouched input C stays a cache hit.
    let reg = default_registry();
    let mut g = DocumentGraph::new();
    let a = g.add_node(KIND_INPUT_SCALAR, meta(), &reg).unwrap();
    g.set_input(a, 0, Binding::Literal(scalar(3)), &reg).unwrap();
    let b = g.add_node(KIND_DOUBLE, meta(), &reg).unwrap();
    g.set_input(b, 0, Binding::Edge(a), &reg).unwrap();
    let c = g.add_node(KIND_INPUT_SCALAR, meta(), &reg).unwrap();
    g.set_input(c, 0, Binding::Literal(scalar(5)), &reg).unwrap();
    let d = g.add_node(KIND_ADD, meta(), &reg).unwrap();
    g.set_input(d, 0, Binding::Edge(b), &reg).unwrap();
    g.set_input(d, 1, Binding::Edge(c), &reg).unwrap();

    let mut cache = Cache::new(64);
    let p = compile(&g, &reg, d).unwrap();
    let out = evaluate(&p, &reg, &mut cache).unwrap();
    assert_eq!(scalar_of(&out.value), rat_int(11));
    assert_eq!(out.computations, 4);

    g.set_input(a, 0, Binding::Literal(scalar(4)), &reg).unwrap();
    let p2 = compile(&g, &reg, d).unwrap();
    let out2 = evaluate(&p2, &reg, &mut cache).unwrap();
    assert_eq!(scalar_of(&out2.value), rat_int(13));
    // A, B and D recomputed; C remained a hit.
    assert_eq!(out2.computations, 3);
}

#[test]
fn unreachable_nodes_are_dropped_and_never_evaluated() {
    // A division by zero sits in the graph but is not reachable from the
    // requested output: it is absent from the proto graph and evaluation
    // succeeds.
    let reg = default_registry();
    let mut g = DocumentGraph::new();
    let a = g.add_node(KIND_SCALAR_VALUE, meta(), &reg).unwrap();
    g.set_input(a, 0, Binding::Literal(scalar(7)), &reg).unwrap();
    let poison = g.add_node(KIND_DIV, meta(), &reg).unwrap();
    g.set_input(poison, 0, Binding::Literal(scalar(1)), &reg).unwrap();
    g.set_input(poison, 1, Binding::Literal(scalar(0)), &reg).unwrap();
    let b = g.add_node(KIND_DOUBLE, meta(), &reg).unwrap();
    g.set_input(b, 0, Binding::Edge(a), &reg).unwrap();

    let p = compile(&g, &reg, b).unwrap();
    for node in &p.nodes {
        assert_ne!(node.source_id, poison);
    }
    let mut cache = Cache::new(64);
    let out = evaluate(&p, &reg, &mut cache).unwrap();
    assert_eq!(scalar_of(&out.value), rat_int(14));
}

#[test]
fn incompatible_binding_is_rejected_at_bind_time() {
    let reg = default_registry();
    let mut g = DocumentGraph::new();
    let v = g.add_node(KIND_VEC2_NEW, meta(), &reg).unwrap();
    let s = g.add_node(KIND_DOUBLE, meta(), &reg).unwrap();
    // A vector output into a scalar input has no registered coercion.
    let r = g.set_input(s, 0, Binding::Edge(v), &reg);
    assert_eq!(
        r,
        Err(StructuralError::TypeMismatch { expected: Ty::Scalar, actual: Ty::Vec2 })
    );
    // The graph is unchanged: the slot still compiles with its default.
    let p = compile(&g, &reg, s).unwrap();
    let mut cache = Cache::new(64);
    let out = evaluate(&p, &reg, &mut cache).unwrap();
    assert_eq!(scalar_of(&out.value), rat_int(0));
}

#[test]
fn registered_coercion_is_accepted() {
    // Boolean into a scalar slot goes through the registered coercion.
    let reg = default_registry();
    let mut g = DocumentGraph::new();
    let b = g.add_node(KIND_BOOL_VALUE, meta(), &reg).unwrap();
    g.set_input(b, 0, Binding::Literal(Value::Boolean(true)), &reg).unwrap();
    let d = g.add_node(KIND_DOUBLE, meta(), &reg).unwrap();
    g.set_input(d, 0, Binding::Edge(b), &reg).unwrap();
    let p = compile(&g, &reg, d).unwrap();
    let mut cache = Cache::new(64);
    let out = evaluate(&p, &reg, &mut cache).unwrap();
    assert_eq!(scalar_of(&out.value), rat_int(2));
}

#[test]
fn cyclic_graphs_fail_to_compile() {
    let reg = default_registry();
    let mut g = DocumentGraph::new();
    let a = g.add_node(KIND_ADD, meta(), &reg).unwrap();
    let b = g.add_node(KIND_DOUBLE, meta(), &reg).unwrap();
    g.set_input(a, 0, Binding::Edge(b), &reg).unwrap();
    g.set_input(b, 0, Binding::Edge(a), &reg).unwrap();
    assert_eq!(compile(&g, &reg, a), Err(StructuralError::CyclicGraph));

    let mut g2 = DocumentGraph::new();
    let n = g2.add_node(KIND_DOUBLE, meta(), &reg).unwrap();
    g2.set_input(n, 0, Binding::Edge(n), &reg).unwrap();
    assert_eq!(compile(&g2, &reg, n), Err(StructuralError::CyclicGraph));
}

#[test]
fn removing_a_source_leaves_the_graph_dirty() {
    let reg = default_registry();
    let mut g = DocumentGraph::new();
    let a = g.add_node(KIND_SCALAR_VALUE, meta(), &reg).unwrap();
    let b = g.add_node(KIND_DOUBLE, meta(), &reg).unwrap();
    g.set_input(b, 0, Binding::Edge(a), &reg).unwrap();
    assert!(!g.is_dirty());
    g.remove_node(a).unwrap();
    assert!(g.is_dirty());
    assert_eq!(
        compile(&g, &reg, b),
        Err(StructuralError::DanglingReference { node: b, slot: 0 })
    );
}

#[test]
fn unknown_kind_and_missing_output_are_reported() {
    let reg = default_registry();
    let mut g = DocumentGraph::new();
    assert_eq!(
        g.add_node(999, meta(), &reg),
        Err(StructuralError::UnknownNodeKind(999))
    );
    assert_eq!(compile(&g, &reg, 42), Err(StructuralError::OutputNotFound(42)));
}

#[test]
fn division_by_zero_aborts_evaluation_with_the_node_identity() {
    let reg = default_registry();
    let mut g = DocumentGraph::new();
    let a = g.add_node(KIND_INPUT_SCALAR, meta(), &reg).unwrap();
    g.set_input(a, 0, Binding::Literal(scalar(1)), &reg).unwrap();
    let d = g.add_node(KIND_DIV, meta(), &reg).unwrap();
    g.set_input(d, 0, Binding::Edge(a), &reg).unwrap();
    g.set_input(d, 1, Binding::Literal(scalar(0)), &reg).unwrap();
    let p = compile(&g, &reg, d).unwrap();
    let mut cache = Cache::new(64);
    let r = evaluate(&p, &reg, &mut cache);
    assert_eq!(
        r.unwrap_err(),
        EvalError { node: d, kind: KIND_DIV, cause: EvalErrorKind::DivisionByZero }
    );
}

#[test]
fn out_of_range_scalars_fail_with_numeric_overflow() {
    let reg = default_registry();
    let mut g = DocumentGraph::new();
    let a = g.add_node(KIND_INPUT_SCALAR, meta(), &reg).unwrap();
    let huge = Value::Scalar(Rat { n: 1i128 << 100, d: 1 });
    g.set_input(a, 0, Binding::Literal(huge), &reg).unwrap();
    let b = g.add_node(KIND_DOUBLE, meta(), &reg).unwrap();
    g.set_input(b, 0, Binding::Edge(a), &reg).unwrap();
    let p = compile(&g, &reg, b).unwrap();
    let mut cache = Cache::new(64);
    let r = evaluate(&p, &reg, &mut cache);
    assert_eq!(
        r.unwrap_err(),
        EvalError { node: b, kind: KIND_DOUBLE, cause: EvalErrorKind::NumericOverflow }
    );
}

#[test]
fn compiling_twice_gives_identical_artifacts() {
    let reg = default_registry();
    let mut g = DocumentGraph::new();
    let a = g.add_node(KIND_INPUT_SCALAR, meta(), &reg).unwrap();
    g.set_input(a, 0, Binding::Literal(scalar(3)), &reg).unwrap();
    let b = g.add_node(KIND_ADD, meta(), &reg).unwrap();
    g.set_input(b, 0, Binding::Edge(a), &reg).unwrap();
    g.set_input(b, 1, Binding::Edge(a), &reg).unwrap();
    let p1 = compile(&g, &reg, b).unwrap();
    let p2 = compile(&g, &reg, b).unwrap();
    assert_eq!(p1.nodes, p2.nodes);
    assert_eq!(p1.output, p2.output);
}

#[test]
fn path_nodes_run_the_geometry_kernel() {
    let reg = default_registry();
    let mut g = DocumentGraph::new();
    let path = Subpath::new(
        vec![
            ManipulatorGroup {
                anchor: Point { x: rat_int(20), y: rat_int(30) },
                in_handle: None,
                out_handle: None,
            },
            ManipulatorGroup {
                anchor: Point { x: rat_int(60), y: rat_int(45) },
                in_handle: None,
                out_handle: None,
            },
        ],
        false,
    );
    let pv = g.add_node(KIND_PATH_VALUE, meta(), &reg).unwrap();
    g.set_input(pv, 0, Binding::Literal(Value::Path(path)), &reg).unwrap();
    let dx = g.add_node(KIND_VEC2_NEW, meta(), &reg).unwrap();
    g.set_input(dx, 0, Binding::Literal(scalar(1)), &reg).unwrap();
    g.set_input(dx, 1, Binding::Literal(scalar(2)), &reg).unwrap();
    let t = g.add_node(KIND_TRANSLATE_PATH, meta(), &reg).unwrap();
    g.set_input(t, 0, Binding::Edge(pv), &reg).unwrap();
    g.set_input(t, 1, Binding::Edge(dx), &reg).unwrap();
    let p = compile(&g, &reg, t).unwrap();
    // Every input is a literal, so the whole path computation folds.
    assert_eq!(p.nodes.len(), 1);
    let mut cache = Cache::new(64);
    let out = evaluate(&p, &reg, &mut cache).unwrap();
    match out.value {
        Value::Path(s) => {
            assert_eq!(s.manipulator_groups[0].anchor, Point { x: rat_int(21), y: rat_int(32) });
            assert_eq!(s.manipulator_groups[1].anchor, Point { x: rat_int(61), y: rat_int(47) });
        },
        other => panic!("expected a path, got {:?}", other),
    }
}

#[test]
fn cache_point_invalidation_forces_one_recomputation() {
    let reg = default_registry();
    let mut g = DocumentGraph::new();
    let a = g.add_node(KIND_INPUT_SCALAR, meta(), &reg).unwrap();
    g.set_input(a, 0, Binding::Literal(scalar(3)), &reg).unwrap();
    let b = g.add_node(KIND_DOUBLE, meta(), &reg).unwrap();
    g.set_input(b, 0, Binding::Edge(a), &reg).unwrap();
    let p = compile(&g, &reg, b).unwrap();
    let mut cache = Cache::new(64);
    evaluate(&p, &reg, &mut cache).unwrap();
    cache.invalidate(b);
    let out = evaluate(&p, &reg, &mut cache).unwrap();
    assert_eq!(out.computations, 1);
    assert_eq!(scalar_of(&out.value), rat_int(6));
}

#[test]
fn transitive_invalidation_recomputes_the_downstream_chain() {
    let reg = default_registry();
    let mut g = DocumentGraph::new();
    let a = g.add_node(KIND_INPUT_SCALAR, meta(), &reg).unwrap();
    g.set_input(a, 0, Binding::Literal(scalar(3)), &reg).unwrap();
    let b = g.add_node(KIND_DOUBLE, meta(), &reg).unwrap();
    g.set_input(b, 0, Binding::Edge(a), &reg).unwrap();
    let c = g.add_node(KIND_INPUT_SCALAR, meta(), &reg).unwrap();
    g.set_input(c, 0, Binding::Literal(scalar(5)), &reg).unwrap();
    let d = g.add_node(KIND_ADD, meta(), &reg).unwrap();
    g.set_input(d, 0, Binding::Edge(b), &reg).unwrap();
    g.set_input(d, 1, Binding::Edge(c), &reg).unwrap();
    let p = compile(&g, &reg, d).unwrap();
    let mut cache = Cache::new(64);
    evaluate(&p, &reg, &mut cache).unwrap();
    // Invalidate the externally sourced input and everything downstream of
    // it: A, B and D recompute, C stays a hit.
    cache.invalidate_transitive(a, &p);
    let out = evaluate(&p, &reg, &mut cache).unwrap();
    assert_eq!(out.computations, 3);
    assert_eq!(scalar_of(&out.value), rat_int(11));
}

#[test]
fn stale_cache_entries_are_evicted_on_lookup_miss() {
    let mut cache = Cache::new(8);
    cache.put(1, KIND_DOUBLE, vec![scalar(3)], scalar(6));
    // The stored fingerprint serves a matching lookup.
    assert!(cache.get(1, KIND_DOUBLE, &vec![scalar(3)]).is_some());
    // A changed fingerprint misses and lazily evicts the stale entry...
    assert!(cache.get(1, KIND_DOUBLE, &vec![scalar(4)]).is_none());
    // ...so even the old fingerprint now misses.
    assert!(cache.get(1, KIND_DOUBLE, &vec![scalar(3)]).is_none());
}

#[test]
fn broadcast_subscriptions_deliver_in_order() {
    let mut h = BroadcastMessageHandler::new();
    h.process_message(BroadcastMessage::SubscribeEvent {
        on: BroadcastEvent::DocumentIsDirty,
        send: Box::new(Message::RequestRender(7)),
    });
    h.process_message(BroadcastMessage::SubscribeEvent {
        on: BroadcastEvent::DocumentIsDirty,
        send: Box::new(Message::NoOp),
    });
    h.process_message(BroadcastMessage::SubscribeEvent {
        on: BroadcastEvent::ToolAbort,
        send: Box::new(Message::RequestRender(9)),
    });
    let sent = h.process_message(BroadcastMessage::TriggerEvent(BroadcastEvent::DocumentIsDirty));
    assert_eq!(sent.len(), 2);
    assert!(matches!(sent[0], Message::RequestRender(7)));
    assert!(matches!(sent[1], Message::NoOp));
    h.process_message(BroadcastMessage::UnsubscribeEvent {
        on: BroadcastEvent::DocumentIsDirty,
        message: Box::new(Message::RequestRender(7)),
    });
    let sent = h.trigger(BroadcastEvent::DocumentIsDirty);
    assert_eq!(sent.len(), 1);
    assert!(matches!(sent[0], Message::NoOp));
}
