use wonnx::compiler::GpuModel;
use wonnx::config::SessionConfig;
use wonnx::error::{CompileError, GpuError, IrError, SessionError};
use wonnx::graph::{Graph, Tensor, TensorKind};
use wonnx::model::{Initializer, ModelDescription, NodeDescription, ScalarType, Shape, ValueInfo};
use wonnx::opset::{resolve_opset, OpsetImport};
use wonnx::optimizer::{needed_nodes, prune};
use wonnx::registry::{list_floats, list_numbers, OperatorRegistry, ANY_RANK};
use wonnx::session::{NamedTensor, Session, TensorData};

fn import(domain: &str, version: i64) -> OpsetImport {
    OpsetImport { domain: domain.to_string(), version }
}

fn value(name: &str, dims: &[u64]) -> ValueInfo {
    ValueInfo { name: name.to_string(), shape: Some(Shape::new(ScalarType::F32, dims.to_vec())) }
}

fn node(name: &str, op: &str, inputs: &[&str], outputs: &[&str]) -> NodeDescription {
    NodeDescription {
        name: name.to_string(),
        op_type: op.to_string(),
        inputs: inputs.iter().map(|s| s.to_string()).collect(),
        outputs: outputs.iter().map(|s| s.to_string()).collect(),
        attributes: Vec::new(),
    }
}

fn model(
    imports: Vec<OpsetImport>,
    nodes: Vec<NodeDescription>,
    inputs: Vec<ValueInfo>,
    outputs: Vec<ValueInfo>,
) -> ModelDescription {
    ModelDescription {
        opset_imports: imports,
        nodes,
        inputs,
        outputs,
        initializers: Vec::new(),
        value_info: Vec::new(),
    }
}

/// x -> Relu -> y -> Sigmoid -> z, and x -> Tanh -> w; outputs z and w.
fn branching() -> ModelDescription {
    model(
        vec![import("", 13)],
        vec![
            node("tanh", "Tanh", &["x"], &["w"]),
            node("sigmoid", "Sigmoid", &["y"], &["z"]),
            node("relu", "Relu", &["x"], &["y"]),
        ],
        vec![value("x", &[2, 3])],
        vec![value("z", &[2, 3]), value("w", &[2, 3])],
    )
}

fn with_value_info(mut m: ModelDescription, infos: Vec<ValueInfo>) -> ModelDescription {
    m.value_info = infos;
    m
}

fn floats(values: &[f32]) -> Vec<u8> {
    values.iter().flat_map(|v| v.to_le_bytes()).collect()
}

fn named(name: &str, data_type: ScalarType, bytes: Vec<u8>) -> NamedTensor {
    NamedTensor { name: name.to_string(), value: TensorData { data_type, bytes } }
}

#[test]
fn single_default_opset_resolves() {
    assert!(matches!(resolve_opset(&vec![import("", 13)]), Ok(13)));
    assert!(matches!(resolve_opset(&vec![import("", 11), import("", 11)]), Ok(11)));
}

#[test]
fn duplicate_default_opset_names_both_versions() {
    let r = resolve_opset(&vec![import("", 11), import("", 12)]);
    assert!(matches!(r, Err(SessionError::DuplicateOnnxOpset(11, 12))));
    let m = model(vec![import("", 11), import("", 12)], vec![], vec![], vec![]);
    assert!(matches!(Session::from_model(m), Err(SessionError::DuplicateOnnxOpset(11, 12))));
}

#[test]
fn missing_default_opset_is_unknown_version() {
    assert!(matches!(resolve_opset(&vec![]), Err(SessionError::UnknownOnnxOpsetVersion)));
    let m = model(vec![], vec![], vec![value("x", &[1])], vec![value("x", &[1])]);
    assert!(matches!(Session::from_model(m), Err(SessionError::UnknownOnnxOpsetVersion)));
}

#[test]
fn foreign_opset_names_the_domain() {
    let r = resolve_opset(&vec![import("", 13), import("ai.onnx.ml", 2)]);
    match r {
        Err(SessionError::UnknownOpset(domain)) => assert_eq!(domain, "ai.onnx.ml"),
        other => panic!("unexpected: {:?}", other),
    }
    let m = model(vec![import("ai.onnx.ml", 1)], vec![], vec![], vec![]);
    match Session::from_model(m) {
        Err(SessionError::UnknownOpset(domain)) => assert_eq!(domain, "ai.onnx.ml"),
        Err(other) => panic!("unexpected: {:?}", other),
        Ok(_) => panic!("a foreign operator set was accepted"),
    }
}

#[test]
fn foreign_opset_before_conflict_wins() {
    let r = resolve_opset(&vec![import("", 11), import("custom", 1), import("", 12)]);
    assert!(matches!(r, Err(SessionError::UnknownOpset(d)) if d == "custom"));
    let r = resolve_opset(&vec![import("", 11), import("", 12), import("custom", 1)]);
    assert!(matches!(r, Err(SessionError::DuplicateOnnxOpset(11, 12))));
}

#[test]
fn config_defaults_and_builder() {
    assert!(SessionConfig::new().outputs.is_none());
    assert!(SessionConfig::default().outputs.is_none());
    let c = SessionConfig::new().with_outputs(Some(vec!["z".to_string()]));
    assert_eq!(c.outputs, Some(vec!["z".to_string()]));
    assert!(c.with_outputs(None).outputs.is_none());
}

#[test]
fn graph_orders_producers_first() {
    let g = Graph::from_model(&branching(), None).unwrap();
    let names: Vec<&str> = g.nodes.iter().map(|n| n.name.as_str()).collect();
    assert_eq!(names, vec!["tanh", "relu", "sigmoid"]);
    let ids: Vec<usize> = g.nodes.iter().map(|n| n.id).collect();
    assert_eq!(ids, vec![0, 2, 1]);
    assert_eq!(g.names, vec!["x", "w", "z", "y"]);
    assert_eq!(g.tensors[0].kind, TensorKind::Input);
    assert_eq!(g.tensors[1].kind, TensorKind::Computed);
    assert_eq!(g.outputs, vec![2, 1]);
    assert_eq!(g.nodes[1].inputs, vec![0]);
    assert_eq!(g.nodes[1].outputs, vec![3]);
    assert_eq!(g.nodes[2].inputs, vec![3]);
}

#[test]
fn restricted_outputs_prune_the_other_branch() {
    let full = Session::from_model(with_value_info(branching(), vec![value("y", &[2, 3])])).unwrap();
    assert_eq!(full.gpu_model().dispatches.len(), 3);
    let config = SessionConfig::new().with_outputs(Some(vec!["z".to_string()]));
    let part = Session::from_model_with_config(
        with_value_info(branching(), vec![value("y", &[2, 3])]),
        &config,
    )
    .unwrap();
    let model = part.gpu_model();
    assert_eq!(model.dispatches.len(), 2);
    assert!(model.dispatches.len() < full.gpu_model().dispatches.len());
    let kept: Vec<&str> = model.graph.nodes.iter().map(|n| n.name.as_str()).collect();
    assert_eq!(kept, vec!["relu", "sigmoid"]);
}

#[test]
fn needed_nodes_are_the_transitive_producers() {
    let g = Graph::from_model(&branching(), Some(&vec!["w".to_string()])).unwrap();
    assert_eq!(needed_nodes(&g), vec![true, false, false]);
    let g = Graph::from_model(&branching(), Some(&vec!["y".to_string()])).unwrap();
    assert_eq!(needed_nodes(&g), vec![false, true, false]);
    let g = Graph::from_model(&branching(), None).unwrap();
    assert_eq!(needed_nodes(&g), vec![true, true, true]);
}

#[test]
fn pruning_twice_changes_nothing() {
    let g = Graph::from_model(&branching(), Some(&vec!["z".to_string()])).unwrap();
    let once = prune(g);
    let names: Vec<String> = once.nodes.iter().map(|n| n.name.clone()).collect();
    let wiring: Vec<(Vec<usize>, Vec<usize>)> =
        once.nodes.iter().map(|n| (n.inputs.clone(), n.outputs.clone())).collect();
    let twice = prune(once);
    assert_eq!(twice.nodes.iter().map(|n| n.name.clone()).collect::<Vec<_>>(), names);
    assert_eq!(
        twice.nodes.iter().map(|n| (n.inputs.clone(), n.outputs.clone())).collect::<Vec<_>>(),
        wiring
    );
    assert_eq!(names, vec!["relu", "sigmoid"]);
}

#[test]
fn unknown_requested_output_is_invalid_output() {
    let r = Graph::from_model(&branching(), Some(&vec!["z".to_string(), "nope".to_string()]));
    assert!(matches!(r, Err(SessionError::InvalidOutput(name)) if name == "nope"));
}

#[test]
fn unknown_declared_output_is_an_ir_error() {
    let mut m = branching();
    m.outputs.push(value("ghost", &[1]));
    let r = Graph::from_model(&m, None);
    assert!(matches!(
        r,
        Err(SessionError::IrError(IrError::OutputNodeNotFound(name))) if name == "ghost"
    ));
}

#[test]
fn dangling_input_names_node_and_tensor() {
    let mut m = branching();
    m.nodes.push(node("add", "Add", &["x", "missing"], &["v"]));
    match Graph::from_model(&m, None) {
        Err(SessionError::IrError(IrError::InputNodeNotFound { target_node_name, input_name })) => {
            assert_eq!(target_node_name, "add");
            assert_eq!(input_name, "missing");
        }
        other => panic!("unexpected: {:?}", other.map(|g| g.names)),
    }
}

#[test]
fn tensor_written_twice_is_refused() {
    let mut m = branching();
    m.nodes.push(node("again", "Relu", &["x"], &["y"]));
    let r = Graph::from_model(&m, None);
    assert!(matches!(r, Err(SessionError::IrError(IrError::DuplicateTensor(name))) if name == "y"));
    let mut m = branching();
    m.nodes.push(node("clobber", "Relu", &["y"], &["x"]));
    let r = Graph::from_model(&m, None);
    assert!(matches!(r, Err(SessionError::IrError(IrError::DuplicateTensor(name))) if name == "x"));
}

#[test]
fn cycle_is_refused() {
    let m = model(
        vec![import("", 13)],
        vec![node("a", "Relu", &["q"], &["p"]), node("b", "Relu", &["p"], &["q"])],
        vec![value("x", &[1])],
        vec![value("p", &[1])],
    );
    assert!(matches!(Graph::from_model(&m, None), Err(SessionError::IrError(IrError::CyclicGraph))));
    let m = model(
        vec![import("", 13)],
        vec![node("selfish", "Relu", &["s"], &["s"])],
        vec![],
        vec![value("s", &[1])],
    );
    assert!(matches!(Graph::from_model(&m, None), Err(SessionError::IrError(IrError::CyclicGraph))));
}

#[test]
fn initializer_shadows_input_of_the_same_name() {
    let mut m = model(
        vec![import("", 13)],
        vec![node("add", "Add", &["x", "bias"], &["y"])],
        vec![value("x", &[2]), value("bias", &[2])],
        vec![value("y", &[2])],
    );
    m.initializers.push(Initializer {
        name: "bias".to_string(),
        data_type: 1,
        dims: vec![2],
        data: floats(&[1.0, 2.0]),
    });
    let g = Graph::from_model(&m, None).unwrap();
    assert_eq!(g.names, vec!["bias", "x", "y"]);
    assert_eq!(g.tensors[0].kind, TensorKind::Initializer);
    assert_eq!(g.tensors[0].data, floats(&[1.0, 2.0]));
    assert_eq!(g.tensors[1].kind, TensorKind::Input);
    let session = Session::from_model(m).unwrap();
    let sub = session.prepare(&vec![named("x", ScalarType::F32, floats(&[3.0, 4.0]))]).unwrap();
    assert_eq!(sub.uploads.len(), 1);
    assert_eq!(sub.uploads[0].buffer, 1);
}

#[test]
fn buffers_are_element_size_times_volume() {
    let session =
        Session::from_model(with_value_info(branching(), vec![value("y", &[2, 3])])).unwrap();
    let model = session.gpu_model();
    assert_eq!(model.opset_version, 13);
    assert_eq!(model.buffers.len(), 4);
    for (b, buffer) in model.buffers.iter().enumerate() {
        assert_eq!(buffer.size, 24);
        assert_eq!(buffer.tensor, b);
    }
    assert_eq!(model.buffer_of, vec![Some(0), Some(1), Some(2), Some(3)]);
    assert_eq!(model.dispatches[0].reads, vec![0]);
    assert_eq!(model.dispatches[0].writes, vec![1]);
    assert_eq!(model.dispatches[0].elements, 6);
    assert_eq!(model.dispatches[2].reads, vec![3]);
    assert_eq!(model.dispatches[2].writes, vec![2]);
}

#[test]
fn shape_sizes() {
    assert_eq!(Shape::new(ScalarType::F32, vec![]).element_count(), Some(1));
    assert_eq!(Shape::new(ScalarType::I64, vec![3, 4]).element_count(), Some(12));
    assert_eq!(Shape::new(ScalarType::I64, vec![3, 4]).buffer_bytes(), Some(96));
    assert_eq!(Shape::new(ScalarType::U8, vec![5, 0, 7]).buffer_bytes(), Some(0));
    assert_eq!(Shape::new(ScalarType::U8, vec![u64::MAX, u64::MAX, 0]).element_count(), Some(0));
    assert_eq!(Shape::new(ScalarType::U8, vec![u64::MAX]).buffer_bytes(), Some(u64::MAX));
    assert_eq!(Shape::new(ScalarType::I32, vec![u64::MAX]).element_count(), Some(u64::MAX));
    assert_eq!(Shape::new(ScalarType::I32, vec![u64::MAX]).buffer_bytes(), None);
    assert_eq!(Shape::new(ScalarType::U8, vec![1 << 32, 1 << 32]).element_count(), None);
}

#[test]
fn scalar_type_codes() {
    assert_eq!(ScalarType::from_i32(1), Ok(ScalarType::F32));
    assert_eq!(ScalarType::from_i32(2), Ok(ScalarType::U8));
    assert_eq!(ScalarType::from_i32(6), Ok(ScalarType::I32));
    assert_eq!(ScalarType::from_i32(7), Ok(ScalarType::I64));
    assert_eq!(ScalarType::from_i32(11), Err(wonnx::error::DataTypeError::NotSupported(11)));
    assert_eq!(ScalarType::I64.to_i32(), 7);
    assert_eq!(ScalarType::F32.stride(), 4);
    assert_eq!(ScalarType::I64.stride(), 8);
    assert_eq!(ScalarType::U8.stride(), 1);
}

#[test]
fn unsupported_operator_names_operator_and_version() {
    let m = model(
        vec![import("", 9)],
        vec![node("n", "FancyOp", &["x"], &["y"])],
        vec![value("x", &[1])],
        vec![value("y", &[1])],
    );
    match Session::from_model(m) {
        Err(SessionError::GpuError(GpuError::CompileError(CompileError::UnimplementedOp {
            op,
            opset_version,
        }))) => {
            assert_eq!(op, "FancyOp");
            assert_eq!(opset_version, 9);
        }
        Err(other) => panic!("unexpected: {:?}", other),
        Ok(_) => panic!("an unknown operator was accepted"),
    }
}

#[test]
fn operator_outside_its_version_range_is_refused() {
    let m = model(
        vec![import("", 6)],
        vec![node("n", "Sin", &["x"], &["y"])],
        vec![value("x", &[1])],
        vec![value("y", &[1])],
    );
    assert!(matches!(
        Session::from_model(m),
        Err(SessionError::GpuError(GpuError::CompileError(CompileError::UnimplementedOp {
            opset_version: 6,
            ..
        })))
    ));
    let mut registry = OperatorRegistry::new();
    registry.register("Relu", 1, 5, list_floats(), ANY_RANK);
    registry.register("Relu", 6, 12, list_floats(), ANY_RANK);
    registry.register("Tanh", 1, 12, list_floats(), ANY_RANK);
    let none = Vec::new();
    assert_eq!(registry.select(&"Relu".to_string(), 5, &none, &vec![]), Some(0));
    assert_eq!(registry.select(&"Relu".to_string(), 6, &none, &vec![]), Some(1));
    assert_eq!(registry.select(&"Relu".to_string(), 13, &none, &vec![]), None);
    assert_eq!(registry.select(&"Tanh".to_string(), 12, &none, &vec![]), Some(2));
    assert_eq!(registry.select(&"Gelu".to_string(), 12, &none, &vec![]), None);
}

#[test]
fn pruned_unsupported_operator_does_not_matter() {
    let mut m = with_value_info(branching(), vec![value("y", &[2, 3])]);
    m.nodes[0].op_type = "FancyOp".to_string();
    let config = SessionConfig::new().with_outputs(Some(vec!["z".to_string()]));
    assert!(Session::from_model_with_config(m, &config).is_ok());
}

#[test]
fn open_shape_of_a_used_tensor_is_refused() {
    match Session::from_model(branching()) {
        Err(SessionError::GpuError(GpuError::CompileError(CompileError::UnknownShape(name)))) => {
            assert_eq!(name, "y")
        }
        Err(other) => panic!("unexpected: {:?}", other),
        Ok(_) => panic!("an open shape was accepted"),
    }
}

#[test]
fn oversized_tensor_is_refused() {
    let m = model(
        vec![import("", 13)],
        vec![],
        vec![value("x", &[u64::MAX, 2])],
        vec![value("x", &[u64::MAX, 2])],
    );
    assert!(matches!(
        Session::from_model(m),
        Err(SessionError::GpuError(GpuError::CompileError(CompileError::BufferTooLarge(name))))
            if name == "x"
    ));
}

#[test]
fn initializer_that_does_not_fill_its_shape_is_refused() {
    let mut m = model(vec![import("", 13)], vec![], vec![], vec![value("c", &[2])]);
    m.initializers.push(Initializer {
        name: "c".to_string(),
        data_type: 1,
        dims: vec![2],
        data: vec![0u8; 7],
    });
    assert!(matches!(
        Session::from_model(m),
        Err(SessionError::GpuError(GpuError::CompileError(CompileError::InitializerSize(name))))
            if name == "c"
    ));
}

#[test]
fn compile_with_own_registry() {
    let g = prune(Graph::from_model(&branching(), Some(&vec!["w".to_string()])).unwrap());
    let mut registry = OperatorRegistry::new();
    registry.register("Relu", 1, 20, list_floats(), ANY_RANK);
    registry.register("Tanh", 1, 20, list_floats(), ANY_RANK);
    let model = GpuModel::from(g, &registry, 13).unwrap();
    assert_eq!(model.dispatches.len(), 1);
    assert_eq!(model.dispatches[0].operator, 1);
    assert_eq!(model.dispatches[0].node, 0);
    assert_eq!(model.buffer_of, vec![Some(0), Some(1), None, None]);
    assert_eq!(model.buffers.len(), 2);
}

#[test]
fn missing_input_is_named() {
    let session =
        Session::from_model(with_value_info(branching(), vec![value("y", &[2, 3])])).unwrap();
    let r = session.prepare(&vec![named("other", ScalarType::F32, vec![0; 24])]);
    assert!(matches!(
        r,
        Err(SessionError::GpuError(GpuError::MissingInput(name))) if name == "x"
    ));
    let r = session.prepare(&vec![]);
    assert!(matches!(
        r,
        Err(SessionError::GpuError(GpuError::MissingInput(name))) if name == "x"
    ));
}

#[test]
fn mismatched_input_is_named() {
    let session =
        Session::from_model(with_value_info(branching(), vec![value("y", &[2, 3])])).unwrap();
    let r = session.prepare(&vec![named("x", ScalarType::I32, vec![0; 24])]);
    assert!(matches!(
        r,
        Err(SessionError::GpuError(GpuError::InputTypeMismatch(name))) if name == "x"
    ));
    let r = session.prepare(&vec![named("x", ScalarType::F32, vec![0; 20])]);
    assert!(matches!(
        r,
        Err(SessionError::GpuError(GpuError::InputSizeMismatch(name))) if name == "x"
    ));
}

#[test]
fn submission_uploads_inputs_and_reads_outputs() {
    let session =
        Session::from_model(with_value_info(branching(), vec![value("y", &[2, 3])])).unwrap();
    let data = floats(&[1.0, -2.0, 3.0, -4.0, 5.0, -6.0]);
    let inputs = vec![
        named("unrelated", ScalarType::U8, vec![1]),
        named("x", ScalarType::F32, data.clone()),
        named("x", ScalarType::F32, vec![9; 24]),
    ];
    let sub = session.prepare(&inputs).unwrap();
    assert_eq!(sub.uploads.len(), 1);
    assert_eq!(sub.uploads[0].buffer, 0);
    assert_eq!(sub.uploads[0].data, data);
    assert_eq!(sub.readbacks, vec![2, 1]);
    let again = session.prepare(&inputs).unwrap();
    assert_eq!(again.uploads[0].data, sub.uploads[0].data);
    assert_eq!(again.readbacks, sub.readbacks);
}

#[test]
fn outputs_carry_names_types_and_bytes() {
    let session =
        Session::from_model(with_value_info(branching(), vec![value("y", &[2, 3])])).unwrap();
    let z: Vec<u8> = (0u8..24).collect();
    let w: Vec<u8> = (100u8..124).collect();
    let out = session.collect(&vec![z.clone(), w.clone()]).unwrap();
    assert_eq!(out.len(), 2);
    assert_eq!(out[0].name, "z");
    assert_eq!(out[0].value.data_type, ScalarType::F32);
    assert_eq!(out[0].value.bytes, z);
    assert_eq!(out[1].name, "w");
    assert_eq!(out[1].value.bytes, w);
}

#[test]
fn readback_faults_are_reported() {
    let session =
        Session::from_model(with_value_info(branching(), vec![value("y", &[2, 3])])).unwrap();
    let r = session.collect(&vec![vec![0; 24]]);
    assert!(matches!(r, Err(SessionError::GpuError(GpuError::ReadbackCount))));
    let r = session.collect(&vec![vec![0; 24], vec![0; 23]]);
    assert!(matches!(
        r,
        Err(SessionError::GpuError(GpuError::ReadbackSize(name))) if name == "w"
    ));
}

#[test]
fn identity_graph_returns_the_input() {
    let m = model(vec![import("", 13)], vec![], vec![value("x", &[3])], vec![value("x", &[3])]);
    let session = Session::from_model(m).unwrap();
    assert_eq!(session.gpu_model().dispatches.len(), 0);
    let data = floats(&[0.5, -1.25, f32::MAX]);
    let sub = session.prepare(&vec![named("x", ScalarType::F32, data.clone())]).unwrap();
    assert_eq!(sub.uploads.len(), 1);
    assert_eq!(sub.readbacks, vec![sub.uploads[0].buffer]);
    let mut device: Vec<Vec<u8>> =
        session.gpu_model().buffers.iter().map(|b| vec![0u8; b.size as usize]).collect();
    for upload in &sub.uploads {
        device[upload.buffer] = upload.data.clone();
    }
    let downloads: Vec<Vec<u8>> = sub.readbacks.iter().map(|b| device[*b].clone()).collect();
    let out = session.collect(&downloads).unwrap();
    assert_eq!(out.len(), 1);
    assert_eq!(out[0].name, "x");
    assert_eq!(out[0].value.bytes, data);
}

#[test]
fn construction_is_deterministic() {
    let a = Session::from_model(with_value_info(branching(), vec![value("y", &[2, 3])])).unwrap();
    let b = Session::from_model(with_value_info(branching(), vec![value("y", &[2, 3])])).unwrap();
    let (a, b) = (a.gpu_model(), b.gpu_model());
    assert_eq!(a.buffers, b.buffers);
    assert_eq!(a.buffer_of, b.buffer_of);
    assert_eq!(a.dispatches.len(), b.dispatches.len());
    for (x, y) in a.dispatches.iter().zip(b.dispatches.iter()) {
        assert_eq!((x.node, x.operator, &x.reads, &x.writes), (y.node, y.operator, &y.reads, &y.writes));
    }
    assert_eq!(a.graph.names, b.graph.names);
}

fn int_value(name: &str, data_type: ScalarType, dims: &[u64]) -> ValueInfo {
    ValueInfo { name: name.to_string(), shape: Some(Shape::new(data_type, dims.to_vec())) }
}

#[test]
fn operator_is_selected_by_element_type_and_rank() {
    let tensor = |data_type, dims: &[u64]| Tensor {
        kind: TensorKind::Input,
        shape: Some(Shape::new(data_type, dims.to_vec())),
        data: Vec::new(),
    };
    let tensors = vec![
        tensor(ScalarType::F32, &[2, 3]),
        tensor(ScalarType::I64, &[2]),
        tensor(ScalarType::F32, &[1, 2, 3]),
        Tensor { kind: TensorKind::Computed, shape: None, data: Vec::new() },
    ];
    let mut registry = OperatorRegistry::new();
    registry.register("Add", 1, 20, list_floats(), 2);
    registry.register("Add", 1, 20, list_numbers(), ANY_RANK);
    let add = "Add".to_string();
    assert_eq!(registry.select(&add, 13, &tensors, &vec![0, 0]), Some(0));
    assert_eq!(registry.select(&add, 13, &tensors, &vec![0, 1]), Some(1));
    assert_eq!(registry.select(&add, 13, &tensors, &vec![0, 2]), Some(1));
    assert_eq!(registry.select(&add, 13, &tensors, &vec![3, 0]), Some(0));
    assert_eq!(registry.select(&add, 13, &tensors, &vec![]), Some(0));
    let mut narrow = OperatorRegistry::new();
    narrow.register("Add", 1, 20, list_floats(), 2);
    assert_eq!(narrow.select(&add, 13, &tensors, &vec![0, 1]), None);
    assert_eq!(narrow.select(&add, 13, &tensors, &vec![2]), None);
    assert_eq!(narrow.select(&add, 13, &tensors, &vec![0, 3]), Some(0));
}

#[test]
fn operator_that_does_not_accept_the_element_type_is_refused() {
    let m = model(
        vec![import("", 13)],
        vec![node("n", "Sqrt", &["x"], &["y"])],
        vec![int_value("x", ScalarType::I64, &[2])],
        vec![int_value("y", ScalarType::I64, &[2])],
    );
    match Session::from_model(m) {
        Err(SessionError::GpuError(GpuError::CompileError(CompileError::UnimplementedOp {
            op,
            opset_version,
        }))) => {
            assert_eq!(op, "Sqrt");
            assert_eq!(opset_version, 13);
        }
        Err(other) => panic!("unexpected: {:?}", other),
        Ok(_) => panic!("an operator was selected for an element type that it does not accept"),
    }
    let m = model(
        vec![import("", 13)],
        vec![node("n", "Neg", &["x"], &["y"])],
        vec![int_value("x", ScalarType::I64, &[2])],
        vec![int_value("y", ScalarType::I64, &[2])],
    );
    assert!(Session::from_model(m).is_ok());
}

#[test]
fn unsupported_initializer_matters_only_where_it_is_needed() {
    let with_constant = |data_type: i32, imports: Vec<OpsetImport>| {
        let mut m = with_value_info(branching(), vec![value("y", &[2, 3])]);
        m.opset_imports = imports;
        m.nodes[0].inputs = vec!["k".to_string()];
        m.initializers.push(Initializer {
            name: "k".to_string(),
            data_type,
            dims: vec![2, 3],
            data: vec![0; 48],
        });
        m
    };
    match Session::from_model(with_constant(11, vec![import("", 13)])) {
        Err(SessionError::IrError(IrError::Type(e))) => {
            assert_eq!(e, wonnx::error::DataTypeError::NotSupported(11))
        }
        Err(other) => panic!("unexpected: {:?}", other),
        Ok(_) => panic!("an unsupported element type was accepted"),
    }
    let only_z = SessionConfig::new().with_outputs(Some(vec!["z".to_string()]));
    let session =
        Session::from_model_with_config(with_constant(11, vec![import("", 13)]), &only_z).unwrap();
    assert_eq!(session.gpu_model().dispatches.len(), 2);
    let r = Session::from_model(with_constant(11, vec![import("ai.onnx.ml", 1)]));
    assert!(matches!(r, Err(SessionError::UnknownOpset(domain)) if domain == "ai.onnx.ml"));
    let r = Session::from_model(with_constant(11, vec![import("", 11), import("", 12)]));
    assert!(matches!(r, Err(SessionError::DuplicateOnnxOpset(11, 12))));
    let r = Session::from_model(with_constant(11, vec![]));
    assert!(matches!(r, Err(SessionError::UnknownOnnxOpsetVersion)));
}

#[test]
fn initializer_with_an_open_dimension_has_no_shape() {
    let mut m = model(vec![import("", 13)], vec![], vec![], vec![value("c", &[2])]);
    m.initializers.push(Initializer {
        name: "c".to_string(),
        data_type: 1,
        dims: vec![2, -1],
        data: vec![],
    });
    let g = Graph::from_model(&m, None).unwrap();
    assert!(g.tensors[0].shape.is_none());
    assert!(matches!(
        Session::from_model(m),
        Err(SessionError::GpuError(GpuError::CompileError(CompileError::UnknownShape(name))))
            if name == "c"
    ));
}

#[test]
fn value_for_an_untouched_input_must_still_agree() {
    let m = model(
        vec![import("", 13)],
        vec![],
        vec![value("x", &[3]), value("spare", &[2]), ValueInfo { name: "open".to_string(), shape: None }],
        vec![value("x", &[3])],
    );
    let session = Session::from_model(m).unwrap();
    assert_eq!(session.gpu_model().buffer_of, vec![Some(0), None, None]);
    let x = named("x", ScalarType::F32, vec![0; 12]);
    let ok = session.prepare(&vec![x.clone()]).unwrap();
    assert_eq!(ok.uploads.len(), 1);
    let ok = session
        .prepare(&vec![
            x.clone(),
            named("spare", ScalarType::F32, vec![0; 8]),
            named("open", ScalarType::I64, vec![0; 5]),
            named("stranger", ScalarType::U8, vec![1]),
        ])
        .unwrap();
    assert_eq!(ok.uploads.len(), 1);
    assert_eq!(ok.uploads[0].buffer, 0);
    let r = session.prepare(&vec![x.clone(), named("spare", ScalarType::I32, vec![0; 8])]);
    assert!(matches!(
        r,
        Err(SessionError::GpuError(GpuError::InputTypeMismatch(name))) if name == "spare"
    ));
    let r = session.prepare(&vec![x.clone(), named("spare", ScalarType::F32, vec![0; 4])]);
    assert!(matches!(
        r,
        Err(SessionError::GpuError(GpuError::InputSizeMismatch(name))) if name == "spare"
    ));
    let r = session.prepare(&vec![named("spare", ScalarType::I32, vec![0; 8])]);
    assert!(matches!(
        r,
        Err(SessionError::GpuError(GpuError::MissingInput(name))) if name == "x"
    ));
}

#[test]
fn initializers_are_uploaded_once_into_their_buffers() {
    let mut m = model(
        vec![import("", 13)],
        vec![node("add", "Add", &["x", "bias"], &["y"])],
        vec![value("x", &[2])],
        vec![value("y", &[2])],
    );
    m.initializers.push(Initializer {
        name: "unused".to_string(),
        data_type: 1,
        dims: vec![1],
        data: floats(&[9.0]),
    });
    m.initializers.push(Initializer {
        name: "bias".to_string(),
        data_type: 1,
        dims: vec![2],
        data: floats(&[1.0, 2.0]),
    });
    let session = Session::from_model(m).unwrap();
    let model = session.gpu_model();
    assert_eq!(model.buffer_of, vec![None, Some(0), Some(1), Some(2)]);
    let uploads = session.initial_uploads();
    assert_eq!(uploads.len(), 1);
    assert_eq!(uploads[0].buffer, 0);
    assert_eq!(uploads[0].data, floats(&[1.0, 2.0]));
    assert_eq!(uploads[0].data.len() as u64, model.buffers[0].size);
    let none = Session::from_model(model_without_constants()).unwrap();
    assert!(none.initial_uploads().is_empty());
}

fn model_without_constants() -> ModelDescription {
    with_value_info(branching(), vec![value("y", &[2, 3])])
}
