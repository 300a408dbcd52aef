use wonnx::compiler::{slots_of, GpuModel};
use wonnx::error::{
    CompileError, DataTypeError, GpuError, IrError, OptimizerError, SessionError, WonnxError,
};
use wonnx::graph::Graph;
use wonnx::marks::{all_set, any_set, set_all, unset};
use wonnx::model::{
    copy_attributes, copy_values, Attribute, AttributeValue, ModelDescription, NodeDescription,
    ScalarType, Shape, ValueInfo,
};
use wonnx::names::find_name;
use wonnx::opset::OpsetImport;
use wonnx::optimizer::prune;
use wonnx::registry::{
    list_every_type, list_floats, list_numbers, OperatorRegistry, ANY_RANK, LATEST,
};

fn chain() -> ModelDescription {
    let value = |name: &str| ValueInfo {
        name: name.to_string(),
        shape: Some(Shape::new(ScalarType::I32, vec![4])),
    };
    let node = |name: &str, op: &str, input: &str, output: &str| NodeDescription {
        name: name.to_string(),
        op_type: op.to_string(),
        inputs: vec![input.to_string()],
        outputs: vec![output.to_string()],
        attributes: vec![Attribute { name: "axis".to_string(), value: AttributeValue::Int(1) }],
    };
    ModelDescription {
        opset_imports: vec![OpsetImport { domain: String::new(), version: 13 }],
        nodes: vec![node("second", "Neg", "b", "c"), node("first", "Abs", "a", "b")],
        inputs: vec![value("a")],
        outputs: vec![value("c")],
        initializers: vec![],
        value_info: vec![value("b")],
    }
}

#[test]
fn flags_are_set_and_tested_by_number() {
    let mut flags = unset(4);
    assert_eq!(flags, vec![false; 4]);
    assert!(!any_set(&flags, &vec![0, 1, 2, 3]));
    assert!(all_set(&flags, &vec![]));
    set_all(&mut flags, &vec![3, 1, 3]);
    assert_eq!(flags, vec![false, true, false, true]);
    assert!(any_set(&flags, &vec![0, 3]));
    assert!(!any_set(&flags, &vec![0, 2]));
    assert!(all_set(&flags, &vec![1, 3]));
    assert!(!all_set(&flags, &vec![1, 2]));
    assert_eq!(unset(0), Vec::<bool>::new());
}

#[test]
fn names_are_found_at_their_first_position() {
    let names: Vec<String> = ["a", "b", "a", ""].iter().map(|s| s.to_string()).collect();
    assert_eq!(find_name(&names, &"a".to_string()), Some(0));
    assert_eq!(find_name(&names, &"b".to_string()), Some(1));
    assert_eq!(find_name(&names, &"".to_string()), Some(3));
    assert_eq!(find_name(&names, &"c".to_string()), None);
    assert_eq!(find_name(&vec![], &"a".to_string()), None);
}

#[test]
fn copies_hold_the_same_values() {
    assert_eq!(copy_values(&vec![3u64, 1, 2]), vec![3, 1, 2]);
    assert_eq!(copy_values(&Vec::<u8>::new()), Vec::<u8>::new());
    let shape = Shape::new(ScalarType::I64, vec![2, 5]);
    let copy = shape.duplicate();
    assert_eq!(copy.dims, vec![2, 5]);
    assert_eq!(copy.data_type, ScalarType::I64);
    let attributes = vec![
        Attribute { name: "a".to_string(), value: AttributeValue::Ints(vec![1, 2]) },
        Attribute { name: "b".to_string(), value: AttributeValue::Text(vec![7]) },
        Attribute { name: "c".to_string(), value: AttributeValue::Floats(vec![9]) },
        Attribute { name: "d".to_string(), value: AttributeValue::Float(5) },
    ];
    let copies = copy_attributes(&attributes);
    assert_eq!(copies.len(), 4);
    assert_eq!(copies[1].name, "b");
    assert!(matches!(&copies[0].value, AttributeValue::Ints(v) if *v == vec![1, 2]));
    assert!(matches!(&copies[1].value, AttributeValue::Text(v) if *v == vec![7]));
    assert!(matches!(&copies[2].value, AttributeValue::Floats(v) if *v == vec![9]));
    assert!(matches!(copies[3].value.duplicate(), AttributeValue::Float(5)));
}

#[test]
fn nodes_keep_their_attributes_and_declaration_position() {
    let graph = Graph::from_model(&chain(), None).unwrap();
    assert_eq!(graph.nodes[0].name, "first");
    assert_eq!(graph.nodes[0].id, 1);
    assert_eq!(graph.nodes[1].id, 0);
    assert_eq!(graph.nodes[0].attributes[0].name, "axis");
    let copy = graph.nodes[1].duplicate();
    assert_eq!(copy.op_type, "Neg");
    assert_eq!((copy.inputs, copy.outputs), (vec![2], vec![1]));
    assert_eq!(graph.names, vec!["a", "c", "b"]);
}

#[test]
fn dispatches_follow_the_order_of_the_graph() {
    let graph = prune(Graph::from_model(&chain(), None).unwrap());
    let model = GpuModel::from(graph, &OperatorRegistry::standard(), 13).unwrap();
    assert_eq!(model.dispatches.len(), 2);
    assert_eq!(model.dispatches[0].writes, model.dispatches[1].reads);
    assert_eq!(model.buffers.iter().map(|b| b.size).collect::<Vec<_>>(), vec![16, 16, 16]);
    assert_eq!(slots_of(&model.graph, &model.buffer_of, &vec![2, 0]), vec![2, 0]);
    let first = OperatorRegistry::standard().select(
        &"Abs".to_string(),
        13,
        &model.graph.tensors,
        &model.graph.nodes[0].inputs,
    );
    assert_eq!(Some(model.dispatches[0].operator), first);
}

#[test]
fn standard_registry_knows_its_operators() {
    let registry = OperatorRegistry::standard();
    assert_eq!(registry.entries.len(), 29);
    let none = Vec::new();
    assert_eq!(registry.select(&"Abs".to_string(), 1, &none, &vec![]), Some(0));
    assert_eq!(registry.select(&"Transpose".to_string(), LATEST, &none, &vec![]), Some(28));
    assert_eq!(registry.select(&"Cos".to_string(), 6, &none, &vec![]), None);
    assert_eq!(registry.select(&"Cos".to_string(), 7, &none, &vec![]), Some(7));
    assert_eq!(registry.select(&"Relu".to_string(), 0, &none, &vec![]), None);
    assert_eq!(OperatorRegistry::new().select(&"Relu".to_string(), 13, &none, &vec![]), None);
    assert_eq!(registry.entries[0].types, list_numbers());
    assert_eq!(registry.entries[7].types, list_floats());
    assert_eq!(registry.entries[28].types, list_every_type());
    assert_eq!(list_every_type().len(), 4);
    assert_eq!(registry.entries[28].max_rank, ANY_RANK);
}

#[test]
fn errors_convert_into_the_wider_ones() {
    let e: IrError = DataTypeError::NotSupported(9).into();
    assert!(matches!(e, IrError::Type(DataTypeError::NotSupported(9))));
    let e: SessionError = IrError::CyclicGraph.into();
    assert!(matches!(e, SessionError::IrError(IrError::CyclicGraph)));
    let e: SessionError = GpuError::ReadbackCount.into();
    assert!(matches!(e, SessionError::GpuError(GpuError::ReadbackCount)));
    let e: GpuError = CompileError::UnknownShape("t".to_string()).into();
    assert!(matches!(e, GpuError::CompileError(CompileError::UnknownShape(n)) if n == "t"));
    let e: SessionError = OptimizerError::Unsupported("pass".to_string()).into();
    assert!(matches!(e, SessionError::OptimizerError(OptimizerError::Unsupported(t)) if t == "pass"));
    let e: WonnxError = SessionError::UnknownOnnxOpsetVersion.into();
    assert!(matches!(e, WonnxError::SessionError(SessionError::UnknownOnnxOpsetVersion)));
    let e: WonnxError = CompileError::BufferTooLarge("t".to_string()).into();
    assert!(matches!(e, WonnxError::CompileError(CompileError::BufferTooLarge(_))));
    let e: WonnxError = IrError::DuplicateTensor("t".to_string()).into();
    assert!(matches!(e, WonnxError::IrError(IrError::DuplicateTensor(_))));
    let e: WonnxError = DataTypeError::NotSupported(3).into();
    assert!(matches!(e, WonnxError::TypeError(DataTypeError::NotSupported(3))));
    let fault = protobuf::CodedInputStream::from_bytes(&[0x80]).read_int64().unwrap_err();
    let e: SessionError = fault.into();
    assert!(matches!(e, SessionError::ModelDeserializationError(_)));
}
