use protobuf::CodedOutputStream;
use wonnx::error::{CompileError, DataTypeError, GpuError, IrError, SessionError};
use wonnx::model::{AttributeValue, ModelDescription, ScalarType};
use wonnx::onnx::{decode_message, Dimensions};
use wonnx::session::{NamedTensor, Session, TensorData};
use wonnx::wire::split;

/// Writes a message with the given closure and returns its bytes.
fn message(write: impl FnOnce(&mut CodedOutputStream)) -> Vec<u8> {
    let mut bytes = Vec::new();
    {
        let mut out = CodedOutputStream::vec(&mut bytes);
        write(&mut out);
        out.flush().unwrap();
    }
    bytes
}

fn opset(domain: &str, version: i64) -> Vec<u8> {
    message(|out| {
        out.write_string(1, domain).unwrap();
        out.write_int64(2, version).unwrap();
    })
}

fn dimension(value: i64) -> Vec<u8> {
    message(|out| out.write_int64(1, value).unwrap())
}

fn named_dimension(name: &str) -> Vec<u8> {
    message(|out| out.write_string(2, name).unwrap())
}

fn shape(dims: &[Vec<u8>]) -> Vec<u8> {
    message(|out| {
        for d in dims {
            out.write_bytes(1, d).unwrap();
        }
    })
}

fn value_info_with(name: &str, elem: i32, dims: &[Vec<u8>]) -> Vec<u8> {
    let tensor = message(|out| {
        out.write_int32(1, elem).unwrap();
        out.write_bytes(2, &shape(dims)).unwrap();
    });
    let ty = message(|out| out.write_bytes(1, &tensor).unwrap());
    message(|out| {
        out.write_string(1, name).unwrap();
        out.write_bytes(2, &ty).unwrap();
    })
}

fn value_info(name: &str, elem: i32, dims: &[i64]) -> Vec<u8> {
    let dims: Vec<Vec<u8>> = dims.iter().map(|d| dimension(*d)).collect();
    value_info_with(name, elem, &dims)
}

fn node(name: &str, op: &str, inputs: &[&str], outputs: &[&str], attributes: &[Vec<u8>]) -> Vec<u8> {
    message(|out| {
        for i in inputs {
            out.write_string(1, i).unwrap();
        }
        for o in outputs {
            out.write_string(2, o).unwrap();
        }
        out.write_string(3, name).unwrap();
        out.write_string(4, op).unwrap();
        for a in attributes {
            out.write_bytes(5, a).unwrap();
        }
    })
}

fn tensor(name: &str, data_type: i32, dims: &[i64], raw: &[u8]) -> Vec<u8> {
    message(|out| {
        for d in dims {
            out.write_int64(1, *d).unwrap();
        }
        out.write_int32(2, data_type).unwrap();
        out.write_string(8, name).unwrap();
        out.write_bytes(9, raw).unwrap();
    })
}

struct GraphBytes {
    nodes: Vec<Vec<u8>>,
    initializers: Vec<Vec<u8>>,
    inputs: Vec<Vec<u8>>,
    outputs: Vec<Vec<u8>>,
    values: Vec<Vec<u8>>,
}

fn graph(parts: &GraphBytes) -> Vec<u8> {
    message(|out| {
        for n in &parts.nodes {
            out.write_bytes(1, n).unwrap();
        }
        out.write_string(2, "graph").unwrap();
        for t in &parts.initializers {
            out.write_bytes(5, t).unwrap();
        }
        for v in &parts.inputs {
            out.write_bytes(11, v).unwrap();
        }
        for v in &parts.outputs {
            out.write_bytes(12, v).unwrap();
        }
        for v in &parts.values {
            out.write_bytes(13, v).unwrap();
        }
    })
}

fn model(imports: &[Vec<u8>], graph: &[u8]) -> Vec<u8> {
    message(|out| {
        out.write_int64(1, 7).unwrap();
        out.write_string(2, "producer").unwrap();
        out.write_bytes(7, graph).unwrap();
        for i in imports {
            out.write_bytes(8, i).unwrap();
        }
    })
}

/// x -> Relu -> y -> Sigmoid -> z, and x -> Tanh -> w; outputs z and w.
fn branching(imports: &[Vec<u8>]) -> Vec<u8> {
    let g = graph(&GraphBytes {
        nodes: vec![
            node("tanh", "Tanh", &["x"], &["w"], &[]),
            node("sigmoid", "Sigmoid", &["y"], &["z"], &[]),
            node("relu", "Relu", &["x"], &["y"], &[]),
        ],
        initializers: vec![],
        inputs: vec![value_info("x", 1, &[2, 3])],
        outputs: vec![value_info("z", 1, &[2, 3]), value_info("w", 1, &[2, 3])],
        values: vec![value_info("y", 1, &[2, 3])],
    });
    model(imports, &g)
}

#[test]
fn split_finds_the_fields_of_a_message() {
    let bytes = message(|out| {
        out.write_int64(3, 300).unwrap();
        out.write_string(1, "ab").unwrap();
        out.write_fixed32(9, 7).unwrap();
        out.write_fixed64(2, 7).unwrap();
    });
    let fields = split(&bytes).unwrap();
    let seen: Vec<(u32, u8, usize, usize)> =
        fields.iter().map(|f| (f.number, f.wire, f.start, f.end)).collect();
    assert_eq!(seen, vec![(3, 0, 1, 3), (1, 2, 4, 7), (9, 5, 8, 12), (2, 1, 13, 21)]);
    assert_eq!(split(&[]).unwrap().len(), 0);
}

#[test]
fn split_refuses_what_is_no_message() {
    assert!(split(&[0x08]).is_err());
    assert!(split(&[0x0a, 0x05, b'a']).is_err());
    assert!(split(&[0x0b]).is_err());
    assert!(split(&[0x0c]).is_err());
    assert!(split(&[0x00, 0x00]).is_err());
    assert!(split(&[0x0f, 0x00]).is_err());
}

#[test]
fn model_is_decoded() {
    let bytes = branching(&[opset("", 13)]);
    let m = ModelDescription::from_bytes(&bytes).unwrap();
    assert_eq!(m.opset_imports.len(), 1);
    assert_eq!(m.opset_imports[0].domain, "");
    assert_eq!(m.opset_imports[0].version, 13);
    assert_eq!(m.nodes.len(), 3);
    assert_eq!(m.nodes[1].name, "sigmoid");
    assert_eq!(m.nodes[1].op_type, "Sigmoid");
    assert_eq!(m.nodes[1].inputs, vec!["y"]);
    assert_eq!(m.nodes[1].outputs, vec!["z"]);
    assert_eq!(m.inputs.len(), 1);
    assert_eq!(m.inputs[0].name, "x");
    let shape = m.inputs[0].shape.as_ref().unwrap();
    assert_eq!(shape.dims, vec![2, 3]);
    assert_eq!(shape.data_type, ScalarType::F32);
    assert_eq!(m.outputs.iter().map(|o| o.name.as_str()).collect::<Vec<_>>(), vec!["z", "w"]);
    assert_eq!(m.value_info[0].name, "y");
}

#[test]
fn open_and_unsupported_declarations_have_no_shape() {
    let g = graph(&GraphBytes {
        nodes: vec![],
        initializers: vec![],
        inputs: vec![
            value_info_with("batch", 1, &[named_dimension("N"), dimension(3)]),
            value_info("double", 11, &[2]),
            value_info("negative", 1, &[-1, 2]),
            message(|out| out.write_string(1, "untyped").unwrap()),
            value_info("scalar", 7, &[]),
        ],
        outputs: vec![],
        values: vec![],
    });
    let m = ModelDescription::from_bytes(&model(&[], &g)).unwrap();
    assert!(m.inputs[0].shape.is_none());
    assert!(m.inputs[1].shape.is_none());
    assert!(m.inputs[2].shape.is_none());
    assert!(m.inputs[3].shape.is_none());
    assert_eq!(m.inputs[3].name, "untyped");
    let scalar = m.inputs[4].shape.as_ref().unwrap();
    assert_eq!(scalar.dims, Vec::<u64>::new());
    assert_eq!(scalar.data_type, ScalarType::I64);
}

#[test]
fn initializers_are_decoded() {
    let raw: Vec<u8> = [1.0f32, 2.0].iter().flat_map(|v| v.to_le_bytes()).collect();
    let packed = message(|out| {
        out.write_bytes(1, &[2, 1]).unwrap();
        out.write_int32(2, 2).unwrap();
        out.write_string(8, "mask").unwrap();
        out.write_bytes(9, &[7, 9]).unwrap();
    });
    let g = graph(&GraphBytes {
        nodes: vec![],
        initializers: vec![tensor("bias", 1, &[2], &raw), packed],
        inputs: vec![],
        outputs: vec![],
        values: vec![],
    });
    let m = ModelDescription::from_bytes(&model(&[opset("", 13)], &g)).unwrap();
    assert_eq!(m.initializers.len(), 2);
    assert_eq!(m.initializers[0].name, "bias");
    assert_eq!(m.initializers[0].dims, vec![2]);
    assert_eq!(m.initializers[0].data_type, 1);
    assert_eq!(m.initializers[0].data, raw);
    assert_eq!(m.initializers[1].name, "mask");
    assert_eq!(m.initializers[1].dims, vec![2, 1]);
    assert_eq!(m.initializers[1].data_type, 2);
    assert_eq!(m.initializers[1].data, vec![7, 9]);
}

#[test]
fn unsupported_initializer_type_is_decoded_and_refused_where_needed() {
    let parts = |node_reads: &str| GraphBytes {
        nodes: vec![node("n", "Relu", &[node_reads], &["y"], &[])],
        initializers: vec![tensor("d", 11, &[1], &[0; 8]), tensor("n", 1, &[-2], &[])],
        inputs: vec![value_info("x", 1, &[1])],
        outputs: vec![value_info("y", 1, &[1])],
        values: vec![],
    };
    let bytes = model(&[opset("", 13)], &graph(&parts("d")));
    let m = ModelDescription::from_bytes(&bytes).unwrap();
    assert_eq!(m.initializers[0].data_type, 11);
    assert_eq!(m.initializers[0].data, vec![0; 8]);
    assert_eq!(m.initializers[1].dims, vec![-2]);
    assert!(matches!(
        Session::from_bytes(&bytes),
        Err(SessionError::IrError(IrError::Type(DataTypeError::NotSupported(11))))
    ));
    let unread = model(&[opset("", 13)], &graph(&parts("x")));
    assert!(Session::from_bytes(&unread).is_ok());
    let foreign = model(&[opset("", 13), opset("ai.onnx.ml", 2)], &graph(&parts("d")));
    assert!(matches!(
        Session::from_bytes(&foreign),
        Err(SessionError::UnknownOpset(domain)) if domain == "ai.onnx.ml"
    ));
    let conflict = model(&[opset("", 11), opset("", 12)], &graph(&parts("d")));
    assert!(matches!(
        Session::from_bytes(&conflict),
        Err(SessionError::DuplicateOnnxOpset(11, 12))
    ));
    let open = model(&[opset("", 13)], &graph(&parts("n")));
    assert!(matches!(
        Session::from_bytes(&open),
        Err(SessionError::GpuError(GpuError::CompileError(CompileError::UnknownShape(name))))
            if name == "n"
    ));
}

#[test]
fn groups_and_unread_fields_are_passed_over() {
    let fields = split(&[0x0b, 0x08, 0x01, 0x0c, 0x10, 0x05]).unwrap();
    let seen: Vec<(u32, u8, usize, usize)> =
        fields.iter().map(|f| (f.number, f.wire, f.start, f.end)).collect();
    assert_eq!(seen, vec![(1, 3, 1, 4), (2, 0, 5, 6)]);
    let mut bytes = message(|out| out.write_bytes(2, &[0xff, 0xfe]).unwrap());
    bytes.extend_from_slice(&[0x9b, 0x06, 0x08, 0x01, 0x9c, 0x06]);
    bytes.extend_from_slice(&message(|out| out.write_bytes(8, &opset("", 9)).unwrap()));
    let m = ModelDescription::from_bytes(&bytes).unwrap();
    assert_eq!(m.opset_imports.len(), 1);
    assert_eq!(m.opset_imports[0].version, 9);
    let group_for_graph = [0x3b, 0x3c];
    assert!(ModelDescription::from_bytes(&group_for_graph).is_err());
}

#[test]
fn attributes_are_decoded() {
    let attributes = vec![
        message(|out| {
            out.write_string(1, "axis").unwrap();
            out.write_int64(3, -1).unwrap();
            out.write_int32(20, 2).unwrap();
        }),
        message(|out| {
            out.write_string(1, "alpha").unwrap();
            out.write_float(2, 0.5).unwrap();
            out.write_int32(20, 1).unwrap();
        }),
        message(|out| {
            out.write_string(1, "mode").unwrap();
            out.write_bytes(4, b"linear").unwrap();
            out.write_int32(20, 3).unwrap();
        }),
        message(|out| {
            out.write_string(1, "pads").unwrap();
            out.write_int64(8, 1).unwrap();
            out.write_int64(8, 300).unwrap();
            out.write_bytes(8, &[2, 0xac, 0x02]).unwrap();
            out.write_int32(20, 7).unwrap();
        }),
        message(|out| {
            out.write_string(1, "scales").unwrap();
            let packed: Vec<u8> = [1.5f32, -2.0].iter().flat_map(|v| v.to_le_bytes()).collect();
            out.write_bytes(7, &packed).unwrap();
            out.write_float(7, 4.0).unwrap();
            out.write_int32(20, 6).unwrap();
        }),
        message(|out| {
            out.write_string(1, "empty").unwrap();
            out.write_int32(20, 7).unwrap();
        }),
    ];
    let g = graph(&GraphBytes {
        nodes: vec![node("n", "Op", &[], &[], &attributes)],
        initializers: vec![],
        inputs: vec![],
        outputs: vec![],
        values: vec![],
    });
    let m = ModelDescription::from_bytes(&model(&[], &g)).unwrap();
    let found = &m.nodes[0].attributes;
    assert_eq!(found.len(), 6);
    assert_eq!(found[0].name, "axis");
    assert!(matches!(found[0].value, AttributeValue::Int(-1)));
    assert!(matches!(found[1].value, AttributeValue::Float(bits) if bits == 0.5f32.to_bits()));
    assert!(matches!(&found[2].value, AttributeValue::Text(t) if t.as_slice() == b"linear"));
    assert!(matches!(&found[3].value, AttributeValue::Ints(v) if *v == vec![1, 300, 2, 300]));
    assert!(matches!(
        &found[4].value,
        AttributeValue::Floats(v)
            if *v == vec![1.5f32.to_bits(), (-2.0f32).to_bits(), 4.0f32.to_bits()]
    ));
    assert_eq!(found[5].name, "empty");
    assert!(matches!(&found[5].value, AttributeValue::Ints(v) if v.is_empty()));
}

#[test]
fn malformed_models_are_refused() {
    let good = branching(&[opset("", 13)]);
    let cut = &good[..good.len() - 3];
    assert!(ModelDescription::from_bytes(cut).is_err());
    assert!(matches!(Session::from_bytes(cut), Err(SessionError::ModelDeserializationError(_))));
    let wrong_wire = message(|out| out.write_int64(7, 5).unwrap());
    assert!(ModelDescription::from_bytes(&wrong_wire).is_err());
    let bad_text = model(&[message(|out| out.write_bytes(1, &[0xff, 0xfe]).unwrap())], &[]);
    assert!(ModelDescription::from_bytes(&bad_text).is_err());
    let bad_graph = model(&[], &[0x0a, 0x7f]);
    assert!(ModelDescription::from_bytes(&bad_graph).is_err());
}

#[test]
fn empty_bytes_are_a_model_without_imports() {
    let m = ModelDescription::from_bytes(&[]).unwrap();
    assert!(m.opset_imports.is_empty() && m.nodes.is_empty());
    assert!(matches!(Session::from_bytes(&[]), Err(SessionError::UnknownOnnxOpsetVersion)));
}

#[test]
fn nested_messages_are_decoded_on_their_own() {
    let bytes = shape(&[dimension(4), named_dimension("N"), dimension(0)]);
    let dims = decode_message(&bytes, Dimensions { dims: Vec::new() }).ok().unwrap();
    assert_eq!(dims.dims, vec![4, -1, 0]);
}

#[test]
fn session_from_bytes_compiles_the_model() {
    let session = Session::from_bytes(&branching(&[opset("", 13)])).unwrap();
    let model = session.gpu_model();
    assert_eq!(model.opset_version, 13);
    assert_eq!(model.dispatches.len(), 3);
    let order: Vec<&str> = model.graph.nodes.iter().map(|n| n.name.as_str()).collect();
    assert_eq!(order, vec!["tanh", "relu", "sigmoid"]);
    let again = Session::from_bytes(&branching(&[opset("", 13)])).unwrap();
    assert_eq!(again.gpu_model().buffers, model.buffers);
    assert_eq!(again.gpu_model().buffer_of, model.buffer_of);
}

#[test]
fn session_from_bytes_reports_opset_faults() {
    let r = Session::from_bytes(&branching(&[opset("", 11), opset("", 12)]));
    assert!(matches!(r, Err(SessionError::DuplicateOnnxOpset(11, 12))));
    let r = Session::from_bytes(&branching(&[]));
    assert!(matches!(r, Err(SessionError::UnknownOnnxOpsetVersion)));
    let r = Session::from_bytes(&branching(&[opset("ai.onnx.ml", 2)]));
    assert!(matches!(r, Err(SessionError::UnknownOpset(domain)) if domain == "ai.onnx.ml"));
}

#[test]
fn session_from_bytes_with_restricted_outputs() {
    let config = wonnx::config::SessionConfig::new().with_outputs(Some(vec!["w".to_string()]));
    let session =
        Session::from_bytes_with_config(&branching(&[opset("", 13)]), &config).unwrap();
    assert_eq!(session.gpu_model().dispatches.len(), 1);
    let bytes: Vec<u8> = (0u8..24).collect();
    let inputs = vec![NamedTensor {
        name: "x".to_string(),
        value: TensorData { data_type: ScalarType::F32, bytes: bytes.clone() },
    }];
    let sub = session.prepare(&inputs).unwrap();
    assert_eq!(sub.uploads.len(), 1);
    assert_eq!(sub.uploads[0].data, bytes);
    assert_eq!(sub.readbacks.len(), 1);
}

#[test]
fn initializer_elements_from_number_lists() {
    let floats = message(|out| {
        out.write_int64(1, 2).unwrap();
        out.write_int32(2, 1).unwrap();
        let packed: Vec<u8> = [1.5f32, -2.0].iter().flat_map(|v| v.to_le_bytes()).collect();
        out.write_bytes(4, &packed).unwrap();
        out.write_string(8, "f").unwrap();
    });
    let longs = message(|out| {
        out.write_int64(1, 3).unwrap();
        out.write_int32(2, 7).unwrap();
        out.write_int64(7, 1).unwrap();
        out.write_int64(7, -1).unwrap();
        out.write_bytes(7, &[0xac, 0x02]).unwrap();
        out.write_string(8, "l").unwrap();
    });
    let ints = message(|out| {
        out.write_int64(1, 2).unwrap();
        out.write_int32(2, 6).unwrap();
        out.write_int32(5, -2).unwrap();
        out.write_int32(5, 258).unwrap();
        out.write_string(8, "i").unwrap();
    });
    let bytes = message(|out| {
        out.write_int64(1, 3).unwrap();
        out.write_int32(2, 2).unwrap();
        out.write_bytes(5, &[1, 0xff, 0x01, 0]).unwrap();
        out.write_string(8, "b").unwrap();
    });
    let raw_wins = message(|out| {
        out.write_int64(1, 1).unwrap();
        out.write_int32(2, 1).unwrap();
        out.write_float(4, 8.0).unwrap();
        out.write_string(8, "r").unwrap();
        out.write_bytes(9, &[1, 2, 3, 4]).unwrap();
    });
    let g = graph(&GraphBytes {
        nodes: vec![],
        initializers: vec![floats, longs, ints, bytes, raw_wins],
        inputs: vec![],
        outputs: vec![],
        values: vec![],
    });
    let m = ModelDescription::from_bytes(&model(&[opset("", 13)], &g)).unwrap();
    let expected: Vec<u8> = [1.5f32, -2.0].iter().flat_map(|v| v.to_le_bytes()).collect();
    assert_eq!(m.initializers[0].data, expected);
    let expected: Vec<u8> = [1i64, -1, 300].iter().flat_map(|v| v.to_le_bytes()).collect();
    assert_eq!(m.initializers[1].data, expected);
    let expected: Vec<u8> = [-2i32, 258].iter().flat_map(|v| v.to_le_bytes()).collect();
    assert_eq!(m.initializers[2].data, expected);
    assert_eq!(m.initializers[3].data, vec![1, 255, 0]);
    assert_eq!(m.initializers[4].data, vec![1, 2, 3, 4]);
}

#[test]
fn session_with_initializer_from_bytes() {
    let raw: Vec<u8> = [1.0f32, 2.0].iter().flat_map(|v| v.to_le_bytes()).collect();
    let g = graph(&GraphBytes {
        nodes: vec![node("add", "Add", &["x", "bias"], &["y"], &[])],
        initializers: vec![tensor("bias", 1, &[2], &raw)],
        inputs: vec![value_info("x", 1, &[2]), value_info("bias", 1, &[2])],
        outputs: vec![value_info("y", 1, &[2])],
        values: vec![],
    });
    let session = Session::from_bytes(&model(&[opset("", 12)], &g)).unwrap();
    let model = session.gpu_model();
    assert_eq!(model.opset_version, 12);
    assert_eq!(model.graph.names, vec!["bias", "x", "y"]);
    assert_eq!(model.graph.tensors[0].data, raw);
    assert_eq!(model.buffers.iter().map(|b| b.size).collect::<Vec<_>>(), vec![8, 8, 8]);
    assert_eq!(model.dispatches[0].reads, vec![1, 0]);
    assert_eq!(model.dispatches[0].writes, vec![2]);
    assert_eq!(model.dispatches[0].elements, 2);
}
