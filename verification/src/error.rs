//! Error values of every stage, from ingestion to execution.

use vstd::prelude::*;

verus! {

/// A tensor element type that the library cannot represent.
#[derive(Debug, Clone, Copy, PartialEq, Eq, Structural)]
pub enum DataTypeError {
    /// The element-type code is not one of the supported scalar types.
    NotSupported(i32),
}

/// A structural fault found while building the graph.
#[derive(Debug, Clone)]
pub enum IrError {
    /// Two definitions (initializer, declared input or node output) share a name.
    DuplicateTensor(String),
    /// A node reads a tensor that nothing defines.
    InputNodeNotFound { target_node_name: String, input_name: String },
    /// A declared graph output names a tensor that nothing defines.
    OutputNodeNotFound(String),
    /// The nodes cannot be ordered so that every producer precedes its consumers.
    CyclicGraph,
    /// A declared tensor carries an element type that is not supported.
    Type(DataTypeError),
}

/// A fault found while lowering the graph to a dispatch plan.
#[derive(Debug, Clone)]
pub enum CompileError {
    /// No operator implementation is registered for this operator at this
    /// version that accepts the tensors that the node reads.
    UnimplementedOp { op: String, opset_version: i64 },
    /// The tensor is used by the plan but its shape was never declared.
    UnknownShape(String),
    /// The tensor's byte length does not fit a buffer.
    BufferTooLarge(String),
    /// The initializer's bytes do not fill its shape.
    InitializerSize(String),
}

/// A fault of the optimizer: a pass met a part of the graph that it cannot
/// reduce safely. Pruning, the one pass that always runs, reduces every
/// graph.
#[derive(Debug, Clone)]
pub enum OptimizerError {
    /// The pass cannot reduce what the text describes.
    Unsupported(String),
}

/// A fault of the compiled model: of lowering the graph, or of one
/// inference call.
#[derive(Debug, Clone)]
pub enum GpuError {
    /// The graph could not be lowered.
    CompileError(CompileError),
    /// No value is supplied for this input, which the plan needs.
    MissingInput(String),
    /// The supplied value's element type differs from the declared one.
    InputTypeMismatch(String),
    /// The supplied value's byte length differs from the declared shape's.
    InputSizeMismatch(String),
    /// The number of buffers read back differs from the number requested.
    ReadbackCount,
    /// The bytes read back for this output do not have the buffer's length.
    ReadbackSize(String),
    /// The device reported a fault; the text is the device's own.
    Device(String),
}

/// Everything that can go wrong while loading a model or running it.
#[derive(Debug)]
pub enum SessionError {
    /// The serialized model is malformed; the value says how.
    ModelDeserializationError(protobuf::ProtobufError),
    /// The model file could not be read; the text is the system's own.
    ModelReadingError(String),
    /// A value was supplied under a name that is no input of the model.
    /// Inference ignores such a value; the variant is for callers that do
    /// not.
    InvalidInput(String),
    /// A requested output is not a tensor of the graph.
    InvalidOutput(String),
    /// The default operator set is imported with two different versions.
    DuplicateOnnxOpset(i64, i64),
    /// An operator set of a domain other than the default one is imported.
    UnknownOpset(String),
    /// No version of the default operator set is imported.
    UnknownOnnxOpsetVersion,
    /// The graph is structurally invalid.
    IrError(IrError),
    /// Lowering the graph or running the compiled model failed.
    GpuError(GpuError),
    /// A pass of the optimizer failed.
    OptimizerError(OptimizerError),
}

/// The union of the stage errors, for callers that drive the stages themselves.
#[derive(Debug)]
pub enum WonnxError {
    CompileError(CompileError),
    SessionError(SessionError),
    IrError(IrError),
    TypeError(DataTypeError),
}

/// A graph-building fault as a mathematical value.
pub enum IrErrorView {
    DuplicateTensor(Seq<char>),
    InputNodeNotFound { target_node_name: Seq<char>, input_name: Seq<char> },
    OutputNodeNotFound(Seq<char>),
    CyclicGraph,
    Type(DataTypeError),
}

impl DeepView for IrError {
    type V = IrErrorView;

    open spec fn deep_view(&self) -> IrErrorView {
        match self {
            IrError::DuplicateTensor(name) => IrErrorView::DuplicateTensor(name@),
            IrError::InputNodeNotFound { target_node_name, input_name } => {
                IrErrorView::InputNodeNotFound {
                    target_node_name: target_node_name@,
                    input_name: input_name@,
                }
            },
            IrError::OutputNodeNotFound(name) => IrErrorView::OutputNodeNotFound(name@),
            IrError::CyclicGraph => IrErrorView::CyclicGraph,
            IrError::Type(e) => IrErrorView::Type(*e),
        }
    }
}

/// A lowering fault as a mathematical value.
pub enum CompileErrorView {
    UnimplementedOp { op: Seq<char>, opset_version: i64 },
    UnknownShape(Seq<char>),
    BufferTooLarge(Seq<char>),
    InitializerSize(Seq<char>),
}

impl DeepView for CompileError {
    type V = CompileErrorView;

    open spec fn deep_view(&self) -> CompileErrorView {
        match self {
            CompileError::UnimplementedOp { op, opset_version } => CompileErrorView::UnimplementedOp {
                op: op@,
                opset_version: *opset_version,
            },
            CompileError::UnknownShape(name) => CompileErrorView::UnknownShape(name@),
            CompileError::BufferTooLarge(name) => CompileErrorView::BufferTooLarge(name@),
            CompileError::InitializerSize(name) => CompileErrorView::InitializerSize(name@),
        }
    }
}

/// An optimizer fault as a mathematical value.
pub enum OptimizerErrorView {
    Unsupported(Seq<char>),
}

impl DeepView for OptimizerError {
    type V = OptimizerErrorView;

    open spec fn deep_view(&self) -> OptimizerErrorView {
        match self {
            OptimizerError::Unsupported(text) => OptimizerErrorView::Unsupported(text@),
        }
    }
}

/// A fault of the compiled model as a mathematical value.
pub enum GpuErrorView {
    CompileError(CompileErrorView),
    MissingInput(Seq<char>),
    InputTypeMismatch(Seq<char>),
    InputSizeMismatch(Seq<char>),
    ReadbackCount,
    ReadbackSize(Seq<char>),
    Device(Seq<char>),
}

impl DeepView for GpuError {
    type V = GpuErrorView;

    open spec fn deep_view(&self) -> GpuErrorView {
        match self {
            GpuError::CompileError(e) => GpuErrorView::CompileError(e.deep_view()),
            GpuError::MissingInput(name) => GpuErrorView::MissingInput(name@),
            GpuError::InputTypeMismatch(name) => GpuErrorView::InputTypeMismatch(name@),
            GpuError::InputSizeMismatch(name) => GpuErrorView::InputSizeMismatch(name@),
            GpuError::ReadbackCount => GpuErrorView::ReadbackCount,
            GpuError::ReadbackSize(name) => GpuErrorView::ReadbackSize(name@),
            GpuError::Device(text) => GpuErrorView::Device(text@),
        }
    }
}

/// A session fault as a mathematical value.
pub enum SessionErrorView {
    /// The value that says how the bytes are malformed is left out.
    ModelDeserializationError,
    ModelReadingError(Seq<char>),
    InvalidInput(Seq<char>),
    InvalidOutput(Seq<char>),
    DuplicateOnnxOpset(i64, i64),
    UnknownOpset(Seq<char>),
    UnknownOnnxOpsetVersion,
    IrError(IrErrorView),
    GpuError(GpuErrorView),
    OptimizerError(OptimizerErrorView),
}

impl DeepView for SessionError {
    type V = SessionErrorView;

    open spec fn deep_view(&self) -> SessionErrorView {
        match self {
            SessionError::ModelDeserializationError(_) => {
                SessionErrorView::ModelDeserializationError
            },
            SessionError::ModelReadingError(text) => SessionErrorView::ModelReadingError(text@),
            SessionError::InvalidInput(name) => SessionErrorView::InvalidInput(name@),
            SessionError::InvalidOutput(name) => SessionErrorView::InvalidOutput(name@),
            SessionError::DuplicateOnnxOpset(a, b) => SessionErrorView::DuplicateOnnxOpset(*a, *b),
            SessionError::UnknownOpset(domain) => SessionErrorView::UnknownOpset(domain@),
            SessionError::UnknownOnnxOpsetVersion => SessionErrorView::UnknownOnnxOpsetVersion,
            SessionError::IrError(e) => SessionErrorView::IrError(e.deep_view()),
            SessionError::GpuError(e) => SessionErrorView::GpuError(e.deep_view()),
            SessionError::OptimizerError(e) => SessionErrorView::OptimizerError(e.deep_view()),
        }
    }
}

impl From<DataTypeError> for IrError {
    fn from(e: DataTypeError) -> (r: IrError) {
        IrError::Type(e)
    }
}

impl vstd::std_specs::convert::FromSpecImpl<DataTypeError> for IrError {
    open spec fn obeys_from_spec() -> bool {
        true
    }

    open spec fn from_spec(e: DataTypeError) -> IrError {
        IrError::Type(e)
    }
}

impl From<IrError> for SessionError {
    fn from(e: IrError) -> (r: SessionError) {
        SessionError::IrError(e)
    }
}

impl vstd::std_specs::convert::FromSpecImpl<IrError> for SessionError {
    open spec fn obeys_from_spec() -> bool {
        true
    }

    open spec fn from_spec(e: IrError) -> SessionError {
        SessionError::IrError(e)
    }
}

impl From<GpuError> for SessionError {
    fn from(e: GpuError) -> (r: SessionError) {
        SessionError::GpuError(e)
    }
}

impl vstd::std_specs::convert::FromSpecImpl<GpuError> for SessionError {
    open spec fn obeys_from_spec() -> bool {
        true
    }

    open spec fn from_spec(e: GpuError) -> SessionError {
        SessionError::GpuError(e)
    }
}

impl From<CompileError> for GpuError {
    fn from(e: CompileError) -> (r: GpuError) {
        GpuError::CompileError(e)
    }
}

impl vstd::std_specs::convert::FromSpecImpl<CompileError> for GpuError {
    open spec fn obeys_from_spec() -> bool {
        true
    }

    open spec fn from_spec(e: CompileError) -> GpuError {
        GpuError::CompileError(e)
    }
}

impl From<OptimizerError> for SessionError {
    fn from(e: OptimizerError) -> (r: SessionError) {
        SessionError::OptimizerError(e)
    }
}

impl vstd::std_specs::convert::FromSpecImpl<OptimizerError> for SessionError {
    open spec fn obeys_from_spec() -> bool {
        true
    }

    open spec fn from_spec(e: OptimizerError) -> SessionError {
        SessionError::OptimizerError(e)
    }
}

impl From<CompileError> for WonnxError {
    fn from(e: CompileError) -> (r: WonnxError) {
        WonnxError::CompileError(e)
    }
}

impl vstd::std_specs::convert::FromSpecImpl<CompileError> for WonnxError {
    open spec fn obeys_from_spec() -> bool {
        true
    }

    open spec fn from_spec(e: CompileError) -> WonnxError {
        WonnxError::CompileError(e)
    }
}

impl From<SessionError> for WonnxError {
    fn from(e: SessionError) -> (r: WonnxError) {
        WonnxError::SessionError(e)
    }
}

impl vstd::std_specs::convert::FromSpecImpl<SessionError> for WonnxError {
    open spec fn obeys_from_spec() -> bool {
        true
    }

    open spec fn from_spec(e: SessionError) -> WonnxError {
        WonnxError::SessionError(e)
    }
}

impl From<IrError> for WonnxError {
    fn from(e: IrError) -> (r: WonnxError) {
        WonnxError::IrError(e)
    }
}

impl vstd::std_specs::convert::FromSpecImpl<IrError> for WonnxError {
    open spec fn obeys_from_spec() -> bool {
        true
    }

    open spec fn from_spec(e: IrError) -> WonnxError {
        WonnxError::IrError(e)
    }
}

impl From<DataTypeError> for WonnxError {
    fn from(e: DataTypeError) -> (r: WonnxError) {
        WonnxError::TypeError(e)
    }
}

impl vstd::std_specs::convert::FromSpecImpl<DataTypeError> for WonnxError {
    open spec fn obeys_from_spec() -> bool {
        true
    }

    open spec fn from_spec(e: DataTypeError) -> WonnxError {
        WonnxError::TypeError(e)
    }
}

/// A fault of the `protobuf` crate is reported as a malformed model.
impl From<protobuf::ProtobufError> for SessionError {
    fn from(e: protobuf::ProtobufError) -> (r: SessionError) {
        SessionError::ModelDeserializationError(e)
    }
}

impl vstd::std_specs::convert::FromSpecImpl<protobuf::ProtobufError> for SessionError {
    open spec fn obeys_from_spec() -> bool {
        true
    }

    open spec fn from_spec(e: protobuf::ProtobufError) -> SessionError {
        SessionError::ModelDeserializationError(e)
    }
}

} // verus!
