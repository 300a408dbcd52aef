//! A session: a model that is loaded and compiled, and the part of every
//! inference call that is decided off the device.

use vstd::prelude::*;
use crate::builder::{build, declared_names};
use crate::compiler::{
    buffer_holds_tensor, buffers_upto, compile, given_buffers_are_not_written,
    no_fault_below, slots, slots_of, used, GpuModel, GpuModelView,
};
use crate::config::SessionConfig;
use crate::error::{GpuError, GpuErrorView, SessionError, SessionErrorView};
use crate::onnx::model_of;
use crate::graph::{Graph, TensorKind};
use crate::model::{copy_values, ModelDescription, ModelView, ScalarType};
use crate::names::{find_name, lookup, lookup_finds_first, Name};
use crate::opset::{resolution, resolve_opset, Resolution};
use crate::optimizer::{fewer_outputs_fewer_nodes, prune, with_outputs};
use crate::registry::{standard_entries, OperatorRegistry};

verus! {

/// A tensor value: its element type and its bytes.
#[derive(Debug, Clone)]
pub struct TensorData {
    pub data_type: ScalarType,
    pub bytes: Vec<u8>,
}

/// A tensor value as a mathematical value.
pub struct TensorDataView {
    pub data_type: ScalarType,
    pub bytes: Seq<u8>,
}

impl DeepView for TensorData {
    type V = TensorDataView;

    open spec fn deep_view(&self) -> TensorDataView {
        TensorDataView { data_type: self.data_type, bytes: self.bytes@ }
    }
}

/// A tensor value under the name of a graph input or output.
#[derive(Debug, Clone)]
pub struct NamedTensor {
    pub name: String,
    pub value: TensorData,
}

/// A named tensor value as a mathematical value.
pub struct NamedTensorView {
    pub name: Name,
    pub value: TensorDataView,
}

impl DeepView for NamedTensor {
    type V = NamedTensorView;

    open spec fn deep_view(&self) -> NamedTensorView {
        NamedTensorView { name: self.name@, value: self.value.deep_view() }
    }
}

/// Bytes to write into a buffer before the dispatches run.
#[derive(Debug, Clone)]
pub struct Upload {
    pub buffer: usize,
    pub data: Vec<u8>,
}

/// An upload as a mathematical value.
pub struct UploadView {
    pub buffer: usize,
    pub data: Seq<u8>,
}

impl DeepView for Upload {
    type V = UploadView;

    open spec fn deep_view(&self) -> UploadView {
        UploadView { buffer: self.buffer, data: self.data@ }
    }
}

/// What one inference call hands to the device: the uploads, and the
/// buffers to read back once the dispatches have run, one per requested
/// output and in their order.
#[derive(Debug, Clone)]
pub struct Submission {
    pub uploads: Vec<Upload>,
    pub readbacks: Vec<usize>,
}

/// A submission as a mathematical value.
pub struct SubmissionView {
    pub uploads: Seq<UploadView>,
    pub readbacks: Seq<usize>,
}

impl DeepView for Submission {
    type V = SubmissionView;

    open spec fn deep_view(&self) -> SubmissionView {
        SubmissionView { uploads: self.uploads.deep_view(), readbacks: self.readbacks@ }
    }
}

/// The names under which values are supplied, in order.
pub open spec fn supplied_names(inputs: Seq<NamedTensorView>) -> Seq<Name> {
    Seq::new(inputs.len(), |k: int| inputs[k].name)
}

/// The call must supply tensor `t`: it is an input that the plan touches.
pub open spec fn required(model: GpuModelView, t: int) -> bool {
    model.graph.tensors[t].kind == TensorKind::Input && used(model.graph, t as usize)
}

/// What is wrong with what the call supplies for the declared input `t`, if
/// anything. An input that the plan touches must be supplied. Whatever is
/// supplied under the name of an input with a declared shape, touched or
/// not, must have the element type and the byte length of that shape; where
/// several values are supplied under the name, the first counts.
pub open spec fn input_fault(model: GpuModelView, inputs: Seq<NamedTensorView>, t: int) -> Option<
    GpuErrorView,
> {
    let name = model.graph.names[t];
    let tensor = model.graph.tensors[t];
    if tensor.kind != TensorKind::Input {
        None
    } else {
        match lookup(supplied_names(inputs), name) {
            None => if used(model.graph, t as usize) {
                Some(GpuErrorView::MissingInput(name))
            } else {
                None
            },
            Some(k) => match tensor.shape {
                None => None,
                Some(shape) => if inputs[k].value.data_type != shape.data_type {
                    Some(GpuErrorView::InputTypeMismatch(name))
                } else if inputs[k].value.bytes.len() != shape.byte_len() {
                    Some(GpuErrorView::InputSizeMismatch(name))
                } else {
                    None
                },
            },
        }
    }
}

/// The first tensor below `n` that is a declared input at fault.
pub open spec fn first_input_fault(model: GpuModelView, inputs: Seq<NamedTensorView>, n: int) -> Option<
    int,
>
    decreases n,
{
    if n <= 0 {
        None
    } else {
        match first_input_fault(model, inputs, n - 1) {
            Some(t) => Some(t),
            None => if input_fault(model, inputs, n - 1) is Some {
                Some(n - 1)
            } else {
                None
            },
        }
    }
}

/// The uploads for the required inputs below `n`, in the order of the
/// tensors: for each, the bytes of the first value supplied under its name,
/// into its buffer.
pub open spec fn uploads_upto(model: GpuModelView, inputs: Seq<NamedTensorView>, n: int) -> Seq<
    UploadView,
>
    decreases n,
{
    if n <= 0 {
        Seq::empty()
    } else if required(model, n - 1) {
        uploads_upto(model, inputs, n - 1).push(
            UploadView {
                buffer: buffers_upto(model.graph, n - 1).len() as usize,
                data: inputs[lookup(
                    supplied_names(inputs),
                    model.graph.names[n - 1],
                ).unwrap()].value.bytes,
            },
        )
    } else {
        uploads_upto(model, inputs, n - 1)
    }
}

/// The uploads that fill the buffers of the initializers below `n` that
/// the plan touches, in the order of the tensors: for each, its bytes into
/// its buffer.
pub open spec fn constant_uploads(model: GpuModelView, n: int) -> Seq<UploadView>
    decreases n,
{
    if n <= 0 {
        Seq::empty()
    } else if model.graph.tensors[n - 1].kind == TensorKind::Initializer && used(
        model.graph,
        (n - 1) as usize,
    ) {
        constant_uploads(model, n - 1).push(
            UploadView {
                buffer: buffers_upto(model.graph, n - 1).len() as usize,
                data: model.graph.tensors[n - 1].data,
            },
        )
    } else {
        constant_uploads(model, n - 1)
    }
}

/// What an inference call with these inputs hands to the device, or the
/// fault of the first declared input, in the order of the tensors, that is
/// missing or mismatched. Every refusal is a fault of the compiled model.
pub open spec fn submission(model: GpuModelView, inputs: Seq<NamedTensorView>) -> Result<
    SubmissionView,
    SessionErrorView,
> {
    let count = model.graph.tensors.len() as int;
    match first_input_fault(model, inputs, count) {
        Some(t) => Err(SessionErrorView::GpuError(input_fault(model, inputs, t).unwrap())),
        None => Ok(
            SubmissionView {
                uploads: uploads_upto(model, inputs, count),
                readbacks: slots(model.graph, model.graph.outputs),
            },
        ),
    }
}

/// The first of the first `n` outputs whose bytes read back do not have the
/// byte length of its shape.
pub open spec fn first_short_readback(model: GpuModelView, downloads: Seq<Seq<u8>>, n: int) -> Option<
    int,
>
    decreases n,
{
    if n <= 0 {
        None
    } else {
        match first_short_readback(model, downloads, n - 1) {
            Some(k) => Some(k),
            None => if downloads[n - 1].len() != model.graph.tensors[model.graph.outputs[n
                - 1] as int].shape.unwrap().byte_len() {
                Some(n - 1)
            } else {
                None
            },
        }
    }
}

/// The outputs of an inference call, from the bytes read back: one value
/// per requested output, in their order, under the output's name and with
/// its element type. The bytes are handed on as they are.
pub open spec fn collected(model: GpuModelView, downloads: Seq<Seq<u8>>) -> Result<
    Seq<NamedTensorView>,
    SessionErrorView,
> {
    let g = model.graph;
    if downloads.len() != g.outputs.len() {
        Err(SessionErrorView::GpuError(GpuErrorView::ReadbackCount))
    } else {
        match first_short_readback(model, downloads, g.outputs.len() as int) {
            Some(k) => Err(
                SessionErrorView::GpuError(
                    GpuErrorView::ReadbackSize(g.names[g.outputs[k] as int]),
                ),
            ),
            None => Ok(
                Seq::new(
                    g.outputs.len(),
                    |k: int|
                        NamedTensorView {
                            name: g.names[g.outputs[k] as int],
                            value: TensorDataView {
                                data_type: g.tensors[g.outputs[k] as int].shape.unwrap().data_type,
                                bytes: downloads[k],
                            },
                        },
                ),
            ),
        }
    }
}

/// The compiled model of a model description, or why it has none: the
/// operator-set version is resolved, the graph is built for the requested
/// outputs, pruned, and lowered with the standard operators.
pub open spec fn construct(m: ModelView, requested: Option<Seq<Name>>) -> Result<
    GpuModelView,
    SessionErrorView,
> {
    match resolution(m.opset_imports) {
        Resolution::Missing => Err(SessionErrorView::UnknownOnnxOpsetVersion),
        Resolution::Conflict(a, b) => Err(SessionErrorView::DuplicateOnnxOpset(a, b)),
        Resolution::Foreign(domain) => Err(SessionErrorView::UnknownOpset(domain)),
        Resolution::Version(version) => match build(m, requested) {
            Err(e) => Err(e),
            Ok(g) => match compile(g.pruned(), standard_entries(), version) {
                Err(e) => Err(SessionErrorView::GpuError(GpuErrorView::CompileError(e))),
                Ok(model) => Ok(model),
            },
        },
    }
}

/// The first input fault below `n` is the first below every later bound.
proof fn first_input_fault_stays(
    model: GpuModelView,
    inputs: Seq<NamedTensorView>,
    n: int,
    later: int,
)
    requires
        0 <= n <= later,
        first_input_fault(model, inputs, n) is Some,
    ensures
        first_input_fault(model, inputs, later) == first_input_fault(model, inputs, n),
    decreases later - n,
{
    if n < later {
        first_input_fault_stays(model, inputs, n, later - 1);
    }
}

/// The first short readback below `n` is the first below every later bound.
proof fn first_short_readback_stays(
    model: GpuModelView,
    downloads: Seq<Seq<u8>>,
    n: int,
    later: int,
)
    requires
        0 <= n <= later,
        first_short_readback(model, downloads, n) is Some,
    ensures
        first_short_readback(model, downloads, later) == first_short_readback(model, downloads, n),
    decreases later - n,
{
    if n < later {
        first_short_readback_stays(model, downloads, n, later - 1);
    }
}

/// Without an input fault below `n`, no tensor below `n` is an input at
/// fault.
proof fn no_input_fault_below(model: GpuModelView, inputs: Seq<NamedTensorView>, n: int, t: int)
    requires
        0 <= t < n,
        first_input_fault(model, inputs, n) is None,
    ensures
        input_fault(model, inputs, t) is None,
    decreases n,
{
    if t < n - 1 {
        no_input_fault_below(model, inputs, n - 1, t);
    }
}

/// The first input fault is a fault of an input, and no input before it is
/// at fault.
proof fn first_input_fault_is_first(model: GpuModelView, inputs: Seq<NamedTensorView>, n: int)
    requires
        0 <= n,
    ensures
        match first_input_fault(model, inputs, n) {
            Some(t) => 0 <= t < n && input_fault(model, inputs, t) is Some && first_input_fault(
                model,
                inputs,
                t,
            ) is None,
            None => true,
        },
    decreases n,
{
    if n > 0 {
        first_input_fault_is_first(model, inputs, n - 1);
    }
}

/// The upload of a required input stands among the uploads.
proof fn required_input_is_uploaded(
    model: GpuModelView,
    inputs: Seq<NamedTensorView>,
    t: int,
    n: int,
)
    requires
        0 <= t < n,
        required(model, t),
    ensures
        exists|u: int|
            0 <= u < uploads_upto(model, inputs, n).len() && #[trigger] uploads_upto(
                model,
                inputs,
                n,
            )[u] == (UploadView {
                buffer: buffers_upto(model.graph, t).len() as usize,
                data: inputs[lookup(supplied_names(inputs), model.graph.names[t]).unwrap()].value.bytes,
            }),
    decreases n,
{
    let all = uploads_upto(model, inputs, n);
    if t < n - 1 {
        required_input_is_uploaded(model, inputs, t, n - 1);
        let before = uploads_upto(model, inputs, n - 1);
        let u = choose|u: int|
            0 <= u < before.len() && #[trigger] before[u] == (UploadView {
                buffer: buffers_upto(model.graph, t).len() as usize,
                data: inputs[lookup(supplied_names(inputs), model.graph.names[t]).unwrap()].value.bytes,
            });
        assert(all[u] == before[u]);
    } else {
        assert(all[all.len() - 1] == (UploadView {
            buffer: buffers_upto(model.graph, t).len() as usize,
            data: inputs[lookup(supplied_names(inputs), model.graph.names[t]).unwrap()].value.bytes,
        }));
    }
}

/// A call that omits a required input is refused, and where no input
/// before the omitted one is at fault, the refusal names the omitted input.
pub proof fn omitted_input_is_refused(model: GpuModelView, inputs: Seq<NamedTensorView>, t: int)
    requires
        0 <= t < model.graph.tensors.len(),
        required(model, t),
        lookup(supplied_names(inputs), model.graph.names[t]) is None,
    ensures
        submission(model, inputs) is Err,
        first_input_fault(model, inputs, t) is None ==> submission(model, inputs) == Err::<
            SubmissionView,
            SessionErrorView,
        >(SessionErrorView::GpuError(GpuErrorView::MissingInput(model.graph.names[t]))),
{
    let count = model.graph.tensors.len() as int;
    if first_input_fault(model, inputs, t) is None {
        assert(first_input_fault(model, inputs, t + 1) == Some(t));
    } else {
        first_input_fault_stays(model, inputs, t, t + 1);
    }
    first_input_fault_stays(model, inputs, t + 1, count);
}

/// A refusal for a missing input names a required input that the call does
/// not supply.
pub proof fn missing_input_was_omitted(
    model: GpuModelView,
    inputs: Seq<NamedTensorView>,
    name: Name,
)
    requires
        submission(model, inputs) == Err::<SubmissionView, SessionErrorView>(
            SessionErrorView::GpuError(GpuErrorView::MissingInput(name)),
        ),
    ensures
        exists|t: int|
            0 <= t < model.graph.tensors.len() && required(model, t) && #[trigger] model.graph.names[t]
                == name && lookup(supplied_names(inputs), name) is None,
{
    let count = model.graph.tensors.len() as int;
    first_input_fault_is_first(model, inputs, count);
    let t = first_input_fault(model, inputs, count).unwrap();
    assert(model.graph.names[t] == name);
}

/// A value that disagrees with the declared input under whose name it is
/// supplied is refused, whether the plan touches that input or not: the
/// call is refused where the first value under the name of an input with a
/// declared shape has another element type or another byte length, and
/// where no input before it is at fault, the refusal names it.
pub proof fn mismatched_input_is_refused(model: GpuModelView, inputs: Seq<NamedTensorView>, t: int)
    requires
        0 <= t < model.graph.tensors.len(),
        model.graph.tensors[t].kind == TensorKind::Input,
        model.graph.tensors[t].shape is Some,
        lookup(supplied_names(inputs), model.graph.names[t]) is Some,
        ({
            let value = inputs[lookup(supplied_names(inputs), model.graph.names[t]).unwrap()].value;
            let shape = model.graph.tensors[t].shape.unwrap();
            value.data_type != shape.data_type || value.bytes.len() != shape.byte_len()
        }),
    ensures
        submission(model, inputs) is Err,
        first_input_fault(model, inputs, t) is None ==> ({
            let value = inputs[lookup(supplied_names(inputs), model.graph.names[t]).unwrap()].value;
            let shape = model.graph.tensors[t].shape.unwrap();
            submission(model, inputs) == Err::<SubmissionView, SessionErrorView>(
                SessionErrorView::GpuError(
                    if value.data_type != shape.data_type {
                        GpuErrorView::InputTypeMismatch(model.graph.names[t])
                    } else {
                        GpuErrorView::InputSizeMismatch(model.graph.names[t])
                    },
                ),
            )
        }),
{
    let count = model.graph.tensors.len() as int;
    if first_input_fault(model, inputs, t) is None {
        assert(first_input_fault(model, inputs, t + 1) == Some(t));
    } else {
        first_input_fault_stays(model, inputs, t, t + 1);
    }
    first_input_fault_stays(model, inputs, t + 1, count);
}

/// Every refusal of an inference call is a fault of the compiled model.
pub proof fn refusals_are_model_faults(
    model: GpuModelView,
    inputs: Seq<NamedTensorView>,
    downloads: Seq<Seq<u8>>,
)
    ensures
        submission(model, inputs) matches Err(e) ==> e is GpuError,
        collected(model, downloads) matches Err(e) ==> e is GpuError,
{
}

/// An output that is wired directly to an input comes back as it went in:
/// the input's bytes are uploaded into the buffer that is read back for the
/// output, no dispatch writes that buffer, and the bytes read back are
/// handed on as they are.
pub proof fn input_wired_to_output(
    model: GpuModelView,
    inputs: Seq<NamedTensorView>,
    downloads: Seq<Seq<u8>>,
    k: int,
)
    requires
        model.wf(),
        submission(model, inputs) is Ok,
        collected(model, downloads) is Ok,
        0 <= k < model.graph.outputs.len(),
        model.graph.tensors[model.graph.outputs[k] as int].kind == TensorKind::Input,
    ensures
        ({
            let sent = submission(model, inputs)->Ok_0;
            let supplied = inputs[lookup(
                supplied_names(inputs),
                model.graph.names[model.graph.outputs[k] as int],
            ).unwrap()];
            &&& exists|u: int|
                0 <= u < sent.uploads.len() && #[trigger] sent.uploads[u] == (UploadView {
                    buffer: sent.readbacks[k],
                    data: supplied.value.bytes,
                })
            &&& forall|d: int|
                0 <= d < model.dispatches.len() ==> !(#[trigger] model.dispatches[d]).writes.contains(
                    sent.readbacks[k],
                )
            &&& collected(model, downloads)->Ok_0[k].name == supplied.name
            &&& collected(model, downloads)->Ok_0[k].value.bytes == downloads[k]
            &&& collected(model, downloads)->Ok_0[k].value.data_type == supplied.value.data_type
        }),
{
    let g = model.graph;
    let count = g.tensors.len() as int;
    let t = g.outputs[k] as int;
    assert(g.available(g.outputs[k], g.nodes.len() as int));
    assert(g.outputs.contains(g.outputs[k]));
    assert(required(model, t));
    required_input_is_uploaded(model, inputs, t, count);
    no_input_fault_below(model, inputs, count, t);
    no_fault_below(g, count, t);
    lookup_finds_first(supplied_names(inputs), g.names[t]);
    assert forall|d: int| 0 <= d < model.dispatches.len() implies !(#[trigger] model.dispatches[d]).writes.contains(
        buffers_upto(g, t).len() as usize,
    ) by {
        given_buffers_are_not_written(model, t, d);
    }
    let sent = submission(model, inputs)->Ok_0;
    let supplied = inputs[lookup(supplied_names(inputs), g.names[t]).unwrap()];
    assert(sent.readbacks[k] == buffers_upto(g, t).len() as usize);
    assert(sent.uploads == uploads_upto(model, inputs, count));
    let u = choose|u: int|
        0 <= u < uploads_upto(model, inputs, count).len() && #[trigger] uploads_upto(
            model,
            inputs,
            count,
        )[u] == (UploadView {
            buffer: buffers_upto(model.graph, t).len() as usize,
            data: inputs[lookup(supplied_names(inputs), model.graph.names[t]).unwrap()].value.bytes,
        });
    assert(sent.uploads[u] == (UploadView {
        buffer: sent.readbacks[k],
        data: supplied.value.bytes,
    }));
    let got = collected(model, downloads)->Ok_0;
    assert(got[k].name == g.names[t]);
    assert(supplied.name == supplied_names(inputs)[lookup(
        supplied_names(inputs),
        g.names[t],
    ).unwrap()]);
    assert(got[k].value.bytes == downloads[k]);
    assert(got[k].value.data_type == supplied.value.data_type);
}

/// The same bytes under the same configuration give the same compiled
/// model.
pub proof fn construction_is_deterministic(
    bytes: Seq<u8>,
    requested: Option<Seq<Name>>,
    first: GpuModelView,
    second: GpuModelView,
)
    requires
        construct_from_bytes(bytes, requested) == Ok::<GpuModelView, SessionErrorView>(first),
        construct_from_bytes(bytes, requested) == Ok::<GpuModelView, SessionErrorView>(second),
    ensures
        first == second,
{
}

/// Construction succeeds exactly for a model that imports the default
/// operator set alone and in one version, whose graph can be built, and
/// whose pruned graph can be lowered at that version.
pub proof fn construction_succeeds_when_valid(m: ModelView, requested: Option<Seq<Name>>)
    ensures
        construct(m, requested) is Ok <==> (resolution(m.opset_imports) matches Resolution::Version(
            version,
        ) && build(m, requested) matches Ok(g) && compile(
            g.pruned(),
            standard_entries(),
            version,
        ) is Ok),
{
}

/// Construction never fails in the optimizer: pruning reduces every graph
/// that can be built, so a failure comes from the operator sets, from
/// building the graph or from lowering it.
pub proof fn construction_does_not_fail_in_optimizer(m: ModelView, requested: Option<Seq<Name>>)
    ensures
        !(construct(m, requested) matches Err(SessionErrorView::OptimizerError(_))),
        construct(m, requested) matches Err(SessionErrorView::GpuError(e)) ==> e
            is CompileError,
{
}

/// Requesting only some of the declared outputs gives a plan with no more
/// dispatches than requesting none in particular, and with strictly fewer
/// where some node is needed only for the outputs that are left out. The
/// nodes of the plan are the transitive producers of the requested outputs.
pub proof fn restricted_plan_is_smaller(m: ModelView, some: Seq<Name>)
    requires
        construct(m, None) is Ok,
        construct(m, Some(some)) is Ok,
        forall|i: int| 0 <= i < some.len() ==> declared_names(m.outputs).contains(#[trigger] some[i]),
    ensures
        ({
            let whole = construct(m, None)->Ok_0;
            let part = construct(m, Some(some))->Ok_0;
            let g = build(m, None)->Ok_0;
            let h = build(m, Some(some))->Ok_0;
            &&& part.dispatches.len() <= whole.dispatches.len()
            &&& part.dispatches.len() == h.pruned().nodes.len()
            &&& part.graph == h.pruned()
            &&& h == with_outputs(g, h.outputs)
            &&& (exists|n: int| g.needed(n) && !h.needed(n)) ==> part.dispatches.len()
                < whole.dispatches.len()
        }),
{
    let g = build(m, None)->Ok_0;
    let h = build(m, Some(some))->Ok_0;
    let declared = declared_names(m.outputs);
    assert(h == with_outputs(g, h.outputs));
    assert forall|t: usize| h.outputs.contains(t) implies g.outputs.contains(t) by {
        let i = choose|i: int| 0 <= i < h.outputs.len() && h.outputs[i] == t;
        let j = choose|j: int| 0 <= j < declared.len() && declared[j] == some[i];
        assert(g.outputs[j] == t);
    }
    fewer_outputs_fewer_nodes(g, h.outputs);
}

/// A model that is loaded and compiled, ready for inference calls.
pub struct Session {
    gpu_model: GpuModel,
}

impl Session {
    #[verifier::type_invariant]
    spec fn compiled(&self) -> bool {
        self.gpu_model.wf()
    }

    /// The compiled model of the session.
    pub closed spec fn plan(&self) -> GpuModelView {
        self.gpu_model.deep_view()
    }

    /// The compiled model of the session.
    pub fn gpu_model(&self) -> (model: &GpuModel)
        ensures
            model.deep_view() == self.plan(),
            model.wf(),
    {
        proof {
            use_type_invariant(self);
        }
        &self.gpu_model
    }

    /// Creates a session for a model with the given configuration.
    ///
    /// The model must import the default operator set, in one version, and
    /// no other; that version governs the selection of operators. The graph
    /// is built for the outputs that the configuration requests, or for all
    /// declared outputs where it requests none; nodes that none of them
    /// depends on are dropped; and what is left is lowered with the standard
    /// operators.
    pub fn from_model_with_config(model: ModelDescription, config: &SessionConfig) -> (r: Result<
        Session,
        SessionError,
    >)
        ensures
            match r {
                Ok(session) => construct(model.deep_view(), config.requested()) == Ok::<
                    GpuModelView,
                    SessionErrorView,
                >(session.plan()),
                Err(e) => construct(model.deep_view(), config.requested()) == Err::<
                    GpuModelView,
                    SessionErrorView,
                >(e.deep_view()),
            },
    {
        let resolved = resolve_opset(&model.opset_imports);
        let version = match resolved {
            Ok(version) => version,
            Err(e) => {
                return Err(e);
            },
        };
        let graph = match Graph::from_model(&model, config.outputs.as_ref()) {
            Ok(graph) => graph,
            Err(e) => {
                return Err(e);
            },
        };
        let registry = OperatorRegistry::standard();
        match GpuModel::from(prune(graph), &registry, version) {
            Ok(gpu_model) => Ok(Session { gpu_model }),
            Err(e) => Err(SessionError::GpuError(e)),
        }
    }

    /// Creates a session for a model with the default configuration: all
    /// declared outputs are computed.
    pub fn from_model(model: ModelDescription) -> (r: Result<Session, SessionError>)
        ensures
            match r {
                Ok(session) => construct(model.deep_view(), None) == Ok::<
                    GpuModelView,
                    SessionErrorView,
                >(session.plan()),
                Err(e) => construct(model.deep_view(), None) == Err::<
                    GpuModelView,
                    SessionErrorView,
                >(e.deep_view()),
            },
    {
        Self::from_model_with_config(model, &SessionConfig::new())
    }
}

/// The names under which values are supplied.
fn names_of_inputs(inputs: &Vec<NamedTensor>) -> (names: Vec<String>)
    ensures
        names.deep_view() == supplied_names(inputs.deep_view()),
{
    let mut names: Vec<String> = Vec::new();
    let mut i: usize = 0;
    while i < inputs.len()
        invariant
            i <= inputs.len(),
            names@.len() == i,
            forall|k: int| 0 <= k < i ==> names@[k]@ == inputs@[k].name@,
        decreases inputs.len() - i,
    {
        names.push(inputs[i].name.clone());
        i = i + 1;
    }
    proof {
        assert(names.deep_view() =~= supplied_names(inputs.deep_view()));
    }
    names
}

impl Session {
    /// The uploads that are made once, when the model is loaded onto the
    /// device: the bytes of every initializer that the plan touches, into
    /// its buffer, in the order of the tensors. Each fills its buffer.
    pub fn initial_uploads(&self) -> (uploads: Vec<Upload>)
        ensures
            uploads.deep_view() == constant_uploads(
                self.plan(),
                self.plan().graph.tensors.len() as int,
            ),
            forall|u: int|
                0 <= u < uploads@.len() ==> (#[trigger] uploads@[u]).buffer
                    < self.plan().buffers.len() && uploads@[u].data@.len()
                    == self.plan().buffers[uploads@[u].buffer as int].size,
    {
        proof {
            use_type_invariant(self);
        }
        let model = &self.gpu_model;
        let graph = &model.graph;
        let ghost mv = model.deep_view();
        let ghost g = mv.graph;
        let ghost count = g.tensors.len() as int;
        let mut uploads: Vec<Upload> = Vec::new();
        let mut t: usize = 0;
        while t < graph.tensors.len()
            invariant
                t <= graph.tensors.len(),
                mv == model.deep_view(),
                mv == self.plan(),
                g == mv.graph,
                g == graph.deep_view(),
                count == g.tensors.len(),
                mv.wf(),
                uploads.deep_view() == constant_uploads(mv, t as int),
                forall|u: int|
                    0 <= u < uploads@.len() ==> (#[trigger] uploads@[u]).buffer < mv.buffers.len()
                        && uploads@[u].data@.len() == mv.buffers[uploads@[u].buffer as int].size,
            decreases graph.tensors.len() - t,
        {
            let tensor = &graph.tensors[t];
            let ghost before = uploads.deep_view();
            proof {
                assert(g.tensors[t as int] == tensor.deep_view());
                assert(model.buffer_of@[t as int] == crate::compiler::slot(g, t as int));
            }
            let constant = match tensor.kind {
                TensorKind::Initializer => true,
                _ => false,
            };
            if constant {
                match model.buffer_of[t] {
                    Some(b) => {
                        proof {
                            no_fault_below(g, count, t as int);
                            buffer_holds_tensor(g, t as int, count);
                        }
                        uploads.push(Upload { buffer: b, data: copy_values(&tensor.data) });
                        proof {
                            assert(uploads.deep_view() =~= before.push(
                                UploadView { buffer: b, data: g.tensors[t as int].data },
                            ));
                        }
                    },
                    None => {},
                }
            }
            t = t + 1;
        }
        uploads
    }

    /// Decides what an inference call hands to the device.
    ///
    /// Every input of the graph that the plan touches must be supplied, and
    /// whatever is supplied under the name of a declared input with a
    /// shape, touched or not, must have the element type and the byte
    /// length of that shape; where several values are supplied under one
    /// name, the first counts, and values under names that are no declared
    /// input are ignored. The first input, in the order of the tensors, that
    /// is missing or mismatched is refused, by name, as a fault of the
    /// compiled model. Else the bytes of each touched input are uploaded
    /// into its buffer, and the buffer of each requested output is read
    /// back.
    pub fn prepare(&self, inputs: &Vec<NamedTensor>) -> (r: Result<Submission, SessionError>)
        ensures
            match r {
                Ok(s) => submission(self.plan(), inputs.deep_view()) == Ok::<
                    SubmissionView,
                    SessionErrorView,
                >(s.deep_view()),
                Err(e) => submission(self.plan(), inputs.deep_view()) == Err::<
                    SubmissionView,
                    SessionErrorView,
                >(e.deep_view()),
            },
    {
        proof {
            use_type_invariant(self);
        }
        let model = &self.gpu_model;
        let graph = &model.graph;
        let ghost mv = model.deep_view();
        let ghost g = mv.graph;
        let ghost iv = inputs.deep_view();
        let ghost count = g.tensors.len() as int;
        let supplied = names_of_inputs(inputs);
        let mut uploads: Vec<Upload> = Vec::new();
        let mut t: usize = 0;
        while t < graph.tensors.len()
            invariant
                t <= graph.tensors.len(),
                mv == model.deep_view(),
                mv == self.plan(),
                g == mv.graph,
                g == graph.deep_view(),
                iv == inputs.deep_view(),
                count == g.tensors.len(),
                mv.wf(),
                supplied.deep_view() == supplied_names(iv),
                first_input_fault(mv, iv, t as int) is None,
                uploads.deep_view() == uploads_upto(mv, iv, t as int),
            decreases graph.tensors.len() - t,
        {
            let tensor = &graph.tensors[t];
            let ghost before = uploads.deep_view();
            proof {
                assert(g.tensors[t as int] == tensor.deep_view());
                assert(g.names[t as int] == graph.names@[t as int]@);
                assert(model.buffer_of@[t as int] == crate::compiler::slot(g, t as int));
            }
            let is_input = match tensor.kind {
                TensorKind::Input => true,
                _ => false,
            };
            if is_input {
                proof {
                    lookup_finds_first(supplied_names(iv), g.names[t as int]);
                    if used(g, t as usize) {
                        no_fault_below(g, count, t as int);
                    }
                }
                let refused: Option<GpuError> = match find_name(&supplied, &graph.names[t]) {
                    None => match model.buffer_of[t] {
                        Some(_) => {
                            proof {
                                assert(used(g, t as usize));
                            }
                            Some(GpuError::MissingInput(graph.names[t].clone()))
                        },
                        None => {
                            proof {
                                assert(!used(g, t as usize));
                            }
                            None
                        },
                    },
                    Some(k) => {
                        proof {
                            assert(iv[k as int] == inputs@[k as int].deep_view());
                        }
                        let value = &inputs[k].value;
                        match &tensor.shape {
                            None => None,
                            Some(shape) => {
                                proof {
                                    assert(g.tensors[t as int].shape == Some(shape.deep_view()));
                                }
                                let length = value.bytes.len() as u64;
                                let fills = match shape.buffer_bytes() {
                                    Some(size) => length == size,
                                    None => false,
                                };
                                if value.data_type != shape.data_type {
                                    Some(GpuError::InputTypeMismatch(graph.names[t].clone()))
                                } else if !fills {
                                    Some(GpuError::InputSizeMismatch(graph.names[t].clone()))
                                } else {
                                    match model.buffer_of[t] {
                                        Some(b) => {
                                            uploads.push(
                                                Upload {
                                                    buffer: b,
                                                    data: copy_values(&value.bytes),
                                                },
                                            );
                                        },
                                        None => {},
                                    }
                                    None
                                }
                            },
                        }
                    },
                };
                match refused {
                    Some(e) => {
                        proof {
                            assert(input_fault(mv, iv, t as int) == Some(e.deep_view()));
                            assert(first_input_fault(mv, iv, t + 1) == Some(t as int));
                            first_input_fault_stays(mv, iv, t + 1, count);
                        }
                        return Err(SessionError::GpuError(e));
                    },
                    None => {
                        proof {
                            assert(input_fault(mv, iv, t as int) is None);
                            if used(g, t as usize) {
                                assert(uploads.deep_view() =~= before.push(
                                    UploadView {
                                        buffer: buffers_upto(g, t as int).len() as usize,
                                        data: iv[lookup(
                                            supplied_names(iv),
                                            g.names[t as int],
                                        ).unwrap()].value.bytes,
                                    },
                                ));
                            }
                        }
                    },
                }
            }
            t = t + 1;
        }
        proof {
            assert forall|k: int| 0 <= k < graph.outputs@.len() implies graph.outputs@[k]
                < model.buffer_of@.len() && used(g, #[trigger] graph.outputs@[k]) by {
                assert(g.available(g.outputs[k], g.nodes.len() as int));
                assert(g.outputs.contains(graph.outputs@[k]));
            }
        }
        let readbacks = slots_of(graph, &model.buffer_of, &graph.outputs);
        Ok(Submission { uploads, readbacks })
    }

    /// Assembles the outputs of an inference call from the bytes read back.
    ///
    /// There must be one sequence of bytes per requested output, in their
    /// order, each of the byte length of the output's shape; the first that
    /// is not is refused, by name. Each output carries its name, its element
    /// type and the bytes as they were read.
    pub fn collect(&self, downloads: &Vec<Vec<u8>>) -> (r: Result<Vec<NamedTensor>, SessionError>)
        ensures
            match r {
                Ok(outputs) => collected(self.plan(), downloads.deep_view()) == Ok::<
                    Seq<NamedTensorView>,
                    SessionErrorView,
                >(outputs.deep_view()),
                Err(e) => collected(self.plan(), downloads.deep_view()) == Err::<
                    Seq<NamedTensorView>,
                    SessionErrorView,
                >(e.deep_view()),
            },
    {
        proof {
            use_type_invariant(self);
        }
        let model = &self.gpu_model;
        let graph = &model.graph;
        let ghost mv = model.deep_view();
        let ghost g = mv.graph;
        let ghost dv = downloads.deep_view();
        let ghost count = g.tensors.len() as int;
        if downloads.len() != graph.outputs.len() {
            return Err(SessionError::GpuError(GpuError::ReadbackCount));
        }
        let mut outputs: Vec<NamedTensor> = Vec::new();
        let mut k: usize = 0;
        while k < graph.outputs.len()
            invariant
                k <= graph.outputs.len(),
                downloads@.len() == graph.outputs@.len(),
                mv == model.deep_view(),
                mv == self.plan(),
                g == mv.graph,
                g == graph.deep_view(),
                dv == downloads.deep_view(),
                count == g.tensors.len(),
                mv.wf(),
                first_short_readback(mv, dv, k as int) is None,
                outputs@.len() == k,
                forall|j: int|
                    0 <= j < k ==> (#[trigger] outputs@[j]).deep_view() == (NamedTensorView {
                        name: g.names[g.outputs[j] as int],
                        value: TensorDataView {
                            data_type: g.tensors[g.outputs[j] as int].shape.unwrap().data_type,
                            bytes: dv[j],
                        },
                    }),
            decreases graph.outputs.len() - k,
        {
            let t = graph.outputs[k];
            proof {
                assert(g.available(g.outputs[k as int], g.nodes.len() as int));
                assert(g.outputs.contains(t));
                assert(used(g, t));
                no_fault_below(g, count, t as int);
                assert(g.tensors[t as int] == graph.tensors@[t as int].deep_view());
                assert(g.names[t as int] == graph.names@[t as int]@);
                assert(dv[k as int] == downloads@[k as int]@);
            }
            let tensor = &graph.tensors[t];
            match &tensor.shape {
                Some(shape) => {
                    let expected = shape.buffer_bytes();
                    let fits = match expected {
                        Some(size) => downloads[k].len() as u64 == size,
                        None => false,
                    };
                    if !fits {
                        proof {
                            assert(first_short_readback(mv, dv, k + 1) == Some(k as int));
                            first_short_readback_stays(mv, dv, k + 1, g.outputs.len() as int);
                        }
                        return Err(
                            SessionError::GpuError(GpuError::ReadbackSize(graph.names[t].clone())),
                        );
                    }
                    outputs.push(
                        NamedTensor {
                            name: graph.names[t].clone(),
                            value: TensorData {
                                data_type: shape.data_type,
                                bytes: copy_values(&downloads[k]),
                            },
                        },
                    );
                },
                None => {
                    proof {
                        assert(false);
                    }
                },
            }
            k = k + 1;
        }
        proof {
            assert(outputs.deep_view() =~= collected(mv, dv)->Ok_0);
        }
        Ok(outputs)
    }
}

/// The compiled model of a serialized model, or why it has none.
pub open spec fn construct_from_bytes(bytes: Seq<u8>, requested: Option<Seq<Name>>) -> Result<
    GpuModelView,
    SessionErrorView,
> {
    match model_of(bytes) {
        Err(_) => Err(SessionErrorView::ModelDeserializationError),
        Ok(m) => construct(m, requested),
    }
}

impl Session {
    /// Creates a session for a serialized model with the given
    /// configuration. Bytes that cannot be decoded are refused as a
    /// malformed model, before anything else is looked at; for a model that
    /// can, see [`Session::from_model_with_config`].
    pub fn from_bytes_with_config(bytes: &[u8], config: &SessionConfig) -> (r: Result<
        Session,
        SessionError,
    >)
        ensures
            match r {
                Ok(session) => construct_from_bytes(bytes@, config.requested()) == Ok::<
                    GpuModelView,
                    SessionErrorView,
                >(session.plan()),
                Err(e) => construct_from_bytes(bytes@, config.requested()) == Err::<
                    GpuModelView,
                    SessionErrorView,
                >(e.deep_view()),
            },
    {
        match ModelDescription::from_bytes(bytes) {
            Ok(model) => Self::from_model_with_config(model, config),
            Err(e) => Err(SessionError::from(e)),
        }
    }

    /// Creates a session for a serialized model with the default
    /// configuration: all declared outputs are computed.
    pub fn from_bytes(bytes: &[u8]) -> (r: Result<Session, SessionError>)
        ensures
            match r {
                Ok(session) => construct_from_bytes(bytes@, None) == Ok::<
                    GpuModelView,
                    SessionErrorView,
                >(session.plan()),
                Err(e) => construct_from_bytes(bytes@, None) == Err::<
                    GpuModelView,
                    SessionErrorView,
                >(e.deep_view()),
            },
    {
        Self::from_bytes_with_config(bytes, &SessionConfig::new())
    }
}

} // verus!
