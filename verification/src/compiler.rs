//! Lowering of a graph to a plan: one dispatch per node, in the order of the
//! nodes, and one buffer per tensor that the plan touches.

use vstd::prelude::*;
use crate::error::{CompileError, CompileErrorView, GpuError};
use crate::graph::{Graph, GraphView, TensorKind};
use crate::marks::{set_all, unset};
use crate::model::volume;
use crate::registry::{selection, OperatorEntryView, OperatorRegistry};

verus! {

/// A device buffer: the tensor that it holds and its length in bytes.
#[derive(Debug, Clone, Copy, PartialEq, Eq, Structural)]
pub struct Buffer {
    pub tensor: usize,
    pub size: u64,
}

/// One unit of device work: the node that it runs, the operator
/// implementation selected for it, the buffers that it reads and writes in
/// the order of the node's tensors, and the number of elements of its first
/// output.
#[derive(Debug, Clone)]
pub struct Dispatch {
    pub node: usize,
    pub operator: usize,
    pub reads: Vec<usize>,
    pub writes: Vec<usize>,
    pub elements: u64,
}

/// A dispatch as a mathematical value.
pub struct DispatchView {
    pub node: usize,
    pub operator: usize,
    pub reads: Seq<usize>,
    pub writes: Seq<usize>,
    pub elements: u64,
}

impl DeepView for Dispatch {
    type V = DispatchView;

    open spec fn deep_view(&self) -> DispatchView {
        DispatchView {
            node: self.node,
            operator: self.operator,
            reads: self.reads@,
            writes: self.writes@,
            elements: self.elements,
        }
    }
}

/// A compiled model: the graph, the operator-set version that governs it,
/// its buffers, the buffer of each tensor that has one, and the dispatches
/// in the order in which they run.
#[derive(Debug, Clone)]
pub struct GpuModel {
    pub opset_version: i64,
    pub graph: Graph,
    pub buffers: Vec<Buffer>,
    pub buffer_of: Vec<Option<usize>>,
    pub dispatches: Vec<Dispatch>,
}

/// A compiled model as a mathematical value.
pub struct GpuModelView {
    pub opset_version: i64,
    pub graph: GraphView,
    pub buffers: Seq<Buffer>,
    pub buffer_of: Seq<Option<usize>>,
    pub dispatches: Seq<DispatchView>,
}

impl DeepView for GpuModel {
    type V = GpuModelView;

    open spec fn deep_view(&self) -> GpuModelView {
        GpuModelView {
            opset_version: self.opset_version,
            graph: self.graph.deep_view(),
            buffers: self.buffers@,
            buffer_of: self.buffer_of@,
            dispatches: self.dispatches.deep_view(),
        }
    }
}

/// Node `n` reads or writes tensor `t`.
pub open spec fn touches(g: GraphView, n: int, t: usize) -> bool {
    g.consumes(n, t) || g.produces(n, t)
}

/// The plan touches tensor `t`: it is a requested output, or a node reads or
/// writes it.
pub open spec fn used(g: GraphView, t: usize) -> bool {
    g.outputs.contains(t) || exists|n: int| #[trigger] touches(g, n, t)
}

/// Why tensor `t` cannot have a buffer, if it cannot: its shape is open, its
/// byte length exceeds 64 bits, or it is an initializer whose bytes do not
/// fill its shape.
pub open spec fn fault(g: GraphView, t: int) -> Option<CompileErrorView> {
    let tensor = g.tensors[t];
    let name = g.names[t];
    match tensor.shape {
        None => Some(CompileErrorView::UnknownShape(name)),
        Some(shape) => if shape.byte_len() > u64::MAX {
            Some(CompileErrorView::BufferTooLarge(name))
        } else if tensor.kind == TensorKind::Initializer && tensor.data.len() != shape.byte_len() {
            Some(CompileErrorView::InitializerSize(name))
        } else {
            None
        },
    }
}

/// The first tensor below `n` that the plan touches and that cannot have a
/// buffer.
pub open spec fn first_fault(g: GraphView, n: int) -> Option<int>
    decreases n,
{
    if n <= 0 {
        None
    } else {
        match first_fault(g, n - 1) {
            Some(t) => Some(t),
            None => if used(g, (n - 1) as usize) && fault(g, n - 1) is Some {
                Some(n - 1)
            } else {
                None
            },
        }
    }
}

/// The buffers of the tensors below `n`: one for each that the plan touches,
/// in the order of the tensors, of the element size times the number of
/// elements.
pub open spec fn buffers_upto(g: GraphView, n: int) -> Seq<Buffer>
    decreases n,
{
    if n <= 0 {
        Seq::empty()
    } else if used(g, (n - 1) as usize) {
        buffers_upto(g, n - 1).push(
            Buffer {
                tensor: (n - 1) as usize,
                size: g.tensors[n - 1].shape.unwrap().byte_len() as u64,
            },
        )
    } else {
        buffers_upto(g, n - 1)
    }
}

/// The buffer of tensor `t`, if the plan touches it.
pub open spec fn slot(g: GraphView, t: int) -> Option<usize> {
    if used(g, t as usize) {
        Some(buffers_upto(g, t).len() as usize)
    } else {
        None
    }
}

/// The buffers of the tensors, in order.
pub open spec fn slots(g: GraphView, ids: Seq<usize>) -> Seq<usize> {
    Seq::new(ids.len(), |k: int| buffers_upto(g, ids[k] as int).len() as usize)
}

/// The implementation of node `n` at the version: the first entry for its
/// operator whose range holds the version and that accepts the tensors that
/// the node reads.
pub open spec fn implementation(
    entries: Seq<OperatorEntryView>,
    g: GraphView,
    version: i64,
    n: int,
) -> Option<int> {
    selection(
        entries,
        g.nodes[n].op_type,
        version,
        g.tensors,
        g.nodes[n].inputs,
        entries.len() as int,
    )
}

/// The first node below `n` for which no operator implementation is
/// registered at the version that accepts what the node reads.
pub open spec fn first_unimplemented(
    entries: Seq<OperatorEntryView>,
    g: GraphView,
    version: i64,
    n: int,
) -> Option<int>
    decreases n,
{
    if n <= 0 {
        None
    } else {
        match first_unimplemented(entries, g, version, n - 1) {
            Some(k) => Some(k),
            None => if implementation(entries, g, version, n - 1) is None {
                Some(n - 1)
            } else {
                None
            },
        }
    }
}

/// The number of elements of the first tensor that the node writes; 0 for a
/// node that writes nothing.
pub open spec fn elements_of(g: GraphView, n: int) -> u64 {
    if g.nodes[n].outputs.len() == 0 {
        0
    } else {
        volume(g.tensors[g.nodes[n].outputs[0] as int].shape.unwrap().dims) as u64
    }
}

/// The dispatch of node `n`.
pub open spec fn dispatch_of(
    entries: Seq<OperatorEntryView>,
    g: GraphView,
    version: i64,
    n: int,
) -> DispatchView {
    DispatchView {
        node: n as usize,
        operator: implementation(entries, g, version, n).unwrap() as usize,
        reads: slots(g, g.nodes[n].inputs),
        writes: slots(g, g.nodes[n].outputs),
        elements: elements_of(g, n),
    }
}

/// The plan of a graph, or why it has none.
///
/// The first node without a registered implementation at the version is
/// refused, with its operator and the version. Then the first tensor that
/// the plan touches and that cannot have a buffer is refused. Else there is
/// one dispatch per node, in the order of the nodes, and one buffer per
/// tensor that the plan touches, in the order of the tensors.
pub open spec fn compile(g: GraphView, entries: Seq<OperatorEntryView>, version: i64) -> Result<
    GpuModelView,
    CompileErrorView,
> {
    match first_unimplemented(entries, g, version, g.nodes.len() as int) {
        Some(n) => Err(
            CompileErrorView::UnimplementedOp { op: g.nodes[n].op_type, opset_version: version },
        ),
        None => match first_fault(g, g.tensors.len() as int) {
            Some(t) => Err(fault(g, t).unwrap()),
            None => Ok(
                GpuModelView {
                    opset_version: version,
                    graph: g,
                    buffers: buffers_upto(g, g.tensors.len() as int),
                    buffer_of: Seq::new(g.tensors.len(), |t: int| slot(g, t)),
                    dispatches: Seq::new(
                        g.nodes.len(),
                        |n: int| dispatch_of(entries, g, version, n),
                    ),
                },
            ),
        },
    }
}

impl GpuModelView {
    /// The invariant of a compiled model: the graph has its invariant, every
    /// tensor that the plan touches can have a buffer, the buffers are those
    /// of the graph, and there is one dispatch per node, in the order of the
    /// nodes, bound to the buffers of the node's tensors.
    pub open spec fn wf(self) -> bool {
        let g = self.graph;
        &&& g.wf()
        &&& g.tensors.len() <= usize::MAX
        &&& first_fault(g, g.tensors.len() as int) is None
        &&& self.buffers == buffers_upto(g, g.tensors.len() as int)
        &&& self.buffer_of == Seq::new(g.tensors.len(), |t: int| slot(g, t))
        &&& self.dispatches.len() == g.nodes.len()
        &&& forall|n: int|
            0 <= n < g.nodes.len() ==> {
                &&& (#[trigger] self.dispatches[n]).node == n
                &&& self.dispatches[n].reads == slots(g, g.nodes[n].inputs)
                &&& self.dispatches[n].writes == slots(g, g.nodes[n].outputs)
            }
    }
}

impl GpuModel {
    /// The invariant of a compiled model, see [`GpuModelView::wf`].
    pub open spec fn wf(&self) -> bool {
        self.deep_view().wf()
    }
}

/// The first fault below `n` is the first below every later bound.
proof fn first_fault_stays(g: GraphView, n: int, later: int)
    requires
        0 <= n <= later,
        first_fault(g, n) is Some,
    ensures
        first_fault(g, later) == first_fault(g, n),
    decreases later - n,
{
    if n < later {
        first_fault_stays(g, n, later - 1);
    }
}

/// Without a fault below `n`, every tensor below `n` that the plan touches
/// can have a buffer.
pub proof fn no_fault_below(g: GraphView, n: int, t: int)
    requires
        0 <= t < n,
        first_fault(g, n) is None,
        used(g, t as usize),
    ensures
        fault(g, t) is None,
    decreases n,
{
    if t < n - 1 {
        no_fault_below(g, n - 1, t);
    }
}

/// The first unimplemented node below `n` is the first below every later
/// bound.
proof fn first_unimplemented_stays(
    entries: Seq<OperatorEntryView>,
    g: GraphView,
    version: i64,
    n: int,
    later: int,
)
    requires
        0 <= n <= later,
        first_unimplemented(entries, g, version, n) is Some,
    ensures
        first_unimplemented(entries, g, version, later) == first_unimplemented(
            entries,
            g,
            version,
            n,
        ),
    decreases later - n,
{
    if n < later {
        first_unimplemented_stays(entries, g, version, n, later - 1);
    }
}

/// The buffer of a tensor that the plan touches is a buffer of the plan, and
/// holds that tensor.
pub proof fn buffer_holds_tensor(g: GraphView, t: int, n: int)
    requires
        0 <= t < n,
        used(g, t as usize),
    ensures
        buffers_upto(g, t).len() < buffers_upto(g, n).len(),
        buffers_upto(g, n).len() <= n,
        buffers_upto(g, n)[buffers_upto(g, t).len() as int] == (Buffer {
            tensor: t as usize,
            size: g.tensors[t].shape.unwrap().byte_len() as u64,
        }),
    decreases n,
{
    buffers_are_few(g, n);
    if t < n - 1 {
        buffer_holds_tensor(g, t, n - 1);
    } else {
        buffers_are_few(g, t);
    }
}

/// There are at most as many buffers as tensors.
pub proof fn buffers_are_few(g: GraphView, n: int)
    requires
        0 <= n,
    ensures
        buffers_upto(g, n).len() <= n,
    decreases n,
{
    if n > 0 {
        buffers_are_few(g, n - 1);
    }
}

/// Two tensors that the plan touches have different buffers.
pub proof fn buffers_do_not_alias(g: GraphView, a: int, b: int)
    requires
        0 <= a < b,
        used(g, a as usize),
        used(g, b as usize),
    ensures
        buffers_upto(g, a).len() < buffers_upto(g, b).len(),
{
    buffer_holds_tensor(g, a, b);
}

/// Every dispatch stands after the dispatches that write what it reads: for
/// each buffer that it reads and that holds a computed tensor, an earlier
/// dispatch writes that buffer.
pub proof fn dispatches_follow_producers(model: GpuModelView, d: int, k: int)
    requires
        model.wf(),
        0 <= d < model.dispatches.len(),
        0 <= k < model.dispatches[d].reads.len(),
        model.graph.tensors[model.graph.nodes[d].inputs[k] as int].kind == TensorKind::Computed,
    ensures
        exists|e: int|
            0 <= e < d && (#[trigger] model.dispatches[e]).writes.contains(
                model.dispatches[d].reads[k],
            ),
{
    let g = model.graph;
    let t = g.input_at(d, k);
    assert(g.available(t, d));
    let e = choose|e: int| 0 <= e < d && #[trigger] g.produces(e, t);
    let j = choose|j: int| 0 <= j < g.nodes[e].outputs.len() && g.nodes[e].outputs[j] == t;
    assert(model.dispatches[e].writes[j] == model.dispatches[d].reads[k]);
}

/// No dispatch writes the buffer of a tensor that is not computed: inputs
/// and initializers stay as they were uploaded.
pub proof fn given_buffers_are_not_written(model: GpuModelView, t: int, d: int)
    requires
        model.wf(),
        0 <= t < model.graph.tensors.len(),
        used(model.graph, t as usize),
        model.graph.tensors[t].kind != TensorKind::Computed,
        0 <= d < model.dispatches.len(),
    ensures
        !model.dispatches[d].writes.contains(buffers_upto(model.graph, t).len() as usize),
{
    let g = model.graph;
    let b = buffers_upto(g, t).len() as usize;
    if model.dispatches[d].writes.contains(b) {
        let j = choose|j: int|
            0 <= j < model.dispatches[d].writes.len() && model.dispatches[d].writes[j] == b;
        let o = g.output_at(d, j);
        assert(g.tensors[o as int].kind == TensorKind::Computed);
        assert(touches(g, d, o));
        buffers_are_few(g, t);
        buffers_are_few(g, o as int);
        if o < t {
            buffers_do_not_alias(g, o as int, t);
        } else {
            buffers_do_not_alias(g, t, o as int);
        }
    }
}

/// Decides for every tensor whether the plan touches it.
fn used_tensors(graph: &Graph) -> (flags: Vec<bool>)
    requires
        graph.wf(),
    ensures
        flags@.len() == graph.tensors@.len(),
        forall|t: usize| t < flags@.len() ==> flags@[t as int] == used(graph.deep_view(), t),
{
    let ghost g = graph.deep_view();
    let mut flags = unset(graph.tensors.len());
    proof {
        assert forall|k: int| 0 <= k < graph.outputs@.len() implies graph.outputs@[k]
            < flags@.len() by {
            assert(g.available(g.outputs[k], g.nodes.len() as int));
        }
    }
    set_all(&mut flags, &graph.outputs);
    let mut n: usize = 0;
    while n < graph.nodes.len()
        invariant
            n <= graph.nodes.len(),
            g == graph.deep_view(),
            g.wf(),
            flags@.len() == graph.tensors@.len(),
            forall|t: usize|
                t < flags@.len() ==> (flags@[t as int] <==> g.outputs.contains(t) || exists|m: int|
                    0 <= m < n && #[trigger] touches(g, m, t)),
        decreases graph.nodes.len() - n,
    {
        let node = &graph.nodes[n];
        let ghost before = flags@;
        proof {
            assert(node.deep_view() == g.nodes[n as int]);
            assert forall|k: int| 0 <= k < node.inputs@.len() implies node.inputs@[k]
                < flags@.len() by {
                assert(g.available(g.input_at(n as int, k), n as int));
            }
            assert forall|k: int| 0 <= k < node.outputs@.len() implies node.outputs@[k]
                < flags@.len() by {
                assert(g.output_at(n as int, k) == node.outputs@[k]);
            }
        }
        set_all(&mut flags, &node.inputs);
        let ghost between = flags@;
        set_all(&mut flags, &node.outputs);
        proof {
            assert forall|t: usize| t < flags@.len() implies (flags@[t as int]
                <==> g.outputs.contains(t) || exists|m: int|
                0 <= m < n + 1 && #[trigger] touches(g, m, t)) by {
                assert(between[t as int] <==> before[t as int] || node.inputs@.contains(t));
                assert(flags@[t as int] <==> between[t as int] || node.outputs@.contains(t));
                assert(g.nodes[n as int].inputs == node.inputs@);
                assert(g.nodes[n as int].outputs == node.outputs@);
                assert(touches(g, n as int, t) <==> node.inputs@.contains(t)
                    || node.outputs@.contains(t));
                if node.inputs@.contains(t) || node.outputs@.contains(t) {
                    assert(touches(g, n as int, t));
                }
                if exists|m: int| 0 <= m < n && #[trigger] touches(g, m, t) {
                    let m = choose|m: int| 0 <= m < n && #[trigger] touches(g, m, t);
                    assert(0 <= m < n + 1 && touches(g, m, t));
                }
                if exists|m: int| 0 <= m < n + 1 && #[trigger] touches(g, m, t) {
                    let m = choose|m: int| 0 <= m < n + 1 && #[trigger] touches(g, m, t);
                    if m == n {
                        assert(node.inputs@.contains(t) || node.outputs@.contains(t));
                    } else {
                        assert(0 <= m < n && touches(g, m, t));
                    }
                }
            }
        }
        n = n + 1;
    }
    proof {
        assert forall|t: usize| t < flags@.len() implies flags@[t as int] == used(g, t) by {
            if exists|m: int| #[trigger] touches(g, m, t) {
                let m = choose|m: int| #[trigger] touches(g, m, t);
                assert(0 <= m < n && touches(g, m, t));
            }
        }
    }
    flags
}

/// Selects an operator implementation for every node, or finds the first
/// node that has none.
fn select_operators(graph: &Graph, registry: &OperatorRegistry, version: i64) -> (r: Result<
    Vec<usize>,
    usize,
>)
    requires
        graph.wf(),
    ensures
        match r {
            Ok(chosen) => {
                &&& first_unimplemented(
                    registry.deep_view(),
                    graph.deep_view(),
                    version,
                    graph.nodes@.len() as int,
                ) is None
                &&& chosen@.len() == graph.nodes@.len()
                &&& forall|n: int|
                    0 <= n < chosen@.len() ==> implementation(
                        registry.deep_view(),
                        graph.deep_view(),
                        version,
                        n,
                    ) == Some(#[trigger] chosen@[n] as int)
            },
            Err(n) => {
                &&& n < graph.nodes@.len()
                &&& first_unimplemented(
                    registry.deep_view(),
                    graph.deep_view(),
                    version,
                    graph.nodes@.len() as int,
                ) == Some(n as int)
            },
        },
{
    let ghost g = graph.deep_view();
    let ghost entries = registry.deep_view();
    let mut chosen: Vec<usize> = Vec::new();
    let mut n: usize = 0;
    while n < graph.nodes.len()
        invariant
            n <= graph.nodes.len(),
            g == graph.deep_view(),
            g.wf(),
            entries == registry.deep_view(),
            first_unimplemented(entries, g, version, n as int) is None,
            chosen@.len() == n,
            forall|j: int|
                0 <= j < n ==> implementation(entries, g, version, j) == Some(
                    #[trigger] chosen@[j] as int,
                ),
        decreases graph.nodes.len() - n,
    {
        proof {
            assert(g.nodes[n as int] == graph.nodes@[n as int].deep_view());
        }
        let node = &graph.nodes[n];
        proof {
            assert forall|k: int| 0 <= k < node.inputs@.len() implies node.inputs@[k]
                < graph.tensors@.len() by {
                assert(g.available(g.input_at(n as int, k), n as int));
            }
        }
        match registry.select(&node.op_type, version, &graph.tensors, &node.inputs) {
            Some(e) => {
                chosen.push(e);
            },
            None => {
                proof {
                    assert(first_unimplemented(entries, g, version, n + 1) == Some(n as int));
                    first_unimplemented_stays(entries, g, version, n + 1, g.nodes.len() as int);
                }
                return Err(n);
            },
        }
        n = n + 1;
    }
    Ok(chosen)
}

/// Allots a buffer to every tensor that the plan touches, or finds the first
/// such tensor that cannot have one.
fn allot_buffers(graph: &Graph) -> (r: Result<(Vec<Buffer>, Vec<Option<usize>>), CompileError>)
    requires
        graph.wf(),
    ensures
        match r {
            Ok((buffers, buffer_of)) => {
                let g = graph.deep_view();
                &&& first_fault(g, g.tensors.len() as int) is None
                &&& buffers@ == buffers_upto(g, g.tensors.len() as int)
                &&& buffer_of@ == Seq::new(g.tensors.len(), |t: int| slot(g, t))
            },
            Err(e) => {
                let g = graph.deep_view();
                &&& first_fault(g, g.tensors.len() as int) matches Some(t) && fault(g, t) == Some(
                    e.deep_view(),
                )
            },
        },
{
    let ghost g = graph.deep_view();
    let flags = used_tensors(graph);
    let mut buffers: Vec<Buffer> = Vec::new();
    let mut buffer_of: Vec<Option<usize>> = Vec::new();
    let mut t: usize = 0;
    while t < graph.tensors.len()
        invariant
            t <= graph.tensors.len(),
            g == graph.deep_view(),
            g.wf(),
            flags@.len() == graph.tensors@.len(),
            forall|j: usize| j < flags@.len() ==> flags@[j as int] == used(g, j),
            first_fault(g, t as int) is None,
            buffers@ == buffers_upto(g, t as int),
            buffer_of@.len() == t,
            forall|j: int| 0 <= j < t ==> #[trigger] buffer_of@[j] == slot(g, j),
        decreases graph.tensors.len() - t,
    {
        proof {
            buffers_are_few(g, t as int);
            assert(g.tensors[t as int] == graph.tensors@[t as int].deep_view());
            assert(g.names[t as int] == graph.names@[t as int]@);
        }
        if flags[t] {
            let tensor = &graph.tensors[t];
            let refused: Option<CompileError> = match &tensor.shape {
                None => Some(CompileError::UnknownShape(graph.names[t].clone())),
                Some(shape) => match shape.buffer_bytes() {
                    None => Some(CompileError::BufferTooLarge(graph.names[t].clone())),
                    Some(size) => {
                        let filled = match tensor.kind {
                            TensorKind::Initializer => tensor.data.len() as u64 == size,
                            _ => true,
                        };
                        if filled {
                            buffer_of.push(Some(buffers.len()));
                            buffers.push(Buffer { tensor: t, size });
                            None
                        } else {
                            Some(CompileError::InitializerSize(graph.names[t].clone()))
                        }
                    },
                },
            };
            match refused {
                Some(e) => {
                    proof {
                        assert(fault(g, t as int) == Some(e.deep_view()));
                        assert(first_fault(g, t + 1) == Some(t as int));
                        first_fault_stays(g, t + 1, g.tensors.len() as int);
                    }
                    return Err(e);
                },
                None => {},
            }
        } else {
            buffer_of.push(None);
        }
        t = t + 1;
    }
    proof {
        assert(buffer_of@ =~= Seq::new(g.tensors.len(), |t: int| slot(g, t)));
    }
    Ok((buffers, buffer_of))
}

/// The buffers of the tensors, in order.
pub fn slots_of(graph: &Graph, buffer_of: &Vec<Option<usize>>, ids: &Vec<usize>) -> (found: Vec<usize>)
    requires
        buffer_of@ == Seq::new(
            graph.deep_view().tensors.len(),
            |t: int| slot(graph.deep_view(), t),
        ),
        forall|k: int|
            0 <= k < ids@.len() ==> ids@[k] < buffer_of@.len() && used(
                graph.deep_view(),
                #[trigger] ids@[k],
            ),
    ensures
        found@ == slots(graph.deep_view(), ids@),
{
    let ghost g = graph.deep_view();
    let mut found: Vec<usize> = Vec::new();
    let mut k: usize = 0;
    while k < ids.len()
        invariant
            k <= ids.len(),
            g == graph.deep_view(),
            buffer_of@ == Seq::new(g.tensors.len(), |t: int| slot(g, t)),
            forall|j: int|
                0 <= j < ids@.len() ==> ids@[j] < buffer_of@.len() && used(g, #[trigger] ids@[j]),
            found@.len() == k,
            forall|j: int|
                0 <= j < k ==> #[trigger] found@[j] == buffers_upto(g, ids@[j] as int).len() as usize,
        decreases ids.len() - k,
    {
        proof {
            assert(used(g, ids@[k as int]));
            assert(buffer_of@[ids@[k as int] as int] == slot(g, ids@[k as int] as int));
        }
        match buffer_of[ids[k]] {
            Some(b) => {
                found.push(b);
            },
            None => {
                proof {
                    assert(false);
                }
            },
        }
        k = k + 1;
    }
    proof {
        assert(found@ =~= slots(g, ids@));
    }
    found
}

impl GpuModel {
    /// Lowers a graph to a plan under an operator-set version.
    ///
    /// Every node gets the first registered implementation of its operator
    /// whose range holds the version and that accepts the element types and
    /// the numbers of dimensions of the tensors that the node reads, and
    /// every tensor that the plan touches
    /// gets a buffer of its own, of the element size times the number of
    /// elements. The dispatches stand in the order of the graph's nodes, so
    /// each stands after those that write what it reads. A node without an
    /// implementation, and a touched tensor with an open shape, a byte
    /// length beyond 64 bits or, for an initializer, bytes that do not fill
    /// its shape, are refused.
    pub fn from(graph: Graph, registry: &OperatorRegistry, opset_version: i64) -> (r: Result<
        GpuModel,
        GpuError,
    >)
        requires
            graph.wf(),
        ensures
            match r {
                Ok(model) => compile(graph.deep_view(), registry.deep_view(), opset_version) == Ok::<
                    GpuModelView,
                    CompileErrorView,
                >(model.deep_view()) && model.wf(),
                Err(e) => e matches GpuError::CompileError(fault) && compile(
                    graph.deep_view(),
                    registry.deep_view(),
                    opset_version,
                ) == Err::<GpuModelView, CompileErrorView>(fault.deep_view()),
            },
    {
        let ghost g = graph.deep_view();
        let ghost entries = registry.deep_view();
        let chosen = match select_operators(&graph, registry, opset_version) {
            Ok(chosen) => chosen,
            Err(n) => {
                proof {
                    assert(g.nodes[n as int] == graph.nodes@[n as int].deep_view());
                }
                return Err(
                    GpuError::CompileError(
                        CompileError::UnimplementedOp {
                            op: graph.nodes[n].op_type.clone(),
                            opset_version,
                        },
                    ),
                );
            },
        };
        let (buffers, buffer_of) = match allot_buffers(&graph) {
            Ok(pair) => pair,
            Err(e) => {
                return Err(GpuError::CompileError(e));
            },
        };
        let size = graph.tensors.len();
        proof {
            assert(g.tensors.len() == size);
        }
        let mut dispatches: Vec<Dispatch> = Vec::new();
        let mut n: usize = 0;
        while n < graph.nodes.len()
            invariant
                n <= graph.nodes.len(),
                g == graph.deep_view(),
                g.wf(),
                entries == registry.deep_view(),
                first_fault(g, g.tensors.len() as int) is None,
                buffer_of@ == Seq::new(g.tensors.len(), |t: int| slot(g, t)),
                chosen@.len() == graph.nodes@.len(),
                forall|j: int|
                    0 <= j < chosen@.len() ==> implementation(entries, g, opset_version, j) == Some(
                        #[trigger] chosen@[j] as int,
                    ),
                dispatches@.len() == n,
                forall|j: int|
                    0 <= j < n ==> (#[trigger] dispatches@[j]).deep_view() == dispatch_of(
                        entries,
                        g,
                        opset_version,
                        j,
                    ),
            decreases graph.nodes.len() - n,
        {
            let node = &graph.nodes[n];
            proof {
                assert(node.deep_view() == g.nodes[n as int]);
                assert forall|k: int| 0 <= k < node.inputs@.len() implies node.inputs@[k]
                    < buffer_of@.len() && used(g, #[trigger] node.inputs@[k]) by {
                    assert(g.available(g.input_at(n as int, k), n as int));
                    assert(touches(g, n as int, node.inputs@[k]));
                }
                assert forall|k: int| 0 <= k < node.outputs@.len() implies node.outputs@[k]
                    < buffer_of@.len() && used(g, #[trigger] node.outputs@[k]) by {
                    assert(g.output_at(n as int, k) == node.outputs@[k]);
                    assert(touches(g, n as int, node.outputs@[k]));
                }
            }
            let reads = slots_of(&graph, &buffer_of, &node.inputs);
            let writes = slots_of(&graph, &buffer_of, &node.outputs);
            let mut elements: u64 = 0;
            if node.outputs.len() > 0 {
                let first = node.outputs[0];
                proof {
                    assert(used(g, node.outputs@[0]));
                    no_fault_below(g, g.tensors.len() as int, first as int);
                    assert(g.tensors[first as int] == graph.tensors@[first as int].deep_view());
                    let shape = g.tensors[first as int].shape.unwrap();
                    assert(volume(shape.dims) <= volume(shape.dims) * shape.data_type.spec_stride())
                        by (nonlinear_arith)
                        requires
                            shape.data_type.spec_stride() >= 1,
                    ;
                }
                match &graph.tensors[first].shape {
                    Some(shape) => match shape.element_count() {
                        Some(count) => {
                            elements = count;
                        },
                        None => {
                            proof {
                                assert(false);
                            }
                        },
                    },
                    None => {
                        proof {
                            assert(false);
                        }
                    },
                }
            }
            dispatches.push(Dispatch { node: n, operator: chosen[n], reads, writes, elements });
            n = n + 1;
        }
        let model = GpuModel { opset_version, graph, buffers, buffer_of, dispatches };
        proof {
            assert(model.deep_view().dispatches =~= Seq::new(
                g.nodes.len(),
                |n: int| dispatch_of(entries, g, opset_version, n),
            ));
        }
        Ok(model)
    }
}

} // verus!
