//! The internal graph: tensors known by number, and nodes in an order in
//! which every producer stands before its consumers.

use vstd::prelude::*;
use crate::model::{
    copy_attributes, copy_values, Attribute, AttributeView, Shape, ShapeView,
};
use crate::names::{all_distinct, Name};

verus! {

/// Where a tensor's contents come from.
#[derive(Debug, Clone, Copy, PartialEq, Eq, Structural)]
pub enum TensorKind {
    /// Supplied by the caller at every inference call.
    Input,
    /// A constant that the model carries.
    Initializer,
    /// Written by a node.
    Computed,
}

/// A tensor of the graph. Its number is its position in the graph's table,
/// and its name stands at the same position in the table of names.
#[derive(Debug, Clone)]
pub struct Tensor {
    pub kind: TensorKind,
    pub shape: Option<Shape>,
    /// The bytes of an initializer; empty for every other tensor.
    pub data: Vec<u8>,
}

/// A tensor as a mathematical value.
pub struct TensorView {
    pub kind: TensorKind,
    pub shape: Option<ShapeView>,
    pub data: Seq<u8>,
}

impl DeepView for Tensor {
    type V = TensorView;

    open spec fn deep_view(&self) -> TensorView {
        TensorView { kind: self.kind, shape: self.shape.deep_view(), data: self.data@ }
    }
}

/// A node of the graph: an operation with the numbers of the tensors that it
/// reads and writes, in order.
#[derive(Debug, Clone)]
pub struct Node {
    /// The position at which the model declares this node.
    pub id: usize,
    pub name: String,
    pub op_type: String,
    pub attributes: Vec<Attribute>,
    pub inputs: Vec<usize>,
    pub outputs: Vec<usize>,
}

/// A node as a mathematical value.
pub struct NodeView {
    pub id: usize,
    pub name: Name,
    pub op_type: Name,
    pub attributes: Seq<AttributeView>,
    pub inputs: Seq<usize>,
    pub outputs: Seq<usize>,
}

impl DeepView for Node {
    type V = NodeView;

    open spec fn deep_view(&self) -> NodeView {
        NodeView {
            id: self.id,
            name: self.name@,
            op_type: self.op_type@,
            attributes: self.attributes.deep_view(),
            inputs: self.inputs@,
            outputs: self.outputs@,
        }
    }
}

impl Node {
    /// A copy of this node.
    pub fn duplicate(&self) -> (copy: Node)
        ensures
            copy.deep_view() == self.deep_view(),
    {
        Node {
            id: self.id,
            name: self.name.clone(),
            op_type: self.op_type.clone(),
            attributes: copy_attributes(&self.attributes),
            inputs: copy_values(&self.inputs),
            outputs: copy_values(&self.outputs),
        }
    }
}

/// A graph: the table of tensors with their names, the nodes, and the
/// tensors that are to be computed.
#[derive(Debug, Clone)]
pub struct Graph {
    pub names: Vec<String>,
    pub tensors: Vec<Tensor>,
    pub nodes: Vec<Node>,
    pub outputs: Vec<usize>,
}

/// A graph as a mathematical value.
pub struct GraphView {
    pub names: Seq<Name>,
    pub tensors: Seq<TensorView>,
    pub nodes: Seq<NodeView>,
    pub outputs: Seq<usize>,
}

impl DeepView for Graph {
    type V = GraphView;

    open spec fn deep_view(&self) -> GraphView {
        GraphView {
            names: self.names.deep_view(),
            tensors: self.tensors.deep_view(),
            nodes: self.nodes.deep_view(),
            outputs: self.outputs@,
        }
    }
}

impl GraphView {
    /// The tensor that node `n` reads at position `k`.
    pub open spec fn input_at(self, n: int, k: int) -> usize {
        self.nodes[n].inputs[k]
    }

    /// The tensor that node `n` writes at position `k`.
    pub open spec fn output_at(self, n: int, k: int) -> usize {
        self.nodes[n].outputs[k]
    }

    /// Node `n` writes tensor `t`.
    pub open spec fn produces(self, n: int, t: usize) -> bool {
        0 <= n < self.nodes.len() && self.nodes[n].outputs.contains(t)
    }

    /// Node `n` reads tensor `t`.
    pub open spec fn consumes(self, n: int, t: usize) -> bool {
        0 <= n < self.nodes.len() && self.nodes[n].inputs.contains(t)
    }

    /// Some node before position `n` writes tensor `t`.
    pub open spec fn produced_before(self, t: usize, n: int) -> bool {
        exists|m: int| 0 <= m < n && #[trigger] self.produces(m, t)
    }

    /// The tensor is known, and if it is computed, a node before position
    /// `n` writes it.
    pub open spec fn available(self, t: usize, n: int) -> bool {
        &&& t < self.tensors.len()
        &&& self.tensors[t as int].kind == TensorKind::Computed ==> self.produced_before(t, n)
    }

    /// The invariant of a graph: every tensor has one name and every name one
    /// tensor; what a node reads is an input, an initializer or written by an
    /// earlier node; what a node writes is a computed tensor that no other
    /// node writes and that it writes once; and every requested output is an
    /// input, an initializer or written by some node.
    pub open spec fn wf(self) -> bool {
        &&& self.names.len() == self.tensors.len()
        &&& all_distinct(self.names)
        &&& forall|n: int, k: int|
            0 <= n < self.nodes.len() && 0 <= k < self.nodes[n].inputs.len() ==> self.available(
                #[trigger] self.input_at(n, k),
                n,
            )
        &&& forall|n: int, k: int|
            0 <= n < self.nodes.len() && 0 <= k < self.nodes[n].outputs.len() ==> {
                &&& (#[trigger] self.output_at(n, k)) < self.tensors.len()
                &&& self.tensors[self.output_at(n, k) as int].kind == TensorKind::Computed
            }
        &&& forall|n: int, k: int, m: int, j: int|
            0 <= n < self.nodes.len() && 0 <= k < self.nodes[n].outputs.len() && 0 <= m
                < self.nodes.len() && 0 <= j < self.nodes[m].outputs.len() && #[trigger] self.output_at(
                n,
                k,
            ) == #[trigger] self.output_at(m, j) ==> n == m && k == j
        &&& forall|k: int|
            0 <= k < self.outputs.len() ==> self.available(
                #[trigger] self.outputs[k],
                self.nodes.len() as int,
            )
    }

    /// Node `n` writes a tensor that node `m` reads.
    pub open spec fn feeds(self, n: int, m: int) -> bool {
        exists|t: usize| self.produces(n, t) && #[trigger] self.consumes(m, t)
    }

    /// Node `n` writes a requested output.
    pub open spec fn yields_output(self, n: int) -> bool {
        exists|t: usize| #[trigger] self.produces(n, t) && self.outputs.contains(t)
    }

    /// Node `n` is a transitive producer of a requested output: it writes one,
    /// or it writes what a later transitive producer reads.
    pub open spec fn needed(self, n: int) -> bool
        decreases self.nodes.len() - n,
    {
        &&& 0 <= n < self.nodes.len()
        &&& (self.yields_output(n) || exists|m: int|
            n < m < self.nodes.len() && #[trigger] self.feeds(n, m) && self.needed(m))
    }

    /// The positions of the needed nodes among the first `n`, in order.
    pub open spec fn kept_ids(self, n: int) -> Seq<int>
        decreases n,
    {
        if n <= 0 {
            Seq::empty()
        } else if self.needed(n - 1) {
            self.kept_ids(n - 1).push(n - 1)
        } else {
            self.kept_ids(n - 1)
        }
    }

    /// The needed nodes among the first `n`, in order.
    pub open spec fn kept(self, n: int) -> Seq<NodeView> {
        let ids = self.kept_ids(n);
        Seq::new(ids.len(), |p: int| self.nodes[ids[p]])
    }

    /// The graph without the nodes that no requested output depends on.
    pub open spec fn pruned(self) -> GraphView {
        GraphView {
            names: self.names,
            tensors: self.tensors,
            nodes: self.kept(self.nodes.len() as int),
            outputs: self.outputs,
        }
    }
}

impl Graph {
    /// The invariant of a graph, see [`GraphView::wf`].
    pub open spec fn wf(&self) -> bool {
        self.deep_view().wf()
    }
}

} // verus!
