//! Building the graph from a model: the table of tensors, the wiring of the
//! nodes by name, and an order of the nodes in which producers come first.

use vstd::prelude::*;
use crate::error::{DataTypeError, IrError, IrErrorView, SessionErrorView};
use crate::graph::{GraphView, Node, NodeView, Tensor, TensorKind, TensorView};
use crate::model::{
    copy_attributes, copy_values, to_fixed_shape, ModelDescription, ModelView, ScalarType, Shape,
    ShapeView, ValueInfo, ValueInfoView,
};
use crate::optimizer::{needed_nodes, wanted};
use crate::marks::{all_set, set_all, unset};
use crate::names::{
    all_distinct, distinct, distinct_is_distinct, find_name, lookup, lookup_finds_first,
    lookup_in_distinct, lookup_in_prefix, Name,
};

verus! {

/// The names of the model's initializers, in order.
pub open spec fn initializer_names(m: ModelView) -> Seq<Name> {
    Seq::new(m.initializers.len(), |k: int| m.initializers[k].name)
}

/// The names of declared tensors, in order.
pub open spec fn declared_names(infos: Seq<ValueInfoView>) -> Seq<Name> {
    Seq::new(infos.len(), |k: int| infos[k].name)
}

/// The names that the first `n` nodes write, in order.
pub open spec fn written_names(m: ModelView, n: int) -> Seq<Name>
    decreases n,
{
    if n <= 0 {
        Seq::empty()
    } else {
        written_names(m, n - 1) + m.nodes[n - 1].outputs
    }
}

/// The names of the tensors that no node writes: the initializers, then the
/// declared inputs that are not initializers, each once.
pub open spec fn given_names(m: ModelView) -> Seq<Name> {
    distinct(initializer_names(m) + declared_names(m.inputs))
}

/// The table of names: position `t` holds the name of tensor `t`.
pub open spec fn table(m: ModelView) -> Seq<Name> {
    given_names(m) + written_names(m, m.nodes.len() as int)
}

/// The first position below `n` whose name also stands at an earlier one.
pub open spec fn first_repeat(names: Seq<Name>, n: int) -> Option<int>
    decreases n,
{
    if n <= 0 {
        None
    } else {
        match first_repeat(names, n - 1) {
            Some(p) => Some(p),
            None => if lookup(names.take(n - 1), names[n - 1]) is Some {
                Some(n - 1)
            } else {
                None
            },
        }
    }
}

/// The first position below `n` in `names` whose name the table lacks.
pub open spec fn first_absent(table: Seq<Name>, names: Seq<Name>, n: int) -> Option<int>
    decreases n,
{
    if n <= 0 {
        None
    } else {
        match first_absent(table, names, n - 1) {
            Some(k) => Some(k),
            None => if lookup(table, names[n - 1]) is None {
                Some(n - 1)
            } else {
                None
            },
        }
    }
}

/// The first node below `n` that reads a name which the table lacks.
pub open spec fn first_dangling(m: ModelView, n: int) -> Option<int>
    decreases n,
{
    if n <= 0 {
        None
    } else {
        match first_dangling(m, n - 1) {
            Some(k) => Some(k),
            None => if first_absent(
                table(m),
                m.nodes[n - 1].inputs,
                m.nodes[n - 1].inputs.len() as int,
            ) is Some {
                Some(n - 1)
            } else {
                None
            },
        }
    }
}

/// The declared shape of a computed tensor: that of the first declaration of
/// its name among the outputs and then the intermediate values, if any.
pub open spec fn declared_shape(m: ModelView, name: Name) -> Option<ShapeView> {
    let infos = m.outputs + m.value_info;
    match lookup(declared_names(infos), name) {
        Some(k) => infos[k].shape,
        None => None,
    }
}

/// The tensor that a name stands for: an initializer if one has that name,
/// else a declared input, else a computed tensor.
pub open spec fn tensor_of(m: ModelView, name: Name) -> TensorView {
    match lookup(initializer_names(m), name) {
        Some(k) => TensorView {
            kind: TensorKind::Initializer,
            shape: m.initializers[k].shape(),
            data: m.initializers[k].data,
        },
        None => match lookup(declared_names(m.inputs), name) {
            Some(k) => TensorView {
                kind: TensorKind::Input,
                shape: m.inputs[k].shape,
                data: Seq::empty(),
            },
            None => TensorView {
                kind: TensorKind::Computed,
                shape: declared_shape(m, name),
                data: Seq::empty(),
            },
        },
    }
}

/// The tensors of the table, in order.
pub open spec fn tensors_of(m: ModelView) -> Seq<TensorView> {
    Seq::new(table(m).len(), |t: int| tensor_of(m, table(m)[t]))
}

/// The numbers of the tensors that the names stand for.
pub open spec fn positions(table: Seq<Name>, names: Seq<Name>) -> Seq<usize> {
    Seq::new(names.len(), |k: int| lookup(table, names[k]).unwrap() as usize)
}

/// Node `n` of the model, wired by tensor number.
pub open spec fn wired(m: ModelView, n: int) -> NodeView {
    NodeView {
        id: n as usize,
        name: m.nodes[n].name,
        op_type: m.nodes[n].op_type,
        attributes: m.nodes[n].attributes,
        inputs: positions(table(m), m.nodes[n].inputs),
        outputs: positions(table(m), m.nodes[n].outputs),
    }
}

/// The nodes of the model in the order of their declaration, wired by tensor
/// number.
pub open spec fn wired_nodes(m: ModelView) -> Seq<NodeView> {
    Seq::new(m.nodes.len(), |n: int| wired(m, n))
}

/// Tensor `t` is written by one of the placed nodes.
pub open spec fn written_by(nodes: Seq<NodeView>, placed: Seq<int>, t: usize) -> bool {
    exists|p: int| 0 <= p < placed.len() && #[trigger] nodes[placed[p]].outputs.contains(t)
}

/// Node `n` can run once the placed nodes have run: each tensor that it reads
/// is given, or written by one of them.
pub open spec fn ready(
    tensors: Seq<TensorView>,
    nodes: Seq<NodeView>,
    placed: Seq<int>,
    n: int,
) -> bool {
    forall|k: int|
        0 <= k < nodes[n].inputs.len() ==> {
            let t = #[trigger] nodes[n].inputs[k];
            tensors[t as int].kind != TensorKind::Computed || written_by(nodes, placed, t)
        }
}

/// The first node below `n` that is not placed yet and can run.
pub open spec fn next_ready(
    tensors: Seq<TensorView>,
    nodes: Seq<NodeView>,
    placed: Seq<int>,
    n: int,
) -> Option<int>
    decreases n,
{
    if n <= 0 {
        None
    } else {
        match next_ready(tensors, nodes, placed, n - 1) {
            Some(k) => Some(k),
            None => if !placed.contains(n - 1) && ready(tensors, nodes, placed, n - 1) {
                Some(n - 1)
            } else {
                None
            },
        }
    }
}

/// The order in which the nodes run: again and again the first node that is
/// not placed yet and can run is placed, until none is left or none can run.
pub open spec fn schedule(tensors: Seq<TensorView>, nodes: Seq<NodeView>, placed: Seq<int>) -> Seq<
    int,
>
    decreases nodes.len() - placed.len(),
{
    if placed.len() >= nodes.len() {
        placed
    } else {
        match next_ready(tensors, nodes, placed, nodes.len() as int) {
            Some(n) => schedule(tensors, nodes, placed.push(n)),
            None => placed,
        }
    }
}

/// The names of the outputs that are to be computed: the requested ones, or
/// all that the model declares.
pub open spec fn output_names(m: ModelView, requested: Option<Seq<Name>>) -> Seq<Name> {
    match requested {
        Some(names) => names,
        None => declared_names(m.outputs),
    }
}

/// The graph of a model as it is wired, or what is wrong with the wiring.
///
/// A name that a node writes must be new: the first that is not is refused.
/// Then every name that a node reads must be in the table: the first node
/// that reads another is refused, with the first such name. Then every output
/// must be in the table: the first that is not is refused, as an invalid
/// output if it was requested and as a missing one if the model declares it.
/// Last, the nodes must admit an order in which producers come first.
pub open spec fn assembled(m: ModelView, requested: Option<Seq<Name>>) -> Result<
    GraphView,
    SessionErrorView,
> {
    let names = table(m);
    let outputs = output_names(m, requested);
    let nodes = wired_nodes(m);
    let tensors = tensors_of(m);
    let order = schedule(tensors, nodes, Seq::empty());
    match first_repeat(names, names.len() as int) {
        Some(p) => Err(SessionErrorView::IrError(IrErrorView::DuplicateTensor(names[p]))),
        None => match first_dangling(m, m.nodes.len() as int) {
            Some(n) => {
                let reads = m.nodes[n].inputs;
                let k = first_absent(names, reads, reads.len() as int).unwrap();
                Err(
                    SessionErrorView::IrError(
                        IrErrorView::InputNodeNotFound {
                            target_node_name: m.nodes[n].name,
                            input_name: reads[k],
                        },
                    ),
                )
            },
            None => match first_absent(names, outputs, outputs.len() as int) {
                Some(k) => if requested is Some {
                    Err(SessionErrorView::InvalidOutput(outputs[k]))
                } else {
                    Err(SessionErrorView::IrError(IrErrorView::OutputNodeNotFound(outputs[k])))
                },
                None => if order.len() < nodes.len() {
                    Err(SessionErrorView::IrError(IrErrorView::CyclicGraph))
                } else {
                    Ok(
                        GraphView {
                            names,
                            tensors,
                            nodes: Seq::new(order.len(), |a: int| nodes[order[a]]),
                            outputs: positions(names, outputs),
                        },
                    )
                },
            },
        },
    }
}

/// The code of the element type of the initializer of a name.
pub open spec fn code_of(m: ModelView, name: Name) -> i32 {
    m.initializers[lookup(initializer_names(m), name).unwrap()].data_type
}

/// Tensor `t` is an initializer that a requested output depends on, and its
/// element type is not supported.
pub open spec fn untyped(m: ModelView, g: GraphView, t: int) -> bool {
    &&& g.tensors[t].kind == TensorKind::Initializer
    &&& wanted(g, t as usize, 0)
    &&& ScalarType::spec_from_i32(code_of(m, g.names[t])) is None
}

/// The first tensor below `n` that is an initializer of an unsupported
/// element type on which a requested output depends.
pub open spec fn first_untyped(m: ModelView, g: GraphView, n: int) -> Option<int>
    decreases n,
{
    if n <= 0 {
        None
    } else {
        match first_untyped(m, g, n - 1) {
            Some(t) => Some(t),
            None => if untyped(m, g, n - 1) {
                Some(n - 1)
            } else {
                None
            },
        }
    }
}

/// The graph of a model, or what is wrong with the model: what is wrong
/// with its wiring, or else the code of the first initializer of an
/// unsupported element type that is a requested output or is read by a
/// node on which a requested output depends. An initializer that nothing
/// requested depends on may have any element type.
pub open spec fn build(m: ModelView, requested: Option<Seq<Name>>) -> Result<
    GraphView,
    SessionErrorView,
> {
    match assembled(m, requested) {
        Err(e) => Err(e),
        Ok(g) => match first_untyped(m, g, g.tensors.len() as int) {
            Some(t) => Err(
                SessionErrorView::IrError(
                    IrErrorView::Type(DataTypeError::NotSupported(code_of(m, g.names[t]))),
                ),
            ),
            None => Ok(g),
        },
    }
}

/// The first untyped tensor below `n` is the first below every later bound.
proof fn first_untyped_stays(m: ModelView, g: GraphView, n: int, later: int)
    requires
        0 <= n <= later,
        first_untyped(m, g, n) is Some,
    ensures
        first_untyped(m, g, later) == first_untyped(m, g, n),
    decreases later - n,
{
    if n < later {
        first_untyped_stays(m, g, n, later - 1);
    }
}

/// Whether a position repeats an earlier name depends only on the names up
/// to it.
proof fn first_repeat_of_prefix(a: Seq<Name>, b: Seq<Name>, n: int)
    requires
        0 <= n <= a.len(),
        n <= b.len(),
        a.take(n) == b.take(n),
    ensures
        first_repeat(a, n) == first_repeat(b, n),
    decreases n,
{
    if n > 0 {
        assert(a.take(n - 1) =~= a.take(n).take(n - 1));
        assert(b.take(n - 1) =~= b.take(n).take(n - 1));
        first_repeat_of_prefix(a, b, n - 1);
        assert(a[n - 1] == a.take(n)[n - 1]);
        assert(b[n - 1] == b.take(n)[n - 1]);
    }
}

/// The first repeat below `n` is the first repeat below every later bound.
proof fn first_repeat_stays(names: Seq<Name>, n: int, later: int)
    requires
        0 <= n <= later,
        first_repeat(names, n) is Some,
    ensures
        first_repeat(names, later) == first_repeat(names, n),
    decreases later - n,
{
    if n < later {
        first_repeat_stays(names, n, later - 1);
    }
}

/// Without a repeat, no name occurs twice.
pub proof fn no_repeat_is_distinct(names: Seq<Name>, n: int)
    requires
        0 <= n <= names.len(),
        first_repeat(names, n) is None,
    ensures
        crate::names::all_distinct(names.take(n)),
    decreases n,
{
    if n > 0 {
        no_repeat_is_distinct(names, n - 1);
        let front = names.take(n - 1);
        lookup_finds_first(front, names[n - 1]);
        assert(names.take(n) =~= front.push(names[n - 1]));
    }
}

/// The first absent name below `n` is the first below every later bound.
proof fn first_absent_stays(table: Seq<Name>, names: Seq<Name>, n: int, later: int)
    requires
        0 <= n <= later,
        first_absent(table, names, n) is Some,
    ensures
        first_absent(table, names, later) == first_absent(table, names, n),
    decreases later - n,
{
    if n < later {
        first_absent_stays(table, names, n, later - 1);
    }
}

/// The first dangling node below `n` is the first below every later bound.
proof fn first_dangling_stays(m: ModelView, n: int, later: int)
    requires
        0 <= n <= later,
        first_dangling(m, n) is Some,
    ensures
        first_dangling(m, later) == first_dangling(m, n),
    decreases later - n,
{
    if n < later {
        first_dangling_stays(m, n, later - 1);
    }
}

/// What node `n` writes at position `k` stands in the list of all written
/// names right after what the nodes before it write.
pub proof fn written_at(m: ModelView, n: int, k: int, bound: int)
    requires
        0 <= n < bound <= m.nodes.len(),
        0 <= k < m.nodes[n].outputs.len(),
    ensures
        written_names(m, n).len() + k < written_names(m, bound).len(),
        written_names(m, bound)[written_names(m, n).len() + k] == m.nodes[n].outputs[k],
    decreases bound,
{
    if n < bound - 1 {
        written_at(m, n, k, bound - 1);
    }
}

/// The names of the declared tensors.
fn names_of_values(infos: &Vec<ValueInfo>) -> (names: Vec<String>)
    ensures
        names.deep_view() == declared_names(infos.deep_view()),
{
    let mut names: Vec<String> = Vec::new();
    let mut i: usize = 0;
    while i < infos.len()
        invariant
            i <= infos.len(),
            names@.len() == i,
            forall|k: int| 0 <= k < i ==> names@[k]@ == infos@[k].name@,
        decreases infos.len() - i,
    {
        names.push(infos[i].name.clone());
        i = i + 1;
    }
    proof {
        assert(names.deep_view() =~= declared_names(infos.deep_view()));
    }
    names
}

/// The names of the model's initializers.
fn names_of_initializers(model: &ModelDescription) -> (names: Vec<String>)
    ensures
        names.deep_view() == initializer_names(model.deep_view()),
{
    let mut names: Vec<String> = Vec::new();
    let mut i: usize = 0;
    while i < model.initializers.len()
        invariant
            i <= model.initializers.len(),
            names@.len() == i,
            forall|k: int| 0 <= k < i ==> names@[k]@ == model.initializers@[k].name@,
        decreases model.initializers.len() - i,
    {
        names.push(model.initializers[i].name.clone());
        i = i + 1;
    }
    proof {
        assert(names.deep_view() =~= initializer_names(model.deep_view()));
    }
    names
}

/// Appends to `names` each of `more` that is not in it yet.
fn add_new_names(names: &mut Vec<String>, more: &Vec<String>)
    requires
        old(names).deep_view() == distinct(old(names).deep_view()),
    ensures
        final(names).deep_view() == distinct(old(names).deep_view() + more.deep_view()),
{
    let ghost start = names.deep_view();
    let ghost extra = more.deep_view();
    let mut i: usize = 0;
    proof {
        assert(start + extra.take(0) =~= start);
    }
    while i < more.len()
        invariant
            i <= more.len(),
            extra == more.deep_view(),
            names.deep_view() == distinct(start + extra.take(i as int)),
        decreases more.len() - i,
    {
        let ghost before = names.deep_view();
        let found = find_name(names, &more[i]);
        if found.is_none() {
            names.push(more[i].clone());
        }
        proof {
            let longer = start + extra.take(i + 1);
            assert(longer.drop_last() =~= start + extra.take(i as int));
            assert(longer.last() == extra[i as int]);
            if found is None {
                assert(names.deep_view() =~= before.push(extra[i as int]));
            }
        }
        i = i + 1;
    }
    proof {
        assert(extra.take(i as int) =~= extra);
    }
}

/// Builds the table of names, or finds the first name that a node writes
/// although it is defined already.
fn name_table(model: &ModelDescription) -> (r: Result<Vec<String>, String>)
    ensures
        match r {
            Ok(names) => {
                &&& names.deep_view() == table(model.deep_view())
                &&& first_repeat(names.deep_view(), names.deep_view().len() as int) is None
            },
            Err(name) => {
                let all = table(model.deep_view());
                &&& first_repeat(all, all.len() as int) is Some
                &&& name@ == all[first_repeat(all, all.len() as int).unwrap()]
            },
        },
{
    let ghost m = model.deep_view();
    let ghost all = table(m);
    let ghost given = given_names(m);
    let ghost count = m.nodes.len() as int;
    let mut names: Vec<String> = Vec::new();
    proof {
        assert(names.deep_view() =~= Seq::<Name>::empty());
        assert(names.deep_view() == distinct(names.deep_view()));
    }
    let first = names_of_initializers(model);
    add_new_names(&mut names, &first);
    let second = names_of_values(&model.inputs);
    proof {
        assert(Seq::<Name>::empty() + first.deep_view() =~= first.deep_view());
        distinct_twice(first.deep_view());
    }
    add_new_names(&mut names, &second);
    proof {
        distinct_of_sum(first.deep_view(), second.deep_view());
        assert(names.deep_view() == given);
        distinct_has_no_repeat(initializer_names(m) + declared_names(m.inputs));
    }
    let mut n: usize = 0;
    while n < model.nodes.len()
        invariant
            n <= model.nodes.len(),
            m == model.deep_view(),
            all == table(m),
            given == given_names(m),
            count == m.nodes.len(),
            names.deep_view() == given + written_names(m, n as int),
            first_repeat(names.deep_view(), names.deep_view().len() as int) is None,
        decreases model.nodes.len() - n,
    {
        let node = &model.nodes[n];
        let ghost writes = m.nodes[n as int].outputs;
        let mut k: usize = 0;
        proof {
            assert(node.outputs.deep_view() == writes);
            assert(writes.take(0) =~= Seq::<Name>::empty());
            assert(given + written_names(m, n as int) + writes.take(0) =~= given + written_names(
                m,
                n as int,
            ));
        }
        while k < node.outputs.len()
            invariant
                k <= node.outputs.len(),
                n < model.nodes.len(),
                m == model.deep_view(),
                all == table(m),
                given == given_names(m),
                count == m.nodes.len(),
                node.outputs.deep_view() == writes,
                writes == m.nodes[n as int].outputs,
                names.deep_view() == given + written_names(m, n as int) + writes.take(k as int),
                first_repeat(names.deep_view(), names.deep_view().len() as int) is None,
            decreases node.outputs.len() - k,
        {
            let ghost before = names.deep_view();
            let ghost at = before.len() as int;
            proof {
                written_at(m, n as int, k as int, count);
                assert(at == given.len() + written_names(m, n as int).len() + k);
                assert(all[at] == writes[k as int]);
                assert forall|j: int| 0 <= j < at implies all[j] == before[j] by {
                    if j >= given.len() {
                        if j >= given.len() + written_names(m, n as int).len() {
                            written_at(m, n as int, j - given.len() - written_names(m, n as int).len(), count);
                        } else {
                            written_prefix(m, n as int, count, j - given.len());
                        }
                    }
                }
                assert(all.take(at) =~= before);
            }
            let found = find_name(&names, &node.outputs[k]);
            if found.is_some() {
                proof {
                    assert(before.take(at) =~= before);
                    first_repeat_of_prefix(all, before, at);
                    assert(first_repeat(all, at + 1) == Some(at));
                    first_repeat_stays(all, at + 1, all.len() as int);
                }
                return Err(node.outputs[k].clone());
            }
            names.push(node.outputs[k].clone());
            proof {
                let after = names.deep_view();
                assert(after =~= before.push(writes[k as int]));
                assert(after =~= given + written_names(m, n as int) + writes.take(k + 1));
                assert(after.take(at) =~= before);
                assert(before.take(at) =~= before);
                first_repeat_of_prefix(after, before, at);
            }
            k = k + 1;
        }
        proof {
            assert(writes.take(k as int) =~= writes);
            assert(given + written_names(m, n as int) + writes =~= given + written_names(
                m,
                n + 1,
            ));
        }
        n = n + 1;
    }
    Ok(names)
}

/// A list of first occurrences has no repeat.
proof fn distinct_has_no_repeat(names: Seq<Name>)
    ensures
        first_repeat(distinct(names), distinct(names).len() as int) is None,
{
    crate::names::distinct_is_distinct(names);
    distinct_list_has_no_repeat(distinct(names), distinct(names).len() as int);
}

/// In a list without repetition, no position repeats an earlier name.
proof fn distinct_list_has_no_repeat(names: Seq<Name>, n: int)
    requires
        crate::names::all_distinct(names),
        0 <= n <= names.len(),
    ensures
        first_repeat(names, n) is None,
    decreases n,
{
    if n > 0 {
        distinct_list_has_no_repeat(names, n - 1);
        lookup_finds_first(names.take(n - 1), names[n - 1]);
    }
}

/// Keeping first occurrences of a list of first occurrences changes nothing.
proof fn distinct_twice(names: Seq<Name>)
    ensures
        distinct(distinct(names)) == distinct(names),
{
    crate::names::distinct_is_distinct(names);
    distinct_of_distinct(distinct(names));
}

/// A list without repetition is its own list of first occurrences.
proof fn distinct_of_distinct(names: Seq<Name>)
    requires
        crate::names::all_distinct(names),
    ensures
        distinct(names) == names,
    decreases names.len(),
{
    if names.len() > 0 {
        distinct_of_distinct(names.drop_last());
        lookup_finds_first(names.drop_last(), names.last());
        assert(names.drop_last().push(names.last()) =~= names);
    }
}

/// First occurrences can be taken of a front part first.
proof fn distinct_of_sum(a: Seq<Name>, b: Seq<Name>)
    ensures
        distinct(distinct(a) + b) == distinct(a + b),
    decreases b.len(),
{
    if b.len() == 0 {
        assert(distinct(a) + b =~= distinct(a));
        assert(a + b =~= a);
        distinct_twice(a);
    } else {
        distinct_of_sum(a, b.drop_last());
        assert((distinct(a) + b).drop_last() =~= distinct(a) + b.drop_last());
        assert((a + b).drop_last() =~= a + b.drop_last());
    }
}

/// What the first `n` nodes write is the front part of what the first
/// `bound` nodes write.
proof fn written_prefix(m: ModelView, n: int, bound: int, j: int)
    requires
        0 <= n <= bound <= m.nodes.len(),
        0 <= j < written_names(m, n).len(),
    ensures
        j < written_names(m, bound).len(),
        written_names(m, bound)[j] == written_names(m, n)[j],
    decreases bound,
{
    if n < bound {
        written_prefix(m, n, bound - 1, j);
    }
}

/// The first absent name is absent, and the names before it are not.
pub proof fn first_absent_is_first(table: Seq<Name>, names: Seq<Name>, n: int)
    requires
        0 <= n <= names.len(),
    ensures
        match first_absent(table, names, n) {
            Some(k) => 0 <= k < n && lookup(table, names[k]) is None && forall|j: int|
                0 <= j < k ==> lookup(table, #[trigger] names[j]) is Some,
            None => forall|j: int| 0 <= j < n ==> lookup(table, #[trigger] names[j]) is Some,
        },
    decreases n,
{
    if n > 0 {
        first_absent_is_first(table, names, n - 1);
    }
}

/// The numbers of the tensors that the names stand for, or the position of
/// the first name that the table lacks.
fn resolve(table: &Vec<String>, names: &Vec<String>) -> (r: Result<Vec<usize>, usize>)
    ensures
        match r {
            Ok(ids) => {
                &&& first_absent(table.deep_view(), names.deep_view(), names@.len() as int) is None
                &&& ids@ == positions(table.deep_view(), names.deep_view())
            },
            Err(k) => {
                &&& k < names@.len()
                &&& first_absent(table.deep_view(), names.deep_view(), names@.len() as int) == Some(
                    k as int,
                )
            },
        },
{
    let ghost tv = table.deep_view();
    let ghost nv = names.deep_view();
    let mut ids: Vec<usize> = Vec::new();
    let mut i: usize = 0;
    while i < names.len()
        invariant
            i <= names.len(),
            tv == table.deep_view(),
            nv == names.deep_view(),
            first_absent(tv, nv, i as int) is None,
            ids@.len() == i,
            forall|j: int| 0 <= j < i ==> lookup(tv, nv[j]) == Some(#[trigger] ids@[j] as int),
        decreases names.len() - i,
    {
        match find_name(table, &names[i]) {
            Some(t) => {
                ids.push(t);
            },
            None => {
                proof {
                    assert(first_absent(tv, nv, i + 1) == Some(i as int));
                    first_absent_stays(tv, nv, i + 1, nv.len() as int);
                }
                return Err(i);
            },
        }
        i = i + 1;
    }
    proof {
        assert(ids@ =~= positions(tv, nv));
    }
    Ok(ids)
}

/// Every name that a node writes is in the table.
proof fn written_names_are_known(m: ModelView, n: int, k: int)
    requires
        0 <= n < m.nodes.len(),
        0 <= k < m.nodes[n].outputs.len(),
    ensures
        lookup(table(m), m.nodes[n].outputs[k]) is Some,
{
    let at = given_names(m).len() + written_names(m, n).len() + k;
    written_at(m, n, k, m.nodes.len() as int);
    assert(table(m)[at] == m.nodes[n].outputs[k]);
    lookup_finds_first(table(m), m.nodes[n].outputs[k]);
}

/// Wires the nodes by tensor number, in the order of their declaration, or
/// finds the first node that reads a name which the table lacks.
fn wire_nodes(model: &ModelDescription, table: &Vec<String>) -> (r: Result<Vec<Node>, IrError>)
    requires
        table.deep_view() == self::table(model.deep_view()),
    ensures
        match r {
            Ok(nodes) => {
                &&& first_dangling(model.deep_view(), model.nodes@.len() as int) is None
                &&& nodes.deep_view() == wired_nodes(model.deep_view())
            },
            Err(e) => {
                let m = model.deep_view();
                &&& first_dangling(m, m.nodes.len() as int) matches Some(n) && {
                    let reads = m.nodes[n].inputs;
                    e.deep_view() == (IrErrorView::InputNodeNotFound {
                        target_node_name: m.nodes[n].name,
                        input_name: reads[first_absent(
                            self::table(m),
                            reads,
                            reads.len() as int,
                        ).unwrap()],
                    })
                }
            },
        },
{
    let ghost m = model.deep_view();
    let ghost tv = table.deep_view();
    let mut nodes: Vec<Node> = Vec::new();
    let mut n: usize = 0;
    while n < model.nodes.len()
        invariant
            n <= model.nodes.len(),
            m == model.deep_view(),
            tv == table.deep_view(),
            tv == self::table(m),
            first_dangling(m, n as int) is None,
            nodes@.len() == n,
            forall|j: int| 0 <= j < n ==> (#[trigger] nodes@[j]).deep_view() == wired(m, j),
        decreases model.nodes.len() - n,
    {
        let node = &model.nodes[n];
        proof {
            assert(node.deep_view() == m.nodes[n as int]);
        }
        let inputs = match resolve(table, &node.inputs) {
            Ok(ids) => ids,
            Err(k) => {
                proof {
                    first_absent_is_first(tv, m.nodes[n as int].inputs, m.nodes[n as int].inputs.len() as int);
                    assert(first_dangling(m, n + 1) == Some(n as int));
                    first_dangling_stays(m, n + 1, m.nodes.len() as int);
                }
                return Err(
                    IrError::InputNodeNotFound {
                        target_node_name: node.name.clone(),
                        input_name: node.inputs[k].clone(),
                    },
                );
            },
        };
        let outputs = match resolve(table, &node.outputs) {
            Ok(ids) => ids,
            Err(k) => {
                proof {
                    first_absent_is_first(tv, m.nodes[n as int].outputs, m.nodes[n as int].outputs.len() as int);
                    written_names_are_known(m, n as int, k as int);
                    assert(false);
                }
                Vec::new()
            },
        };
        nodes.push(
            Node {
                id: n,
                name: node.name.clone(),
                op_type: node.op_type.clone(),
                attributes: copy_attributes(&node.attributes),
                inputs,
                outputs,
            },
        );
        n = n + 1;
    }
    proof {
        assert(nodes.deep_view() =~= wired_nodes(m));
    }
    Ok(nodes)
}

/// A copy of a shape that may be left open.
fn copy_shape(shape: &Option<Shape>) -> (copy: Option<Shape>)
    ensures
        copy.deep_view() == shape.deep_view(),
{
    match shape {
        Some(s) => Some(s.duplicate()),
        None => None,
    }
}

/// Builds the tensors of the table.
fn make_tensors(model: &ModelDescription, table: &Vec<String>) -> (tensors: Vec<Tensor>)
    requires
        table.deep_view() == self::table(model.deep_view()),
    ensures
        tensors.deep_view() == tensors_of(model.deep_view()),
{
    let ghost m = model.deep_view();
    let ghost tv = table.deep_view();
    let constants = names_of_initializers(model);
    let inputs = names_of_values(&model.inputs);
    let outputs = names_of_values(&model.outputs);
    let values = names_of_values(&model.value_info);
    let mut tensors: Vec<Tensor> = Vec::new();
    let mut t: usize = 0;
    while t < table.len()
        invariant
            t <= table.len(),
            m == model.deep_view(),
            tv == table.deep_view(),
            tv == self::table(m),
            constants.deep_view() == initializer_names(m),
            inputs.deep_view() == declared_names(m.inputs),
            outputs.deep_view() == declared_names(m.outputs),
            values.deep_view() == declared_names(m.value_info),
            tensors@.len() == t,
            forall|j: int| 0 <= j < t ==> (#[trigger] tensors@[j]).deep_view() == tensor_of(m, tv[j]),
        decreases table.len() - t,
    {
        let name = &table[t];
        proof {
            assert(name@ == tv[t as int]);
        }
        let tensor = match find_name(&constants, name) {
            Some(k) => {
                proof {
                    lookup_finds_first(initializer_names(m), name@);
                }
                let c = &model.initializers[k];
                proof {
                    assert(c.deep_view() == m.initializers[k as int]);
                }
                Tensor {
                    kind: TensorKind::Initializer,
                    shape: to_fixed_shape(c.data_type, &c.dims),
                    data: copy_values(&c.data),
                }
            },
            None => match find_name(&inputs, name) {
                Some(k) => {
                    proof {
                        lookup_finds_first(declared_names(m.inputs), name@);
                        assert(model.inputs@[k as int].deep_view() == m.inputs[k as int]);
                    }
                    Tensor {
                        kind: TensorKind::Input,
                        shape: copy_shape(&model.inputs[k].shape),
                        data: Vec::new(),
                    }
                },
                None => {
                    proof {
                        let infos = m.outputs + m.value_info;
                        assert(declared_names(infos) =~= declared_names(m.outputs) + declared_names(
                            m.value_info,
                        ));
                        lookup_in_prefix(
                            declared_names(m.outputs),
                            declared_names(m.value_info),
                            name@,
                        );
                        lookup_finds_first(declared_names(m.outputs), name@);
                        lookup_finds_first(declared_names(m.value_info), name@);
                    }
                    let shape = match find_name(&outputs, name) {
                        Some(k) => {
                            proof {
                                assert(model.outputs@[k as int].deep_view() == m.outputs[k as int]);
                            }
                            copy_shape(&model.outputs[k].shape)
                        },
                        None => match find_name(&values, name) {
                            Some(k) => {
                                proof {
                                    assert(model.value_info@[k as int].deep_view()
                                        == m.value_info[k as int]);
                                }
                                copy_shape(&model.value_info[k].shape)
                            },
                            None => None,
                        },
                    };
                    Tensor { kind: TensorKind::Computed, shape, data: Vec::new() }
                },
            },
        };
        tensors.push(tensor);
        t = t + 1;
    }
    proof {
        assert(tensors.deep_view() =~= tensors_of(m));
    }
    tensors
}

/// Node numbers as mathematical integers.
pub open spec fn as_ints(ids: Seq<usize>) -> Seq<int> {
    Seq::new(ids.len(), |i: int| ids[i] as int)
}

/// The next node to place is not placed yet and can run, and no node before
/// it is both.
pub proof fn next_ready_is_first(
    tensors: Seq<TensorView>,
    nodes: Seq<NodeView>,
    placed: Seq<int>,
    n: int,
)
    requires
        0 <= n,
    ensures
        match next_ready(tensors, nodes, placed, n) {
            Some(k) => 0 <= k < n && !placed.contains(k) && ready(tensors, nodes, placed, k)
                && forall|j: int|
                0 <= j < k ==> placed.contains(j) || !ready(tensors, nodes, placed, j),
            None => forall|j: int|
                0 <= j < n ==> placed.contains(j) || !ready(tensors, nodes, placed, j),
        },
    decreases n,
{
    if n > 0 {
        next_ready_is_first(tensors, nodes, placed, n - 1);
    }
}

/// The tensor numbers of the nodes are numbers of the table.
pub open spec fn wired_in_range(tensors: Seq<TensorView>, nodes: Seq<NodeView>) -> bool {
    &&& forall|n: int, k: int|
        0 <= n < nodes.len() && 0 <= k < nodes[n].inputs.len() ==> #[trigger] nodes[n].inputs[k]
            < tensors.len()
    &&& forall|n: int, k: int|
        0 <= n < nodes.len() && 0 <= k < nodes[n].outputs.len() ==> #[trigger] nodes[n].outputs[k]
            < tensors.len()
}

/// Finds the first node that is not placed yet and can run.
fn find_ready(nodes: &Vec<Node>, placed: &Vec<bool>, available: &Vec<bool>) -> (found: Option<
    usize,
>)
    requires
        placed@.len() == nodes@.len(),
        forall|n: int, k: int|
            0 <= n < nodes@.len() && 0 <= k < nodes@[n].inputs@.len() ==> #[trigger] nodes@[n].inputs@[k]
                < available@.len(),
    ensures
        match found {
            Some(n) => n < nodes@.len() && !placed@[n as int] && (forall|k: int|
                0 <= k < nodes@[n as int].inputs@.len() ==> available@[#[trigger] nodes@[n as int].inputs@[k] as int])
                && forall|j: int|
                0 <= j < n ==> placed@[j] || exists|k: int|
                    0 <= k < nodes@[j].inputs@.len() && !available@[#[trigger] nodes@[j].inputs@[k] as int],
            None => forall|j: int|
                0 <= j < nodes@.len() ==> placed@[j] || exists|k: int|
                    0 <= k < nodes@[j].inputs@.len() && !available@[#[trigger] nodes@[j].inputs@[k] as int],
        },
{
    let mut n: usize = 0;
    while n < nodes.len()
        invariant
            n <= nodes.len(),
            placed@.len() == nodes@.len(),
            forall|n: int, k: int|
                0 <= n < nodes@.len() && 0 <= k < nodes@[n].inputs@.len() ==> #[trigger] nodes@[n].inputs@[k]
                    < available@.len(),
            forall|j: int|
                0 <= j < n ==> placed@[j] || exists|k: int|
                    0 <= k < nodes@[j].inputs@.len() && !available@[#[trigger] nodes@[j].inputs@[k] as int],
        decreases nodes.len() - n,
    {
        if !placed[n] {
            let node = &nodes[n];
            if all_set(available, &node.inputs) {
                return Some(n);
            }
        }
        n = n + 1;
    }
    None
}

/// Orders the nodes so that producers come first: the order holds every
/// node, or stops where the nodes that are left wait for one another.
fn order_nodes(tensors: &Vec<Tensor>, nodes: &Vec<Node>) -> (order: Vec<usize>)
    requires
        wired_in_range(tensors.deep_view(), nodes.deep_view()),
    ensures
        as_ints(order@) == schedule(tensors.deep_view(), nodes.deep_view(), Seq::empty()),
        order@.len() <= nodes@.len(),
{
    let ghost tv = tensors.deep_view();
    let ghost nv = nodes.deep_view();
    let mut available: Vec<bool> = Vec::new();
    let mut t: usize = 0;
    while t < tensors.len()
        invariant
            t <= tensors.len(),
            available@.len() == t,
            forall|j: int|
                0 <= j < t ==> available@[j] == (tensors@[j].kind != TensorKind::Computed),
        decreases tensors.len() - t,
    {
        let given = match tensors[t].kind {
            TensorKind::Computed => false,
            _ => true,
        };
        available.push(given);
        t = t + 1;
    }
    let mut placed = unset(nodes.len());
    let mut order: Vec<usize> = Vec::new();
    proof {
        assert(as_ints(order@) =~= Seq::<int>::empty());
    }
    while order.len() < nodes.len()
        invariant
            tv == tensors.deep_view(),
            nv == nodes.deep_view(),
            wired_in_range(tv, nv),
            order@.len() <= nodes@.len(),
            available@.len() == tensors@.len(),
            placed@.len() == nodes@.len(),
            schedule(tv, nv, as_ints(order@)) == schedule(tv, nv, Seq::empty()),
            forall|t: usize|
                t < available@.len() ==> (available@[t as int] <==> tv[t as int].kind
                    != TensorKind::Computed || written_by(nv, as_ints(order@), t)),
            forall|n: int| 0 <= n < placed@.len() ==> (placed@[n] <==> as_ints(order@).contains(n)),
        decreases nodes.len() - order.len(),
    {
        let ghost before = as_ints(order@);
        proof {
            assert forall|n: int, k: int|
                0 <= n < nodes@.len() && 0 <= k < nodes@[n].inputs@.len() implies #[trigger] nodes@[n].inputs@[k]
                < available@.len() by {
                assert(nv[n].inputs[k] == nodes@[n].inputs@[k]);
            }
            assert forall|j: int| 0 <= j < nodes@.len() implies (ready(tv, nv, before, j) <==> forall|
                k: int,
            |
                0 <= k < nodes@[j].inputs@.len() ==> available@[#[trigger] nodes@[j].inputs@[k] as int]) by {
                assert(nv[j].inputs == nodes@[j].inputs@);
                if ready(tv, nv, before, j) {
                    assert forall|k: int| 0 <= k < nodes@[j].inputs@.len() implies available@[#[trigger] nodes@[j].inputs@[k] as int] by {
                        let t = nv[j].inputs[k];
                        assert(t < available@.len());
                    }
                }
                if forall|k: int|
                    0 <= k < nodes@[j].inputs@.len() ==> available@[#[trigger] nodes@[j].inputs@[k] as int] {
                    assert forall|k: int| 0 <= k < nv[j].inputs.len() implies {
                        let t = #[trigger] nv[j].inputs[k];
                        tv[t as int].kind != TensorKind::Computed || written_by(nv, before, t)
                    } by {
                        let t = nodes@[j].inputs@[k];
                        assert(available@[t as int]);
                    }
                }
            }
            next_ready_is_first(tv, nv, before, nv.len() as int);
        }
        match find_ready(nodes, &placed, &available) {
            Some(n) => {
                proof {
                    assert(ready(tv, nv, before, n as int));
                    assert(!before.contains(n as int));
                    match next_ready(tv, nv, before, nv.len() as int) {
                        Some(k) => {
                            if k < n {
                                assert(placed@[k] || !ready(tv, nv, before, k));
                            }
                            assert(k == n);
                        },
                        None => {
                            assert(false);
                        },
                    }
                    assert forall|k: int| 0 <= k < nodes@[n as int].outputs@.len() implies nodes@[n as int].outputs@[k]
                        < available@.len() by {
                        assert(nv[n as int].outputs[k] == nodes@[n as int].outputs@[k]);
                    }
                }
                set_all(&mut available, &nodes[n].outputs);
                placed.set(n, true);
                order.push(n);
                proof {
                    let after = as_ints(order@);
                    assert(after =~= before.push(n as int));
                    assert forall|t: usize| t < available@.len() implies (available@[t as int]
                        <==> tv[t as int].kind != TensorKind::Computed || written_by(
                        nv,
                        after,
                        t,
                    )) by {
                        if written_by(nv, before, t) {
                            let p = choose|p: int|
                                0 <= p < before.len() && #[trigger] nv[before[p]].outputs.contains(t);
                            assert(nv[after[p]].outputs.contains(t));
                        }
                        if nodes@[n as int].outputs@.contains(t) {
                            assert(nv[after[before.len() as int]].outputs.contains(t));
                        }
                        if written_by(nv, after, t) {
                            let p = choose|p: int|
                                0 <= p < after.len() && #[trigger] nv[after[p]].outputs.contains(t);
                            if p < before.len() {
                                assert(nv[before[p]].outputs.contains(t));
                            } else {
                                assert(nodes@[n as int].outputs@.contains(t));
                            }
                        }
                    }
                    assert forall|j: int| 0 <= j < placed@.len() implies (placed@[j]
                        <==> after.contains(j)) by {
                        if before.contains(j) {
                            let p = choose|p: int| 0 <= p < before.len() && before[p] == j;
                            assert(after[p] == j);
                        }
                        if j == n {
                            assert(after[before.len() as int] == j);
                        }
                        if after.contains(j) {
                            let p = choose|p: int| 0 <= p < after.len() && after[p] == j;
                            if p < before.len() {
                                assert(before[p] == j);
                            }
                        }
                    }
                }
            },
            None => {
                proof {
                    match next_ready(tv, nv, before, nv.len() as int) {
                        Some(k) => {
                            assert(placed@[k] || !ready(tv, nv, before, k));
                            assert(false);
                        },
                        None => {},
                    }
                }
                return order;
            },
        }
    }
    order
}

/// An order of nodes in which no node stands twice and every node can run
/// once the nodes before it have run.
pub open spec fn valid_order(tensors: Seq<TensorView>, nodes: Seq<NodeView>, order: Seq<int>) -> bool {
    forall|a: int|
        0 <= a < order.len() ==> {
            &&& 0 <= #[trigger] order[a] < nodes.len()
            &&& ready(tensors, nodes, order.take(a), order[a])
            &&& !order.take(a).contains(order[a])
        }
}

/// Scheduling extends a valid order to a valid order.
pub proof fn schedule_is_valid(tensors: Seq<TensorView>, nodes: Seq<NodeView>, placed: Seq<int>)
    requires
        valid_order(tensors, nodes, placed),
        placed.len() <= nodes.len(),
    ensures
        valid_order(tensors, nodes, schedule(tensors, nodes, placed)),
        schedule(tensors, nodes, placed).len() <= nodes.len(),
    decreases nodes.len() - placed.len(),
{
    if placed.len() < nodes.len() {
        next_ready_is_first(tensors, nodes, placed, nodes.len() as int);
        match next_ready(tensors, nodes, placed, nodes.len() as int) {
            Some(n) => {
                let next = placed.push(n);
                assert forall|a: int| 0 <= a < next.len() implies {
                    &&& 0 <= #[trigger] next[a] < nodes.len()
                    &&& ready(tensors, nodes, next.take(a), next[a])
                    &&& !next.take(a).contains(next[a])
                } by {
                    if a < placed.len() {
                        assert(next.take(a) =~= placed.take(a));
                        assert(next[a] == placed[a]);
                    } else {
                        assert(next.take(a) =~= placed);
                    }
                }
                schedule_is_valid(tensors, nodes, next);
            },
            None => {},
        }
    }
}

/// An order without repetition that is as long as the list of nodes holds
/// every node.
pub proof fn full_order_holds_all(tensors: Seq<TensorView>, nodes: Seq<NodeView>, order: Seq<int>)
    requires
        valid_order(tensors, nodes, order),
        order.len() == nodes.len(),
    ensures
        forall|n: int| 0 <= n < nodes.len() ==> order.contains(n),
        forall|a: int, b: int| 0 <= a < b < order.len() ==> order[a] != order[b],
{
    let count = nodes.len() as int;
    assert forall|a: int, b: int| 0 <= a < b < order.len() implies order[a] != order[b] by {
        assert(order.take(b)[a] == order[a]);
        assert(!order.take(b).contains(order[b]));
    }
    assert(order.no_duplicates());
    order.unique_seq_to_set();
    vstd::seq_lib::seq_to_set_is_finite(order);
    vstd::set_lib::lemma_int_range(0, count);
    let range = vstd::set_lib::set_int_range(0, count);
    assert forall|n: int| order.to_set().contains(n) implies range.contains(n) by {
        let a = choose|a: int| 0 <= a < order.len() && order[a] == n;
        assert(0 <= order[a] < nodes.len());
    }
    vstd::set_lib::lemma_subset_equality(order.to_set(), range);
    assert forall|n: int| 0 <= n < nodes.len() implies order.contains(n) by {
        assert(range.contains(n));
        assert(order.to_set().contains(n));
    }
}

/// Without a dangling node, every name that a node reads is in the table.
proof fn no_dangling_all_known(m: ModelView, bound: int, n: int)
    requires
        0 <= n < bound <= m.nodes.len(),
        first_dangling(m, bound) is None,
    ensures
        first_absent(table(m), m.nodes[n].inputs, m.nodes[n].inputs.len() as int) is None,
    decreases bound,
{
    if n < bound - 1 {
        no_dangling_all_known(m, bound - 1, n);
    }
}

/// What a later node writes stands after what an earlier node writes.
proof fn written_offsets_increase(m: ModelView, a: int, b: int)
    requires
        0 <= a < b <= m.nodes.len(),
    ensures
        written_names(m, a).len() + m.nodes[a].outputs.len() <= written_names(m, b).len(),
    decreases b,
{
    if a < b - 1 {
        written_offsets_increase(m, a, b - 1);
    }
}

/// Position `j` among the written names is position `k` of node `n`.
pub open spec fn owns(m: ModelView, n: int, k: int, j: int) -> bool {
    &&& 0 <= n < m.nodes.len()
    &&& 0 <= k < m.nodes[n].outputs.len()
    &&& j == written_names(m, n).len() + k
}

/// Every written name is written by some node.
proof fn written_has_owner(m: ModelView, j: int, bound: int)
    requires
        0 <= bound <= m.nodes.len(),
        0 <= j < written_names(m, bound).len(),
    ensures
        exists|n: int, k: int| n < bound && #[trigger] owns(m, n, k, j),
    decreases bound,
{
    if j < written_names(m, bound - 1).len() {
        written_has_owner(m, j, bound - 1);
        let (n, k) = choose|n: int, k: int| n < bound - 1 && #[trigger] owns(m, n, k, j);
        assert(n < bound && owns(m, n, k, j));
    } else {
        assert(owns(m, bound - 1, j - written_names(m, bound - 1).len(), j));
    }
}

/// A given name stands for an initializer or an input.
proof fn given_are_not_computed(m: ModelView, t: int)
    requires
        0 <= t < given_names(m).len(),
    ensures
        tensor_of(m, given_names(m)[t]).kind != TensorKind::Computed,
{
    let both = initializer_names(m) + declared_names(m.inputs);
    let name = given_names(m)[t];
    distinct_is_distinct(both);
    lookup_finds_first(given_names(m), name);
    lookup_in_prefix(initializer_names(m), declared_names(m.inputs), name);
}

/// In a table without repetition, a written name stands for a computed tensor.
proof fn written_are_computed(m: ModelView, at: int)
    requires
        all_distinct(table(m)),
        given_names(m).len() <= at < table(m).len(),
    ensures
        tensor_of(m, table(m)[at]).kind == TensorKind::Computed,
{
    let both = initializer_names(m) + declared_names(m.inputs);
    let name = table(m)[at];
    distinct_is_distinct(both);
    lookup_finds_first(given_names(m), name);
    if lookup(given_names(m), name) is Some {
        let j = lookup(given_names(m), name).unwrap();
        assert(table(m)[j] == name);
    }
    lookup_in_prefix(initializer_names(m), declared_names(m.inputs), name);
}

/// In a table without repetition, what node `n` writes at position `k` is
/// the tensor right after those that the nodes before it write.
proof fn written_position(m: ModelView, n: int, k: int)
    requires
        all_distinct(table(m)),
        0 <= n < m.nodes.len(),
        0 <= k < m.nodes[n].outputs.len(),
    ensures
        given_names(m).len() + written_names(m, n).len() + k < table(m).len(),
        lookup(table(m), m.nodes[n].outputs[k]) == Some(
            given_names(m).len() + written_names(m, n).len() + k,
        ),
{
    let at = given_names(m).len() + written_names(m, n).len() + k;
    written_at(m, n, k, m.nodes.len() as int);
    assert(table(m)[at] == m.nodes[n].outputs[k]);
    lookup_in_distinct(table(m), at);
}

/// The graph that is built has the invariant of a graph.
pub proof fn built_graph_is_wf(m: ModelView, requested: Option<Seq<Name>>)
    requires
        assembled(m, requested) is Ok,
        table(m).len() <= usize::MAX,
        m.nodes.len() <= usize::MAX,
    ensures
        assembled(m, requested)->Ok_0.wf(),
{
    let g = assembled(m, requested)->Ok_0;
    let names = table(m);
    let count = m.nodes.len() as int;
    let nodes = wired_nodes(m);
    let tensors = tensors_of(m);
    let outputs = output_names(m, requested);
    let order = schedule(tensors, nodes, Seq::empty());
    let base = given_names(m).len() as int;
    no_repeat_is_distinct(names, names.len() as int);
    assert(names.take(names.len() as int) =~= names);
    schedule_is_valid(tensors, nodes, Seq::empty());
    full_order_holds_all(tensors, nodes, order);
    assert forall|a: int, k: int|
        0 <= a < g.nodes.len() && 0 <= k < g.nodes[a].inputs.len() implies g.available(
        #[trigger] g.input_at(a, k),
        a,
    ) by {
        let n = order[a];
        let reads = m.nodes[n].inputs;
        let t = g.input_at(a, k);
        no_dangling_all_known(m, count, n);
        first_absent_is_first(names, reads, reads.len() as int);
        assert(lookup(names, reads[k]) is Some);
        lookup_finds_first(names, reads[k]);
        assert(t == nodes[n].inputs[k]);
        assert(t < tensors.len());
        if tensors[t as int].kind == TensorKind::Computed {
            assert(ready(tensors, nodes, order.take(a), n));
            assert(written_by(nodes, order.take(a), t));
            let p = choose|p: int|
                0 <= p < order.take(a).len() && #[trigger] nodes[order.take(a)[p]].outputs.contains(
                    t,
                );
            assert(order.take(a)[p] == order[p]);
            assert(g.produces(p, t));
        }
    }
    assert forall|a: int, k: int|
        0 <= a < g.nodes.len() && 0 <= k < g.nodes[a].outputs.len() implies {
        &&& (#[trigger] g.output_at(a, k)) < g.tensors.len()
        &&& g.tensors[g.output_at(a, k) as int].kind == TensorKind::Computed
    } by {
        let n = order[a];
        written_position(m, n, k);
        let at = base + written_names(m, n).len() + k;
        assert(g.output_at(a, k) == at);
        written_are_computed(m, at);
        lookup_finds_first(names, m.nodes[n].outputs[k]);
    }
    assert forall|a: int, k: int, b: int, j: int|
        0 <= a < g.nodes.len() && 0 <= k < g.nodes[a].outputs.len() && 0 <= b < g.nodes.len()
            && 0 <= j < g.nodes[b].outputs.len() && #[trigger] g.output_at(a, k)
            == #[trigger] g.output_at(b, j) implies a == b && k == j by {
        let n = order[a];
        let o = order[b];
        written_position(m, n, k);
        written_position(m, o, j);
        assert(g.output_at(a, k) == base + written_names(m, n).len() + k);
        assert(g.output_at(b, j) == base + written_names(m, o).len() + j);
        if n < o {
            written_offsets_increase(m, n, o);
        } else if o < n {
            written_offsets_increase(m, o, n);
        }
        assert(n == o);
    }
    assert forall|k: int| 0 <= k < g.outputs.len() implies g.available(
        #[trigger] g.outputs[k],
        g.nodes.len() as int,
    ) by {
        let t = g.outputs[k];
        first_absent_is_first(names, outputs, outputs.len() as int);
        assert(lookup(names, outputs[k]) is Some);
        lookup_finds_first(names, outputs[k]);
        assert(t < tensors.len());
        if tensors[t as int].kind == TensorKind::Computed {
            if t < base {
                given_are_not_computed(m, t as int);
                assert(names[t as int] == given_names(m)[t as int]);
            }
            written_has_owner(m, t - base, count);
            let (n, j) = choose|n: int, j: int| n < count && #[trigger] owns(m, n, j, t - base);
            written_position(m, n, j);
            assert(order.contains(n));
            let a = choose|a: int| 0 <= a < order.len() && order[a] == n;
            assert(g.nodes[a].outputs[j] == t);
            assert(g.produces(a, t));
        }
    }
}

/// Up to an unplaced node of an order there is a first unplaced one.
proof fn first_unplaced(order: Seq<int>, placed: Seq<int>, k: int) -> (a: int)
    requires
        0 <= k < order.len(),
        !placed.contains(order[k]),
    ensures
        0 <= a <= k,
        !placed.contains(order[a]),
        forall|b: int| 0 <= b < a ==> placed.contains(#[trigger] order[b]),
    decreases k,
{
    if exists|b: int| 0 <= b < k && !placed.contains(#[trigger] order[b]) {
        let b = choose|b: int| 0 <= b < k && !placed.contains(#[trigger] order[b]);
        first_unplaced(order, placed, b)
    } else {
        k
    }
}

/// Where the nodes admit an order in which producers come first,
/// scheduling from a valid order places every node.
proof fn schedule_completes(
    tensors: Seq<TensorView>,
    nodes: Seq<NodeView>,
    order: Seq<int>,
    placed: Seq<int>,
)
    requires
        valid_order(tensors, nodes, order),
        order.len() == nodes.len(),
        valid_order(tensors, nodes, placed),
        placed.len() <= nodes.len(),
    ensures
        schedule(tensors, nodes, placed).len() == nodes.len(),
    decreases nodes.len() - placed.len(),
{
    if placed.len() < nodes.len() {
        let count = nodes.len() as int;
        full_order_holds_all(tensors, nodes, order);
        // some node is not placed yet
        assert forall|a: int, b: int| 0 <= a < b < placed.len() implies placed[a] != placed[b] by {
            assert(placed.take(b)[a] == placed[a]);
            assert(!placed.take(b).contains(placed[b]));
        }
        assert(placed.no_duplicates());
        placed.unique_seq_to_set();
        vstd::seq_lib::seq_to_set_is_finite(placed);
        vstd::set_lib::lemma_int_range(0, count);
        let range = vstd::set_lib::set_int_range(0, count);
        if forall|n: int| 0 <= n < count ==> placed.contains(n) {
            assert forall|n: int| range.contains(n) implies placed.to_set().contains(n) by {
                assert(placed.contains(n));
            }
            vstd::set_lib::lemma_len_subset(range, placed.to_set());
            assert(false);
        }
        let n = choose|n: int| 0 <= n < count && !placed.contains(n);
        assert(order.contains(n));
        let k = choose|k: int| 0 <= k < order.len() && order[k] == n;
        let a = first_unplaced(order, placed, k);
        let next = order[a];
        // the first unplaced node of the order can run
        assert(ready(tensors, nodes, placed, next)) by {
            assert(ready(tensors, nodes, order.take(a), next));
            assert forall|j: int| 0 <= j < nodes[next].inputs.len() implies {
                let t = #[trigger] nodes[next].inputs[j];
                tensors[t as int].kind != TensorKind::Computed || written_by(nodes, placed, t)
            } by {
                let t = nodes[next].inputs[j];
                if tensors[t as int].kind == TensorKind::Computed {
                    assert(written_by(nodes, order.take(a), t));
                    let p = choose|p: int|
                        0 <= p < order.take(a).len() && #[trigger] nodes[order.take(
                            a,
                        )[p]].outputs.contains(t);
                    assert(order.take(a)[p] == order[p]);
                    assert(placed.contains(order[p]));
                    let q = choose|q: int| 0 <= q < placed.len() && placed[q] == order[p];
                    assert(nodes[placed[q]].outputs.contains(t));
                }
            }
        }
        next_ready_is_first(tensors, nodes, placed, count);
        match next_ready(tensors, nodes, placed, count) {
            Some(chosen) => {
                let longer = placed.push(chosen);
                assert forall|a: int| 0 <= a < longer.len() implies {
                    &&& 0 <= #[trigger] longer[a] < nodes.len()
                    &&& ready(tensors, nodes, longer.take(a), longer[a])
                    &&& !longer.take(a).contains(longer[a])
                } by {
                    if a < placed.len() {
                        assert(longer.take(a) =~= placed.take(a));
                        assert(longer[a] == placed[a]);
                    } else {
                        assert(longer.take(a) =~= placed);
                    }
                }
                schedule_completes(tensors, nodes, order, longer);
            },
            None => {
                assert(placed.contains(next) || !ready(tensors, nodes, placed, next));
                assert(false);
            },
        }
    }
}

/// A model is refused as cyclic only if its nodes admit no order in which
/// every node stands once and after the nodes that write what it reads.
pub proof fn cyclic_means_no_order(m: ModelView, requested: Option<Seq<Name>>, order: Seq<int>)
    requires
        build(m, requested) == Err::<GraphView, SessionErrorView>(
            SessionErrorView::IrError(IrErrorView::CyclicGraph),
        ),
        order.len() == m.nodes.len(),
    ensures
        !valid_order(tensors_of(m), wired_nodes(m), order),
{
    if valid_order(tensors_of(m), wired_nodes(m), order) {
        schedule_completes(tensors_of(m), wired_nodes(m), order, Seq::empty());
    }
}

/// Finds the first initializer of an unsupported element type that a
/// requested output depends on, and returns the code of its element type.
fn unsupported_initializer(model: &ModelDescription, graph: &crate::graph::Graph) -> (r: Option<
    i32,
>)
    requires
        graph.wf(),
        graph.deep_view().names == table(model.deep_view()),
        graph.deep_view().tensors == tensors_of(model.deep_view()),
    ensures
        match r {
            Some(code) => first_untyped(
                model.deep_view(),
                graph.deep_view(),
                graph.deep_view().tensors.len() as int,
            ) matches Some(t) && code == code_of(model.deep_view(), graph.deep_view().names[t]),
            None => first_untyped(
                model.deep_view(),
                graph.deep_view(),
                graph.deep_view().tensors.len() as int,
            ) is None,
        },
{
    let ghost m = model.deep_view();
    let ghost g = graph.deep_view();
    let keep = needed_nodes(graph);
    let mut live = unset(graph.tensors.len());
    proof {
        assert forall|k: int| 0 <= k < graph.outputs@.len() implies graph.outputs@[k]
            < live@.len() by {
            assert(g.available(g.outputs[k], g.nodes.len() as int));
        }
    }
    set_all(&mut live, &graph.outputs);
    let mut n: usize = 0;
    while n < graph.nodes.len()
        invariant
            n <= graph.nodes.len(),
            g == graph.deep_view(),
            g.wf(),
            keep@.len() == graph.nodes@.len(),
            forall|j: int| 0 <= j < keep@.len() ==> keep@[j] == g.needed(j),
            live@.len() == graph.tensors@.len(),
            forall|t: usize|
                t < live@.len() ==> (live@[t as int] <==> g.outputs.contains(t) || exists|j: int|
                    0 <= j < n && g.needed(j) && #[trigger] g.consumes(j, t)),
        decreases graph.nodes.len() - n,
    {
        let node = &graph.nodes[n];
        let ghost before = live@;
        proof {
            assert(node.deep_view() == g.nodes[n as int]);
            assert forall|k: int| 0 <= k < node.inputs@.len() implies node.inputs@[k]
                < live@.len() by {
                assert(g.available(g.input_at(n as int, k), n as int));
            }
        }
        if keep[n] {
            set_all(&mut live, &node.inputs);
        }
        proof {
            assert forall|t: usize| t < live@.len() implies (live@[t as int]
                <==> g.outputs.contains(t) || exists|j: int|
                0 <= j < n + 1 && g.needed(j) && #[trigger] g.consumes(j, t)) by {
                assert(g.nodes[n as int].inputs == node.inputs@);
                if keep@[n as int] {
                    assert(live@[t as int] <==> before[t as int] || node.inputs@.contains(t));
                }
                if g.needed(n as int) && node.inputs@.contains(t) {
                    assert(g.consumes(n as int, t));
                }
                if exists|j: int| 0 <= j < n && g.needed(j) && #[trigger] g.consumes(j, t) {
                    let j = choose|j: int| 0 <= j < n && g.needed(j) && #[trigger] g.consumes(j, t);
                    assert(0 <= j < n + 1 && g.needed(j) && g.consumes(j, t));
                }
                if exists|j: int| 0 <= j < n + 1 && g.needed(j) && #[trigger] g.consumes(j, t) {
                    let j = choose|j: int|
                        0 <= j < n + 1 && g.needed(j) && #[trigger] g.consumes(j, t);
                    if j < n {
                        assert(0 <= j < n && g.needed(j) && g.consumes(j, t));
                    } else {
                        assert(node.inputs@.contains(t));
                    }
                }
            }
        }
        n = n + 1;
    }
    proof {
        assert forall|t: usize| t < live@.len() implies live@[t as int] == wanted(g, t, 0) by {
            if exists|j: int| 0 <= j < n && g.needed(j) && #[trigger] g.consumes(j, t) {
                let j = choose|j: int| 0 <= j < n && g.needed(j) && #[trigger] g.consumes(j, t);
                assert(0 <= j < g.nodes.len() && g.needed(j) && g.consumes(j, t));
            }
            if wanted(g, t, 0) && !g.outputs.contains(t) {
                let j = choose|j: int|
                    0 <= j < g.nodes.len() && g.needed(j) && #[trigger] g.consumes(j, t);
                assert(0 <= j < n && g.needed(j) && g.consumes(j, t));
            }
        }
    }
    let constants = names_of_initializers(model);
    let mut t: usize = 0;
    while t < graph.tensors.len()
        invariant
            t <= graph.tensors.len(),
            m == model.deep_view(),
            g == graph.deep_view(),
            g.names == table(m),
            g.tensors == tensors_of(m),
            g.names.len() == g.tensors.len(),
            constants.deep_view() == initializer_names(m),
            live@.len() == graph.tensors@.len(),
            forall|j: usize| j < live@.len() ==> live@[j as int] == wanted(g, j, 0),
            first_untyped(m, g, t as int) is None,
        decreases graph.tensors.len() - t,
    {
        proof {
            assert(g.tensors[t as int] == graph.tensors@[t as int].deep_view());
            assert(g.tensors[t as int] == tensor_of(m, g.names[t as int]));
            assert(g.names[t as int] == graph.names@[t as int]@);
            lookup_finds_first(initializer_names(m), g.names[t as int]);
        }
        let constant = match graph.tensors[t].kind {
            TensorKind::Initializer => true,
            _ => false,
        };
        if constant && live[t] {
            match find_name(&constants, &graph.names[t]) {
                Some(k) => {
                    proof {
                        assert(model.initializers@[k as int].deep_view() == m.initializers[k as int]);
                    }
                    let code = model.initializers[k].data_type;
                    match ScalarType::from_i32(code) {
                        Ok(_) => {},
                        Err(_) => {
                            proof {
                                assert(untyped(m, g, t as int));
                                assert(first_untyped(m, g, t + 1) == Some(t as int));
                                first_untyped_stays(m, g, t + 1, g.tensors.len() as int);
                            }
                            return Some(code);
                        },
                    }
                },
                None => {
                    proof {
                        assert(false);
                    }
                },
            }
        }
        t = t + 1;
    }
    None
}

impl crate::graph::Graph {
    /// Builds the graph of a model.
    ///
    /// Every initializer, every declared input that is no initializer and
    /// every name that a node writes becomes a tensor, and the nodes are
    /// wired to the tensors by name and ordered so that producers come
    /// first; among the nodes that can run, the one declared first comes
    /// first. The outputs to compute are the requested ones, or all that
    /// the model declares where none is requested. A model whose nodes write
    /// a name twice or read an unknown name, whose outputs are unknown, or
    /// whose nodes wait for one another is refused. So is a model in which a
    /// requested output depends on an initializer of an element type that
    /// is not supported.
    pub fn from_model(model: &ModelDescription, outputs: Option<&Vec<String>>) -> (r: Result<
        crate::graph::Graph,
        crate::error::SessionError,
    >)
        ensures
            match r {
                Ok(graph) => build(model.deep_view(), outputs.deep_view()) == Ok::<
                    GraphView,
                    SessionErrorView,
                >(graph.deep_view()) && graph.wf(),
                Err(e) => build(model.deep_view(), outputs.deep_view()) == Err::<
                    GraphView,
                    SessionErrorView,
                >(e.deep_view()),
            },
    {
        let ghost m = model.deep_view();
        let ghost requested = outputs.deep_view();
        let table = match name_table(model) {
            Ok(names) => names,
            Err(name) => {
                return Err(crate::error::SessionError::IrError(IrError::DuplicateTensor(name)));
            },
        };
        let nodes = match wire_nodes(model, &table) {
            Ok(nodes) => nodes,
            Err(e) => {
                return Err(crate::error::SessionError::IrError(e));
            },
        };
        let declared = names_of_values(&model.outputs);
        let wanted: &Vec<String> = match outputs {
            Some(names) => names,
            None => &declared,
        };
        proof {
            assert(wanted.deep_view() == output_names(m, requested));
        }
        let targets = match resolve(&table, wanted) {
            Ok(ids) => ids,
            Err(k) => {
                if outputs.is_some() {
                    return Err(crate::error::SessionError::InvalidOutput(wanted[k].clone()));
                } else {
                    return Err(
                        crate::error::SessionError::IrError(
                            IrError::OutputNodeNotFound(wanted[k].clone()),
                        ),
                    );
                }
            },
        };
        let tensors = make_tensors(model, &table);
        let size = table.len();
        proof {
            assert(self::table(m).len() == size);
            let names = self::table(m);
            no_repeat_is_distinct(names, names.len() as int);
            assert(names.take(names.len() as int) =~= names);
            assert forall|n: int, k: int|
                0 <= n < wired_nodes(m).len() && 0 <= k < wired_nodes(m)[n].inputs.len() implies #[trigger] wired_nodes(
                m,
            )[n].inputs[k] < tensors_of(m).len() by {
                let reads = m.nodes[n].inputs;
                no_dangling_all_known(m, m.nodes.len() as int, n);
                first_absent_is_first(names, reads, reads.len() as int);
                assert(lookup(names, reads[k]) is Some);
                lookup_finds_first(names, reads[k]);
            }
            assert forall|n: int, k: int|
                0 <= n < wired_nodes(m).len() && 0 <= k < wired_nodes(m)[n].outputs.len() implies #[trigger] wired_nodes(
                m,
            )[n].outputs[k] < tensors_of(m).len() by {
                written_position(m, n, k);
            }
        }
        let order = order_nodes(&tensors, &nodes);
        if order.len() < nodes.len() {
            return Err(crate::error::SessionError::IrError(IrError::CyclicGraph));
        }
        let ghost plan = schedule(tensors_of(m), wired_nodes(m), Seq::empty());
        proof {
            schedule_is_valid(tensors_of(m), wired_nodes(m), Seq::empty());
        }
        let mut sorted: Vec<Node> = Vec::new();
        let mut a: usize = 0;
        while a < order.len()
            invariant
                a <= order.len(),
                as_ints(order@) == plan,
                valid_order(tensors_of(m), wired_nodes(m), plan),
                nodes.deep_view() == wired_nodes(m),
                sorted@.len() == a,
                forall|j: int|
                    0 <= j < a ==> (#[trigger] sorted@[j]).deep_view() == wired_nodes(m)[plan[j]],
            decreases order.len() - a,
        {
            proof {
                assert(plan[a as int] == order@[a as int]);
                assert(0 <= plan[a as int] < wired_nodes(m).len());
            }
            let copy = nodes[order[a]].duplicate();
            proof {
                assert(nodes.deep_view()[order@[a as int] as int] == nodes@[order@[a as int] as int].deep_view());
            }
            sorted.push(copy);
            a = a + 1;
        }
        let graph = crate::graph::Graph { names: table, tensors, nodes: sorted, outputs: targets };
        proof {
            assert(graph.deep_view().nodes =~= Seq::new(plan.len(), |a: int| wired_nodes(m)[plan[a]]));
            built_graph_is_wf(m, requested);
        }
        match unsupported_initializer(model, &graph) {
            Some(code) => Err(
                crate::error::SessionError::IrError(
                    IrError::Type(DataTypeError::NotSupported(code)),
                ),
            ),
            None => Ok(graph),
        }
    }
}

} // verus!
