//! Dead-node pruning: only the transitive producers of the requested
//! outputs stay in the graph.

use vstd::prelude::*;
use crate::graph::{Graph, GraphView, Node};
use crate::marks::{any_set, set_all, unset};

verus! {

/// Tensor `t` is wanted once the nodes from position `from` on are known:
/// it is a requested output, or one of those nodes is needed and reads it.
pub open spec fn wanted(g: GraphView, t: usize, from: int) -> bool {
    g.outputs.contains(t) || exists|m: int|
        from <= m < g.nodes.len() && g.needed(m) && #[trigger] g.consumes(m, t)
}

/// The kept positions increase, each is a needed node, and every needed node
/// among the first `n` is one of them.
pub proof fn kept_ids_are_needed(g: GraphView, n: int)
    requires
        0 <= n <= g.nodes.len(),
    ensures
        forall|p: int| 0 <= p < g.kept_ids(n).len() ==> 0 <= #[trigger] g.kept_ids(n)[p] < n,
        forall|p: int| 0 <= p < g.kept_ids(n).len() ==> g.needed(#[trigger] g.kept_ids(n)[p]),
        forall|p: int, q: int|
            0 <= p < q < g.kept_ids(n).len() ==> #[trigger] g.kept_ids(n)[p] < #[trigger] g.kept_ids(
                n,
            )[q],
        forall|m: int|
            0 <= m < n && #[trigger] g.needed(m) ==> exists|p: int|
                0 <= p < g.kept_ids(n).len() && #[trigger] g.kept_ids(n)[p] == m,
        g.kept_ids(n).len() <= n,
    decreases n,
{
    if n > 0 {
        kept_ids_are_needed(g, n - 1);
        let before = g.kept_ids(n - 1);
        let ids = g.kept_ids(n);
        assert forall|m: int| 0 <= m < n && #[trigger] g.needed(m) implies exists|p: int|
            0 <= p < ids.len() && #[trigger] ids[p] == m by {
            if m == n - 1 {
                assert(ids[ids.len() - 1] == m);
            } else {
                let p = choose|p: int| 0 <= p < before.len() && #[trigger] before[p] == m;
                assert(ids[p] == m);
            }
        }
    }
}

/// Pruning keeps the graph's invariant.
pub proof fn pruned_is_wf(g: GraphView)
    requires
        g.wf(),
    ensures
        g.pruned().wf(),
{
    let n = g.nodes.len() as int;
    let p = g.pruned();
    let ids = g.kept_ids(n);
    kept_ids_are_needed(g, n);
    assert forall|a: int, k: int|
        0 <= a < p.nodes.len() && 0 <= k < p.nodes[a].inputs.len() implies p.available(
        #[trigger] p.input_at(a, k),
        a,
    ) by {
        let src = ids[a];
        let t = p.input_at(a, k);
        assert(t == g.input_at(src, k));
        assert(g.available(t, src));
        if g.tensors[t as int].kind == crate::graph::TensorKind::Computed {
            let m = choose|m: int| 0 <= m < src && #[trigger] g.produces(m, t);
            assert(g.nodes[src].inputs[k] == t);
            assert(g.consumes(src, t));
            assert(g.feeds(m, src));
            assert(g.needed(m));
            let q = choose|q: int| 0 <= q < ids.len() && #[trigger] ids[q] == m;
            if q >= a {
                if q > a {
                    assert(ids[a] < ids[q]);
                }
                assert(false);
            }
            assert(p.produces(q, t));
        }
    }
    assert forall|a: int, k: int|
        0 <= a < p.nodes.len() && 0 <= k < p.nodes[a].outputs.len() implies {
        &&& (#[trigger] p.output_at(a, k)) < p.tensors.len()
        &&& p.tensors[p.output_at(a, k) as int].kind == crate::graph::TensorKind::Computed
    } by {
        assert(p.output_at(a, k) == g.output_at(ids[a], k));
    }
    assert forall|a: int, k: int, b: int, j: int|
        0 <= a < p.nodes.len() && 0 <= k < p.nodes[a].outputs.len() && 0 <= b < p.nodes.len()
            && 0 <= j < p.nodes[b].outputs.len() && #[trigger] p.output_at(a, k)
            == #[trigger] p.output_at(b, j) implies a == b && k == j by {
        assert(p.output_at(a, k) == g.output_at(ids[a], k));
        assert(p.output_at(b, j) == g.output_at(ids[b], j));
        assert(ids[a] == ids[b]);
        if a < b {
            assert(ids[a] < ids[b]);
        } else if b < a {
            assert(ids[b] < ids[a]);
        }
    }
    assert forall|k: int| 0 <= k < p.outputs.len() implies p.available(
        #[trigger] p.outputs[k],
        p.nodes.len() as int,
    ) by {
        let t = g.outputs[k];
        assert(g.available(t, n));
        if g.tensors[t as int].kind == crate::graph::TensorKind::Computed {
            let m = choose|m: int| 0 <= m < n && #[trigger] g.produces(m, t);
            assert(g.outputs.contains(t));
            assert(g.yields_output(m));
            assert(g.needed(m));
            let q = choose|q: int| 0 <= q < ids.len() && #[trigger] ids[q] == m;
            assert(p.produces(q, t));
        }
    }
}

/// A node that stays is still needed in the pruned graph.
proof fn kept_stay_needed(g: GraphView, p: int)
    requires
        0 <= p < g.pruned().nodes.len(),
    ensures
        g.pruned().needed(p),
    decreases g.pruned().nodes.len() - p,
{
    let n = g.nodes.len() as int;
    let pruned = g.pruned();
    let ids = g.kept_ids(n);
    kept_ids_are_needed(g, n);
    let src = ids[p];
    assert(g.needed(src));
    if g.yields_output(src) {
        let t = choose|t: usize| #[trigger] g.produces(src, t) && g.outputs.contains(t);
        assert(pruned.produces(p, t));
    } else {
        let m = choose|m: int| src < m < g.nodes.len() && #[trigger] g.feeds(src, m) && g.needed(m);
        let q = choose|q: int| 0 <= q < ids.len() && #[trigger] ids[q] == m;
        if q <= p {
            if q < p {
                assert(ids[q] < ids[p]);
            }
            assert(false);
        }
        kept_stay_needed(g, q);
        let t = choose|t: usize| g.produces(src, t) && #[trigger] g.consumes(m, t);
        assert(pruned.produces(p, t));
        assert(pruned.consumes(q, t));
        assert(pruned.feeds(p, q));
    }
}

/// Where every node is needed, every node is kept.
proof fn all_needed_all_kept(g: GraphView, n: int)
    requires
        0 <= n <= g.nodes.len(),
        forall|m: int| 0 <= m < n ==> g.needed(m),
    ensures
        g.kept_ids(n) =~= Seq::new(n as nat, |i: int| i),
    decreases n,
{
    if n > 0 {
        all_needed_all_kept(g, n - 1);
    }
}

/// Pruning a pruned graph changes nothing: every node that stayed is needed,
/// so the same nodes stay, wired as before.
pub proof fn pruning_is_idempotent(g: GraphView)
    ensures
        g.pruned().pruned() == g.pruned(),
{
    let pruned = g.pruned();
    let count = pruned.nodes.len() as int;
    assert forall|p: int| 0 <= p < count implies pruned.needed(p) by {
        kept_stay_needed(g, p);
    }
    all_needed_all_kept(pruned, count);
    assert(pruned.kept(count) =~= pruned.nodes);
}

/// The nodes of the pruned graph are exactly the transitive producers of the
/// requested outputs.
pub proof fn pruning_keeps_the_producers(g: GraphView, node: crate::graph::NodeView)
    ensures
        g.pruned().nodes.contains(node) <==> exists|n: int| g.needed(n) && g.nodes[n] == node,
{
    let count = g.nodes.len() as int;
    let ids = g.kept_ids(count);
    let kept = g.pruned().nodes;
    kept_ids_are_needed(g, count);
    if kept.contains(node) {
        let p = choose|p: int| 0 <= p < kept.len() && kept[p] == node;
        assert(g.needed(ids[p]) && g.nodes[ids[p]] == node);
    }
    if exists|n: int| g.needed(n) && g.nodes[n] == node {
        let n = choose|n: int| g.needed(n) && g.nodes[n] == node;
        let p = choose|p: int| 0 <= p < ids.len() && #[trigger] ids[p] == n;
        assert(kept[p] == node);
    }
}

/// The graph with other requested outputs.
pub open spec fn with_outputs(g: GraphView, outputs: Seq<usize>) -> GraphView {
    GraphView { names: g.names, tensors: g.tensors, nodes: g.nodes, outputs }
}

/// A node that is needed for some of the outputs is needed for all of them.
proof fn needed_for_fewer(g: GraphView, fewer: Seq<usize>, n: int)
    requires
        forall|t: usize| fewer.contains(t) ==> g.outputs.contains(t),
        with_outputs(g, fewer).needed(n),
    ensures
        g.needed(n),
    decreases g.nodes.len() - n,
{
    let r = with_outputs(g, fewer);
    if r.yields_output(n) {
        let t = choose|t: usize| #[trigger] r.produces(n, t) && r.outputs.contains(t);
        assert(g.produces(n, t));
    } else {
        let m = choose|m: int| n < m < r.nodes.len() && #[trigger] r.feeds(n, m) && r.needed(m);
        needed_for_fewer(g, fewer, m);
        let t = choose|t: usize| r.produces(n, t) && #[trigger] r.consumes(m, t);
        assert(g.produces(n, t) && g.consumes(m, t));
        assert(g.feeds(n, m));
    }
}

/// Among the first `n` nodes, no more are kept for some of the outputs than
/// for all of them, and fewer if one of them is needed only for all.
proof fn kept_for_fewer(g: GraphView, fewer: Seq<usize>, n: int)
    requires
        0 <= n <= g.nodes.len(),
        forall|t: usize| fewer.contains(t) ==> g.outputs.contains(t),
    ensures
        with_outputs(g, fewer).kept_ids(n).len() <= g.kept_ids(n).len(),
        (exists|m: int| 0 <= m < n && g.needed(m) && !with_outputs(g, fewer).needed(m))
            ==> with_outputs(g, fewer).kept_ids(n).len() < g.kept_ids(n).len(),
    decreases n,
{
    if n > 0 {
        let r = with_outputs(g, fewer);
        kept_for_fewer(g, fewer, n - 1);
        if r.needed(n - 1) {
            needed_for_fewer(g, fewer, n - 1);
        }
        if exists|m: int| 0 <= m < n && g.needed(m) && !r.needed(m) {
            let m = choose|m: int| 0 <= m < n && g.needed(m) && !r.needed(m);
            if m < n - 1 {
                assert(0 <= m < n - 1 && g.needed(m) && !r.needed(m));
            }
        }
    }
}

/// Requesting only some of the outputs never keeps more nodes, and keeps
/// strictly fewer where some node is needed for the others alone.
pub proof fn fewer_outputs_fewer_nodes(g: GraphView, fewer: Seq<usize>)
    requires
        forall|t: usize| fewer.contains(t) ==> g.outputs.contains(t),
    ensures
        with_outputs(g, fewer).pruned().nodes.len() <= g.pruned().nodes.len(),
        (exists|n: int| g.needed(n) && !with_outputs(g, fewer).needed(n)) ==> with_outputs(
            g,
            fewer,
        ).pruned().nodes.len() < g.pruned().nodes.len(),
{
    kept_for_fewer(g, fewer, g.nodes.len() as int);
    if exists|n: int| g.needed(n) && !with_outputs(g, fewer).needed(n) {
        let n = choose|n: int| g.needed(n) && !with_outputs(g, fewer).needed(n);
        assert(0 <= n < g.nodes.len() && g.needed(n) && !with_outputs(g, fewer).needed(n));
    }
}

/// Decides for every node whether a requested output depends on it.
pub fn needed_nodes(graph: &Graph) -> (keep: Vec<bool>)
    requires
        graph.wf(),
    ensures
        keep@.len() == graph.nodes@.len(),
        forall|n: int| 0 <= n < keep@.len() ==> keep@[n] == graph.deep_view().needed(n),
{
    let ghost g = graph.deep_view();
    let count = graph.nodes.len();
    let mut live = unset(graph.tensors.len());
    let mut keep = unset(count);
    proof {
        assert forall|k: int| 0 <= k < graph.outputs@.len() implies graph.outputs@[k]
            < live@.len() by {
            assert(g.available(g.outputs[k], g.nodes.len() as int));
        }
    }
    set_all(&mut live, &graph.outputs);
    let mut i: usize = count;
    while i > 0
        invariant
            i <= count,
            count == graph.nodes@.len(),
            g == graph.deep_view(),
            g.wf(),
            live@.len() == g.tensors.len(),
            keep@.len() == count,
            forall|t: usize| t < live@.len() ==> (live@[t as int] <==> wanted(g, t, i as int)),
            forall|n: int| i <= n < count ==> keep@[n] == g.needed(n),
            forall|n: int| 0 <= n < i ==> !keep@[n],
        decreases i,
    {
        let at = i - 1;
        let node = &graph.nodes[at];
        proof {
            assert(node.deep_view() == g.nodes[at as int]);
            assert forall|k: int| 0 <= k < node.outputs@.len() implies node.outputs@[k]
                < live@.len() by {
                assert(g.output_at(at as int, k) == node.outputs@[k]);
            }
            assert forall|k: int| 0 <= k < node.inputs@.len() implies node.inputs@[k]
                < live@.len() by {
                assert(g.available(g.input_at(at as int, k), at as int));
            }
        }
        let is_needed = any_set(&live, &node.outputs);
        proof {
            if is_needed {
                let k = choose|k: int| 0 <= k < node.outputs@.len() && live@[node.outputs@[k] as int];
                let t = node.outputs@[k];
                assert(g.produces(at as int, t));
                assert(wanted(g, t, i as int));
                if !g.outputs.contains(t) {
                    let m = choose|m: int|
                        i <= m < g.nodes.len() && g.needed(m) && #[trigger] g.consumes(m, t);
                    assert(g.feeds(at as int, m));
                }
                assert(g.needed(at as int));
            } else {
                if g.yields_output(at as int) {
                    let t = choose|t: usize|
                        #[trigger] g.produces(at as int, t) && g.outputs.contains(t);
                    let k = choose|k: int| 0 <= k < node.outputs@.len() && node.outputs@[k] == t;
                    assert(wanted(g, t, i as int));
                    assert(live@[node.outputs@[k] as int]);
                }
                if exists|m: int|
                    at < m < g.nodes.len() && #[trigger] g.feeds(at as int, m) && g.needed(m) {
                    let m = choose|m: int|
                        at < m < g.nodes.len() && #[trigger] g.feeds(at as int, m) && g.needed(m);
                    let t = choose|t: usize| g.produces(at as int, t) && #[trigger] g.consumes(m, t);
                    let k = choose|k: int| 0 <= k < node.outputs@.len() && node.outputs@[k] == t;
                    assert(wanted(g, t, i as int));
                    assert(live@[node.outputs@[k] as int]);
                }
                assert(!g.needed(at as int));
            }
        }
        if is_needed {
            keep.set(at, true);
            set_all(&mut live, &node.inputs);
        }
        proof {
            assert forall|tt: usize| tt < live@.len() implies (live@[tt as int] <==> wanted(
                g,
                tt,
                at as int,
            )) by {
                if wanted(g, tt, at as int) && !wanted(g, tt, i as int) {
                    let m = choose|m: int|
                        at <= m < g.nodes.len() && g.needed(m) && #[trigger] g.consumes(m, tt);
                    assert(m == at);
                    assert(node.inputs@.contains(tt));
                }
                if wanted(g, tt, i as int) {
                    if !g.outputs.contains(tt) {
                        let m = choose|m: int|
                            i <= m < g.nodes.len() && g.needed(m) && #[trigger] g.consumes(m, tt);
                        assert(at <= m < g.nodes.len() && g.needed(m) && g.consumes(m, tt));
                    }
                    assert(wanted(g, tt, at as int));
                }
                if is_needed && node.inputs@.contains(tt) {
                    assert(g.consumes(at as int, tt));
                    assert(wanted(g, tt, at as int));
                }
            }
        }
        i = at;
    }
    keep
}

/// Drops every node that no requested output depends on. The tensors, their
/// names and the requested outputs stay as they are, and the nodes that stay
/// keep their order.
pub fn prune(graph: Graph) -> (pruned: Graph)
    requires
        graph.wf(),
    ensures
        pruned.deep_view() == graph.deep_view().pruned(),
        pruned.wf(),
{
    let ghost g = graph.deep_view();
    let keep = needed_nodes(&graph);
    let mut nodes: Vec<Node> = Vec::new();
    let mut i: usize = 0;
    while i < graph.nodes.len()
        invariant
            i <= graph.nodes@.len(),
            g == graph.deep_view(),
            keep@.len() == graph.nodes@.len(),
            forall|n: int| 0 <= n < keep@.len() ==> keep@[n] == g.needed(n),
            nodes.deep_view() =~= g.kept(i as int),
        decreases graph.nodes.len() - i,
    {
        let ghost before = nodes.deep_view();
        if keep[i] {
            let copy = graph.nodes[i].duplicate();
            proof {
                assert(copy.deep_view() == g.nodes[i as int]);
            }
            nodes.push(copy);
        }
        proof {
            let ids = g.kept_ids(i + 1);
            let shorter = g.kept_ids(i as int);
            assert(before.len() == shorter.len());
            assert forall|p: int| 0 <= p < shorter.len() implies nodes.deep_view()[p]
                == g.nodes[ids[p]] by {
                assert(nodes.deep_view()[p] == before[p]);
                assert(before[p] == g.kept(i as int)[p]);
            }
            assert(nodes.deep_view() =~= g.kept(i + 1));
        }
        i = i + 1;
    }
    proof {
        pruned_is_wf(g);
    }
    let Graph { names, tensors, nodes: _, outputs } = graph;
    let pruned = Graph { names, tensors, nodes, outputs };
    proof {
        assert(pruned.deep_view().nodes == g.kept(g.nodes.len() as int));
    }
    pruned
}

} // verus!
