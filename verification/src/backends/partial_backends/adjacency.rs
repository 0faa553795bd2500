use super::reach::connects;
use super::registry::{
    joined, layout_edge, layout_edges, layout_has, layout_nodes, layout_wf, lemma_distinct_ids,
    lemma_edge_of_entries, lemma_unique_index, RegistryEntry,
};
use crate::definitions::event::output_event::OutputId;
use petgraph::graphmap::GraphMap;
use petgraph::visit::Dfs;
use petgraph::Undirected;
use std::hash::BuildHasher;
use std::hash::RandomState;
use vstd::prelude::*;

verus! {

/// `petgraph::graphmap::GraphMap`, taken as it is: nothing is known of what is
/// inside but what the functions below say.
#[verifier::external_type_specification]
#[verifier::external_body]
#[verifier::reject_recursive_types(N)]
#[verifier::reject_recursive_types(E)]
#[verifier::reject_recursive_types(Ty)]
#[verifier::reject_recursive_types(S)]
pub struct ExGraphMap<N, E, Ty, S: BuildHasher>(GraphMap<N, E, Ty, S>);

/// `petgraph::Undirected`, the marker of graphs whose edges have no direction.
#[verifier::external_type_specification]
#[verifier::external_body]
pub struct ExUndirected(Undirected);

/// The nodes that the graph holds.
pub uninterp spec fn graph_nodes(graph: GraphMap<usize, (), Undirected, RandomState>) -> Set<usize>;

/// The pairs `(a, b)` for which the graph holds an edge between `a` and `b`.
/// The graph is undirected: it holds `(b, a)` with `(a, b)`.
pub uninterp spec fn graph_edges(graph: GraphMap<usize, (), Undirected, RandomState>) -> Set<
    (usize, usize),
>;

/// `GraphMap::new`: a graph without nodes and without edges.
#[verifier::external_body]
pub(crate) fn graph_new() -> (graph: GraphMap<usize, (), Undirected, RandomState>)
    ensures
        graph_nodes(graph) == Set::<usize>::empty(),
        graph_edges(graph) == Set::<(usize, usize)>::empty(),
{
    GraphMap::new()
}

/// `GraphMap::add_node`: the node joins the nodes; the edges stay as they are.
#[verifier::external_body]
pub(crate) fn graph_add_node(graph: &mut GraphMap<usize, (), Undirected, RandomState>, node: usize)
    ensures
        graph_nodes(*final(graph)) == graph_nodes(*old(graph)).insert(node),
        graph_edges(*final(graph)) == graph_edges(*old(graph)),
{
    graph.add_node(node);
}

/// `GraphMap::remove_node`: the node leaves the nodes, and with it every edge
/// that it is an end of; the other edges stay.
#[verifier::external_body]
pub(crate) fn graph_remove_node(
    graph: &mut GraphMap<usize, (), Undirected, RandomState>,
    node: usize,
)
    ensures
        graph_nodes(*final(graph)) == graph_nodes(*old(graph)).remove(node),
        graph_edges(*final(graph)) == graph_edges(*old(graph)).filter(
            |pair: (usize, usize)| pair.0 != node && pair.1 != node,
        ),
{
    graph.remove_node(node);
}

/// `GraphMap::add_edge` with the unit weight: the edge between `a` and `b` is
/// there afterwards, in both directions, and both ends are nodes; nothing else
/// changes.
#[verifier::external_body]
pub(crate) fn graph_add_edge(
    graph: &mut GraphMap<usize, (), Undirected, RandomState>,
    a: usize,
    b: usize,
)
    ensures
        graph_nodes(*final(graph)) == graph_nodes(*old(graph)).insert(a).insert(b),
        graph_edges(*final(graph)) == graph_edges(*old(graph)).insert((a, b)).insert((b, a)),
{
    graph.add_edge(a, b, ());
}

/// `GraphMap::remove_edge`: the edge between `a` and `b` is gone afterwards, in
/// both directions; the nodes and the other edges stay.
#[verifier::external_body]
pub(crate) fn graph_remove_edge(
    graph: &mut GraphMap<usize, (), Undirected, RandomState>,
    a: usize,
    b: usize,
)
    ensures
        graph_nodes(*final(graph)) == graph_nodes(*old(graph)),
        graph_edges(*final(graph)) == graph_edges(*old(graph)).remove((a, b)).remove((b, a)),
{
    graph.remove_edge(a, b);
}

/// `Dfs::new` from `start`, then `Dfs::next` until the traversal is done: the
/// nodes that come out are those that a walk along the graph's edges reaches
/// from `start`, each once. `start` itself comes out whether the graph holds
/// it or not.
#[verifier::external_body]
pub(crate) fn graph_reachable(
    graph: &GraphMap<usize, (), Undirected, RandomState>,
    start: usize,
) -> (found: Vec<usize>)
    ensures
        forall|node: usize| found@.contains(node) <==> connects(graph_edges(*graph), start, node),
        found@.no_duplicates(),
{
    let mut dfs = Dfs::new(graph, start);
    let mut found = Vec::new();
    while let Some(node) = dfs.next(graph) {
        found.push(node);
    }
    found
}

/// No edge joins a node to itself, and both ends of every edge are registered.
pub open spec fn edges_closed(edges: Set<(usize, usize)>, layout: Seq<RegistryEntry>) -> bool {
    forall|a: usize, b: usize| #[trigger]
        edges.contains((a, b)) ==> a != b && layout_has(layout, OutputId(a)) && layout_has(
            layout,
            OutputId(b),
        )
}

/// The edge between the entries at `i` and `j` is there exactly when the two
/// entries are different outputs that touch.
pub open spec fn edge_agrees(edges: Set<(usize, usize)>, layout: Seq<RegistryEntry>, i: int, j: int)
    -> bool {
    edges.contains((layout[i].id.0, layout[j].id.0)) <==> joined(layout, i, j)
}

/// The graph mirrors the layout: its nodes are the registered outputs, its
/// edges the pairs of outputs that touch.
pub open spec fn graph_tracks(
    graph: GraphMap<usize, (), Undirected, RandomState>,
    layout: Seq<RegistryEntry>,
) -> bool {
    &&& graph_nodes(graph) =~= layout_nodes(layout)
    &&& graph_edges(graph) =~= layout_edges(layout)
}

/// An edge set that is closed and agrees with the layout on every pair of
/// entries is the adjacency relation of the layout.
pub proof fn lemma_edges_from_agreement(edges: Set<(usize, usize)>, layout: Seq<RegistryEntry>)
    requires
        layout_wf(layout),
        edges_closed(edges, layout),
        forall|i: int, j: int|
            0 <= i < layout.len() && 0 <= j < layout.len() ==> #[trigger] edge_agrees(
                edges,
                layout,
                i,
                j,
            ),
    ensures
        edges =~= layout_edges(layout),
{
    assert forall|pair: (usize, usize)| edges.contains(pair) <==> layout_edges(layout).contains(
        pair,
    ) by {
        if edges.contains(pair) {
            assert(edges.contains((pair.0, pair.1)));
            let i = choose|i: int| 0 <= i < layout.len() && #[trigger] layout[i].id == OutputId(pair.0);
            let j = choose|j: int| 0 <= j < layout.len() && #[trigger] layout[j].id == OutputId(pair.1);
            assert(edge_agrees(edges, layout, i, j));
            assert(joined(layout, i, j));
            assert(layout_edge(layout, pair.0, pair.1));
        }
        if layout_edges(layout).contains(pair) {
            let (i, j) = choose|i: int, j: int| #[trigger]
                joined(layout, i, j) && layout[i].id.0 == pair.0 && layout[j].id.0 == pair.1;
            assert(edge_agrees(edges, layout, i, j));
        }
    }
}

/// The adjacency relation of a well-formed layout is closed and agrees with
/// the layout on every pair of entries.
pub proof fn lemma_agreement_from_edges(layout: Seq<RegistryEntry>)
    requires
        layout_wf(layout),
    ensures
        edges_closed(layout_edges(layout), layout),
        forall|i: int, j: int|
            0 <= i < layout.len() && 0 <= j < layout.len() ==> #[trigger] edge_agrees(
                layout_edges(layout),
                layout,
                i,
                j,
            ),
{
    let edges = layout_edges(layout);
    assert forall|a: usize, b: usize| #[trigger] edges.contains((a, b)) implies a != b
        && layout_has(layout, OutputId(a)) && layout_has(layout, OutputId(b)) by {
        let (i, j) = choose|i: int, j: int| #[trigger]
            joined(layout, i, j) && layout[i].id.0 == a && layout[j].id.0 == b;
        assert(layout[i].id == OutputId(a));
        assert(layout[j].id == OutputId(b));
        if a == b {
            lemma_unique_index(layout, i, j);
        }
    }
    assert forall|i: int, j: int|
        0 <= i < layout.len() && 0 <= j < layout.len() implies #[trigger] edge_agrees(
        edges,
        layout,
        i,
        j,
    ) by {
        lemma_edge_of_entries(layout, i, j);
    }
}

} // verus!

verus! {

/// Registering one more output: the layout stays well-formed, its nodes gain
/// the new output, and the old adjacency relation still fits the old entries.
pub proof fn lemma_push_layout(layout: Seq<RegistryEntry>, entry: RegistryEntry)
    requires
        layout_wf(layout),
        !layout_has(layout, entry.id),
        entry.output.valid(),
    ensures
        layout_wf(layout.push(entry)),
        layout_nodes(layout.push(entry)) =~= layout_nodes(layout).insert(entry.id.0),
        edges_closed(layout_edges(layout), layout.push(entry)),
        forall|i: int, j: int|
            0 <= i < layout.len() && 0 <= j < layout.len() ==> #[trigger] edge_agrees(
                layout_edges(layout),
                layout.push(entry),
                i,
                j,
            ),
{
    let pushed = layout.push(entry);
    assert forall|i: int, j: int| 0 <= i < j < pushed.len() implies #[trigger] pushed[i].id
        != #[trigger] pushed[j].id by {
        if j == layout.len() {
            assert(layout[i].id == pushed[i].id);
        } else {
            assert(layout[i].id != layout[j].id);
        }
    }
    assert forall|id: OutputId| layout_has(pushed, id) <==> (layout_has(layout, id) || id
        == entry.id) by {
        if layout_has(pushed, id) {
            let i = choose|i: int| 0 <= i < pushed.len() && #[trigger] pushed[i].id == id;
            if i < layout.len() {
                assert(layout[i].id == id);
            }
        }
        if layout_has(layout, id) {
            let i = choose|i: int| 0 <= i < layout.len() && #[trigger] layout[i].id == id;
            assert(pushed[i].id == id);
        }
        if id == entry.id {
            assert(pushed[layout.len() as int].id == id);
        }
    }
    assert forall|n: usize| layout_nodes(pushed).contains(n) <==> layout_nodes(layout).insert(
        entry.id.0,
    ).contains(n) by {
        assert(layout_has(pushed, OutputId(n)) <==> (layout_has(layout, OutputId(n)) || OutputId(n)
            == entry.id));
    }
    lemma_agreement_from_edges(layout);
    let edges = layout_edges(layout);
    assert forall|a: usize, b: usize| #[trigger] edges.contains((a, b)) implies a != b
        && layout_has(pushed, OutputId(a)) && layout_has(pushed, OutputId(b)) by {
        assert(layout_has(pushed, OutputId(a)) <==> (layout_has(layout, OutputId(a)) || OutputId(a)
            == entry.id));
        assert(layout_has(pushed, OutputId(b)) <==> (layout_has(layout, OutputId(b)) || OutputId(b)
            == entry.id));
    }
    assert forall|i: int, j: int|
        0 <= i < layout.len() && 0 <= j < layout.len() implies #[trigger] edge_agrees(
        edges,
        pushed,
        i,
        j,
    ) by {
        assert(edge_agrees(edges, layout, i, j));
    }
}

/// Taking an output out: the layout stays well-formed, its nodes lose the
/// output, and its adjacency relation loses the pairs that name the output.
pub proof fn lemma_remove_layout(layout: Seq<RegistryEntry>, index: int)
    requires
        layout_wf(layout),
        0 <= index < layout.len(),
    ensures
        layout_wf(layout.remove(index)),
        layout_nodes(layout.remove(index)) =~= layout_nodes(layout).remove(layout[index].id.0),
        layout_edges(layout.remove(index)) =~= layout_edges(layout).filter(
            |pair: (usize, usize)| pair.0 != layout[index].id.0 && pair.1 != layout[index].id.0,
        ),
{
    let left = layout.remove(index);
    let gone = layout[index].id;
    assert forall|i: int| 0 <= i < left.len() implies left[i] == layout[if i < index {
        i
    } else {
        i + 1
    }] by {}
    assert forall|i: int, j: int| 0 <= i < j < left.len() implies #[trigger] left[i].id
        != #[trigger] left[j].id by {
        let p = if i < index { i } else { i + 1 };
        let q = if j < index { j } else { j + 1 };
        assert(layout[p].id != layout[q].id);
    }
    assert forall|i: int| 0 <= i < left.len() implies #[trigger] left[i].output.valid() by {
        let p = if i < index { i } else { i + 1 };
        assert(layout[p].output.valid());
    }
    assert forall|id: OutputId| layout_has(left, id) <==> (layout_has(layout, id) && id
        != gone) by {
        if layout_has(left, id) {
            let i = choose|i: int| 0 <= i < left.len() && #[trigger] left[i].id == id;
            let p = if i < index { i } else { i + 1 };
            assert(layout[p].id == id);
            lemma_distinct_ids(layout, p, index);
        }
        if layout_has(layout, id) && id != gone {
            let p = choose|p: int| 0 <= p < layout.len() && #[trigger] layout[p].id == id;
            let i = if p < index { p } else { p - 1 };
            assert(left[i].id == id);
        }
    }
    assert forall|n: usize| layout_nodes(left).contains(n) <==> layout_nodes(layout).remove(
        gone.0,
    ).contains(n) by {
        assert(layout_has(left, OutputId(n)) <==> (layout_has(layout, OutputId(n)) && OutputId(n)
            != gone));
    }
    let kept = layout_edges(layout).filter(
        |pair: (usize, usize)| pair.0 != gone.0 && pair.1 != gone.0,
    );
    assert forall|pair: (usize, usize)| layout_edges(left).contains(pair) <==> kept.contains(
        pair,
    ) by {
        if layout_edges(left).contains(pair) {
            let (i, j) = choose|i: int, j: int| #[trigger]
                joined(left, i, j) && left[i].id.0 == pair.0 && left[j].id.0 == pair.1;
            let p = if i < index { i } else { i + 1 };
            let q = if j < index { j } else { j + 1 };
            assert(joined(layout, p, q));
            lemma_distinct_ids(layout, p, index);
            lemma_distinct_ids(layout, q, index);
            assert(layout_edge(layout, pair.0, pair.1));
        }
        if kept.contains(pair) {
            let (p, q) = choose|p: int, q: int| #[trigger]
                joined(layout, p, q) && layout[p].id.0 == pair.0 && layout[q].id.0 == pair.1;
            let i = if p < index { p } else { p - 1 };
            let j = if q < index { q } else { q - 1 };
            assert(left[i] == layout[p]);
            assert(left[j] == layout[q]);
            assert(joined(left, i, j));
            assert(layout_edge(left, pair.0, pair.1));
        }
    }
}

} // verus!
