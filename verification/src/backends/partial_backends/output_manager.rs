use super::adjacency::{
    edge_agrees, edges_closed, graph_add_edge, graph_edges, graph_nodes, graph_remove_edge,
    graph_tracks, lemma_edges_from_agreement,
};
use super::physical_output::PhysicalOutput;
use super::registry::{
    layout_has, layout_nodes, layout_wf, lemma_distinct_ids, Registry, RegistryEntry,
};
use crate::definitions::common::{Position2D, Size2D};
use crate::definitions::event::output_event::OutputId;
use petgraph::graphmap::GraphMap;
use petgraph::Undirected;
use std::hash::RandomState;
use vstd::prelude::*;

verus! {

/// A change of the layout. The placement policy proposes changes in this
/// form, and the keeper reports in this form what it has done.
#[derive(Debug, Clone, Copy, PartialEq)]
pub enum PhysicalOutputEvent {
    Added { id: OutputId, output: PhysicalOutput },
    Moved { id: OutputId, position: Position2D<u32> },
    Removed { id: OutputId },
}

/// Why a change of the layout was turned down.
#[derive(Debug, Clone, Copy, PartialEq, Eq)]
pub enum LayoutError {
    /// The output to move or to remove is not registered.
    UnknownOutput,
    /// The output to add is registered already.
    DuplicateOutput,
    /// The rectangle has no extent, or reaches beyond the coordinate space.
    InvalidGeometry,
}

/// The placement policy: it proposes the changes with which a request is to be
/// met. It reads the graph and the registry and writes neither.
///
/// A policy says in its three relations what it may propose. Each relation
/// speaks of the policy as it is before the request, of the nodes and edges
/// of the graph and the layout of the registry that it is shown, of the
/// arguments of the request, of the proposal, and of the policy as the
/// request leaves it. A policy that says nothing of its own may propose
/// anything.
pub trait OutputManager: Sized {
    /// The policy may answer a request to add the output `id` of extent
    /// `size` with `proposed`, and be `after` then.
    open spec fn proposes_on_add(
        &self,
        nodes: Set<usize>,
        edges: Set<(usize, usize)>,
        layout: Seq<RegistryEntry>,
        id: OutputId,
        size: Size2D<u32>,
        proposed: Seq<PhysicalOutputEvent>,
        after: Self,
    ) -> bool {
        true
    }

    /// The policy may answer a request to move the output `id` to `position`
    /// with `proposed`, and be `after` then.
    open spec fn proposes_on_move(
        &self,
        nodes: Set<usize>,
        edges: Set<(usize, usize)>,
        layout: Seq<RegistryEntry>,
        id: OutputId,
        position: Position2D<u32>,
        proposed: Seq<PhysicalOutputEvent>,
        after: Self,
    ) -> bool {
        true
    }

    /// The policy may answer a request to remove the output `id` with
    /// `proposed`, and be `after` then.
    open spec fn proposes_on_remove(
        &self,
        nodes: Set<usize>,
        edges: Set<(usize, usize)>,
        layout: Seq<RegistryEntry>,
        id: OutputId,
        proposed: Seq<PhysicalOutputEvent>,
        after: Self,
    ) -> bool {
        true
    }

    fn on_add(
        &mut self,
        graph: &GraphMap<usize, (), Undirected, RandomState>,
        outputs: &Registry,
        id: OutputId,
        size: Size2D<u32>,
    ) -> (proposed: Vec<PhysicalOutputEvent>)
        ensures
            old(self).proposes_on_add(
                graph_nodes(*graph),
                graph_edges(*graph),
                outputs@,
                id,
                size,
                proposed@,
                *final(self),
            ),
    ;

    fn on_move(
        &mut self,
        graph: &GraphMap<usize, (), Undirected, RandomState>,
        outputs: &Registry,
        id: OutputId,
        position: Position2D<u32>,
    ) -> (proposed: Vec<PhysicalOutputEvent>)
        ensures
            old(self).proposes_on_move(
                graph_nodes(*graph),
                graph_edges(*graph),
                outputs@,
                id,
                position,
                proposed@,
                *final(self),
            ),
    ;

    fn on_remove(
        &mut self,
        graph: &GraphMap<usize, (), Undirected, RandomState>,
        outputs: &Registry,
        id: OutputId,
    ) -> (proposed: Vec<PhysicalOutputEvent>)
        ensures
            old(self).proposes_on_remove(
                graph_nodes(*graph),
                graph_edges(*graph),
                outputs@,
                id,
                proposed@,
                *final(self),
            ),
    ;
}

/// Sets the edge between the entries at `i` and `j` to what their rectangles
/// say: there when they touch, gone when they do not.
pub(crate) fn sync_edge(
    graph: &mut GraphMap<usize, (), Undirected, RandomState>,
    registry: &Registry,
    i: usize,
    j: usize,
)
    requires
        registry.wf(),
        i < registry@.len(),
        j < registry@.len(),
        i != j,
        graph_nodes(*old(graph)) =~= layout_nodes(registry@),
        edges_closed(graph_edges(*old(graph)), registry@),
    ensures
        graph_nodes(*final(graph)) =~= layout_nodes(registry@),
        edges_closed(graph_edges(*final(graph)), registry@),
        edge_agrees(graph_edges(*final(graph)), registry@, i as int, j as int),
        edge_agrees(graph_edges(*final(graph)), registry@, j as int, i as int),
        forall|a: usize, b: usize|
            !(a == registry@[i as int].id.0 && b == registry@[j as int].id.0) && !(a
                == registry@[j as int].id.0 && b == registry@[i as int].id.0) ==> (graph_edges(
                *final(graph),
            ).contains((a, b)) <==> graph_edges(*old(graph)).contains((a, b))),
{
    let first = registry.entry(i);
    let second = registry.entry(j);
    proof {
        lemma_distinct_ids(registry@, i as int, j as int);
        super::physical_output::lemma_adjacent_symmetric(first.output, second.output);
        assert(registry@[i as int].id == OutputId(first.id.0));
        assert(registry@[j as int].id == OutputId(second.id.0));
        assert(layout_has(registry@, OutputId(first.id.0)));
        assert(layout_has(registry@, OutputId(second.id.0)));
    }
    if first.output.is_adjacent(&second.output) {
        graph_add_edge(graph, first.id.0, second.id.0);
    } else {
        graph_remove_edge(graph, first.id.0, second.id.0);
    }
}

/// Brings the edges of the entry at `index` up to date: afterwards the graph
/// mirrors the layout, given that it did so for every other pair of entries.
pub(crate) fn rebuild_neighbors(
    graph: &mut GraphMap<usize, (), Undirected, RandomState>,
    registry: &Registry,
    index: usize,
)
    requires
        registry.wf(),
        index < registry@.len(),
        graph_nodes(*old(graph)) =~= layout_nodes(registry@),
        edges_closed(graph_edges(*old(graph)), registry@),
        forall|i: int, j: int|
            0 <= i < registry@.len() && 0 <= j < registry@.len() && i != index && j != index
                ==> #[trigger] edge_agrees(graph_edges(*old(graph)), registry@, i, j),
    ensures
        graph_tracks(*final(graph), registry@),
{
    let ghost layout = registry@;
    let mut other: usize = 0;
    while other < registry.len()
        invariant
            layout == registry@,
            layout_wf(layout),
            index < layout.len(),
            other <= layout.len(),
            graph_nodes(*graph) =~= layout_nodes(layout),
            edges_closed(graph_edges(*graph), layout),
            forall|i: int, j: int|
                0 <= i < layout.len() && 0 <= j < layout.len() && i != index && j != index
                    ==> #[trigger] edge_agrees(graph_edges(*graph), layout, i, j),
            forall|j: int|
                0 <= j < other ==> #[trigger] edge_agrees(
                    graph_edges(*graph),
                    layout,
                    index as int,
                    j,
                ) && edge_agrees(graph_edges(*graph), layout, j, index as int),
        decreases layout.len() - other,
    {
        if other != index {
            let ghost before = graph_edges(*graph);
            sync_edge(graph, registry, index, other);
            proof {
                let after = graph_edges(*graph);
                assert forall|i: int, j: int|
                    0 <= i < layout.len() && 0 <= j < layout.len() && i != index && j
                        != index implies #[trigger] edge_agrees(after, layout, i, j) by {
                    assert(edge_agrees(before, layout, i, j));
                    lemma_distinct_ids(layout, i, index as int);
                    lemma_distinct_ids(layout, j, index as int);
                }
                assert forall|j: int| 0 <= j < other + 1 implies #[trigger] edge_agrees(
                    after,
                    layout,
                    index as int,
                    j,
                ) && edge_agrees(after, layout, j, index as int) by {
                    if j < other {
                        assert(edge_agrees(before, layout, index as int, j));
                        assert(edge_agrees(before, layout, j, index as int));
                        lemma_distinct_ids(layout, j, other as int);
                        if j != index {
                            lemma_distinct_ids(layout, j, index as int);
                        }
                    }
                }
            }
        } else {
            assert(!graph_edges(*graph).contains(
                (layout[index as int].id.0, layout[index as int].id.0),
            ));
            assert(edge_agrees(graph_edges(*graph), layout, index as int, index as int));
        }
        other += 1;
    }
    proof {
        let edges = graph_edges(*graph);
        assert forall|i: int, j: int|
            0 <= i < layout.len() && 0 <= j < layout.len() implies #[trigger] edge_agrees(
            edges,
            layout,
            i,
            j,
        ) by {
            if i == index {
                assert(edge_agrees(edges, layout, index as int, j));
            } else if j == index {
                assert(edge_agrees(edges, layout, index as int, i));
            }
        }
        lemma_edges_from_agreement(edges, layout);
    }
}

/// Sets every edge anew from the rectangles: afterwards the graph mirrors the
/// layout.
pub(crate) fn rebuild_edges(
    graph: &mut GraphMap<usize, (), Undirected, RandomState>,
    registry: &Registry,
)
    requires
        registry.wf(),
        graph_nodes(*old(graph)) =~= layout_nodes(registry@),
        edges_closed(graph_edges(*old(graph)), registry@),
    ensures
        graph_tracks(*final(graph), registry@),
{
    let ghost layout = registry@;
    let mut first: usize = 0;
    while first < registry.len()
        invariant
            layout == registry@,
            layout_wf(layout),
            first <= layout.len(),
            graph_nodes(*graph) =~= layout_nodes(layout),
            edges_closed(graph_edges(*graph), layout),
            forall|i: int, j: int|
                0 <= i < first && 0 <= j < layout.len() ==> #[trigger] edge_agrees(
                    graph_edges(*graph),
                    layout,
                    i,
                    j,
                ) && edge_agrees(graph_edges(*graph), layout, j, i),
        decreases layout.len() - first,
    {
        let mut second: usize = 0;
        while second < registry.len()
            invariant
                layout == registry@,
                layout_wf(layout),
                first < layout.len(),
                second <= layout.len(),
                graph_nodes(*graph) =~= layout_nodes(layout),
                edges_closed(graph_edges(*graph), layout),
                forall|i: int, j: int|
                    0 <= i < first && 0 <= j < layout.len() ==> #[trigger] edge_agrees(
                        graph_edges(*graph),
                        layout,
                        i,
                        j,
                    ) && edge_agrees(graph_edges(*graph), layout, j, i),
                forall|j: int|
                    0 <= j < second ==> #[trigger] edge_agrees(
                        graph_edges(*graph),
                        layout,
                        first as int,
                        j,
                    ) && edge_agrees(graph_edges(*graph), layout, j, first as int),
            decreases layout.len() - second,
        {
            if second != first {
                let ghost before = graph_edges(*graph);
                sync_edge(graph, registry, first, second);
                proof {
                    let after = graph_edges(*graph);
                    assert forall|i: int, j: int|
                        0 <= i < first && 0 <= j < layout.len() implies #[trigger] edge_agrees(
                        after,
                        layout,
                        i,
                        j,
                    ) && edge_agrees(after, layout, j, i) by {
                        assert(edge_agrees(before, layout, i, j));
                        assert(edge_agrees(before, layout, j, i));
                        lemma_distinct_ids(layout, i, first as int);
                        if i != second {
                            lemma_distinct_ids(layout, i, second as int);
                        }
                        if j != first {
                            lemma_distinct_ids(layout, j, first as int);
                        }
                        if j != second {
                            lemma_distinct_ids(layout, j, second as int);
                        }
                    }
                    assert forall|j: int| 0 <= j < second + 1 implies #[trigger] edge_agrees(
                        after,
                        layout,
                        first as int,
                        j,
                    ) && edge_agrees(after, layout, j, first as int) by {
                        if j < second {
                            assert(edge_agrees(before, layout, first as int, j));
                            assert(edge_agrees(before, layout, j, first as int));
                            lemma_distinct_ids(layout, j, second as int);
                            if j != first {
                                lemma_distinct_ids(layout, j, first as int);
                            }
                        }
                    }
                }
            } else {
                assert(!graph_edges(*graph).contains(
                    (layout[first as int].id.0, layout[first as int].id.0),
                ));
                assert(edge_agrees(graph_edges(*graph), layout, first as int, first as int));
            }
            second += 1;
        }
        proof {
            let edges = graph_edges(*graph);
            assert forall|i: int, j: int|
                0 <= i < first + 1 && 0 <= j < layout.len() implies #[trigger] edge_agrees(
                edges,
                layout,
                i,
                j,
            ) && edge_agrees(edges, layout, j, i) by {
                if i == first {
                    assert(edge_agrees(edges, layout, first as int, j));
                } else {
                    assert(edge_agrees(edges, layout, i, j));
                }
            }
        }
        first += 1;
    }
    proof {
        lemma_edges_from_agreement(graph_edges(*graph), layout);
    }
}

} // verus!
