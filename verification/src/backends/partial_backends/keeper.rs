use super::adjacency::{
    edges_closed, graph_add_node, graph_edges, graph_new, graph_nodes, graph_reachable,
    graph_remove_node, graph_tracks, lemma_agreement_from_edges, lemma_push_layout,
    lemma_remove_layout,
};
use super::groups::{
    ids_at, index_groups, layout_groups, layout_index_groups, list_contains, nested_view,
};
use super::output_manager::{
    rebuild_edges, rebuild_neighbors, LayoutError, OutputManager, PhysicalOutputEvent,
};
use super::physical_output::PhysicalOutput;
use super::registry::{
    layout_connects, layout_edges, layout_has, layout_nodes, layout_wf, lemma_unique_index,
    Registry, RegistryEntry,
};
use super::repair::{lemma_layout_groups, lemma_same_ids_same_nodes, repair, merge_groups};
use crate::definitions::common::{Position2D, Size2D};
use crate::definitions::event::output_event::OutputId;
use petgraph::graphmap::GraphMap;
use petgraph::Undirected;
use std::hash::RandomState;
use vstd::prelude::*;

verus! {

/// The index at which the layout holds the output.
pub open spec fn layout_index(layout: Seq<RegistryEntry>, id: OutputId) -> int {
    choose|i: int| 0 <= i < layout.len() && #[trigger] layout[i].id == id
}

/// What one change does to a layout: the layout afterwards and the notices, or
/// the reason why the change is turned down. An output is added behind the
/// others and nothing is repaired; after a move or a removal the layout is
/// repaired, and the notices of the repair follow the notice of the change.
pub open spec fn apply_event_spec(layout: Seq<RegistryEntry>, event: PhysicalOutputEvent) -> Result<
    (Seq<RegistryEntry>, Seq<PhysicalOutputEvent>),
    LayoutError,
> {
    match event {
        PhysicalOutputEvent::Added { id, output } => {
            if layout_has(layout, id) {
                Err(LayoutError::DuplicateOutput)
            } else if !output.valid() {
                Err(LayoutError::InvalidGeometry)
            } else {
                Ok((layout.push(RegistryEntry { id, output }), seq![event]))
            }
        },
        PhysicalOutputEvent::Moved { id, position } => {
            if !layout_has(layout, id) {
                Err(LayoutError::UnknownOutput)
            } else {
                let index = layout_index(layout, id);
                let output = PhysicalOutput { position, size: layout[index].output.size };
                if !output.valid() {
                    Err(LayoutError::InvalidGeometry)
                } else {
                    let placed = layout.update(index, RegistryEntry { id, output });
                    let repaired = repair(placed, placed.len());
                    Ok((repaired.0, seq![event] + repaired.1))
                }
            }
        },
        PhysicalOutputEvent::Removed { id } => {
            if !layout_has(layout, id) {
                Err(LayoutError::UnknownOutput)
            } else {
                let left = layout.remove(layout_index(layout, id));
                let repaired = repair(left, left.len());
                Ok((repaired.0, seq![event] + repaired.1))
            }
        },
    }
}

/// What a list of changes does to a layout, one change after the other. A
/// change that is turned down changes nothing and leaves no notice.
pub open spec fn apply_events_spec(layout: Seq<RegistryEntry>, events: Seq<PhysicalOutputEvent>) -> (
    Seq<RegistryEntry>,
    Seq<PhysicalOutputEvent>,
)
    decreases events.len(),
{
    if events.len() == 0 {
        (layout, Seq::empty())
    } else {
        let before = apply_events_spec(layout, events.drop_last());
        match apply_event_spec(before.0, events.last()) {
            Ok(step) => (step.0, before.1 + step.1),
            Err(_) => before,
        }
    }
}

/// The entry at `best` is the nearest to the entry at `index` among the other
/// entries, and the first of those that are equally near.
pub open spec fn is_nearest(layout: Seq<RegistryEntry>, index: int, best: int) -> bool {
    &&& 0 <= best < layout.len()
    &&& best != index
    &&& forall|j: int|
        0 <= j < layout.len() && j != index ==> {
            let distance = #[trigger] layout[index].output.spec_distance_squared(layout[j].output);
            let least = layout[index].output.spec_distance_squared(layout[best].output);
            distance > least || (distance == least && best <= j)
        }
}

/// Keeps the layout of the outputs in one piece. It owns the registry and the
/// adjacency graph, applies the changes that the placement policy proposes,
/// and repairs the layout whenever a move or a removal makes it fall apart.
pub struct OutputConstraintKeeper<T: OutputManager> {
    output_manager: T,
    outputs: Registry,
    graph: GraphMap<usize, (), Undirected, RandomState>,
}

impl<T: OutputManager> View for OutputConstraintKeeper<T> {
    type V = Seq<RegistryEntry>;

    closed spec fn view(&self) -> Seq<RegistryEntry> {
        self.outputs@
    }
}

impl<T: OutputManager> OutputConstraintKeeper<T> {
    /// The registry is well-formed and the graph mirrors it.
    pub closed spec fn wf(&self) -> bool {
        &&& self.outputs.wf()
        &&& graph_tracks(self.graph, self.outputs@)
    }

    /// The placement policy that the keeper asks.
    pub closed spec fn policy(&self) -> T {
        self.output_manager
    }

    /// The nodes of the adjacency graph.
    pub closed spec fn graph_node_set(&self) -> Set<usize> {
        graph_nodes(self.graph)
    }

    /// The edges of the adjacency graph.
    pub closed spec fn graph_edge_set(&self) -> Set<(usize, usize)> {
        graph_edges(self.graph)
    }

    /// The registry and the graph never part: the nodes of the graph are the
    /// registered outputs, its edges the pairs of outputs that touch, and the
    /// registry names no output twice.
    pub proof fn lemma_registry_and_graph_agree(&self)
        requires
            self.wf(),
        ensures
            layout_wf(self@),
            self.graph_node_set() == layout_nodes(self@),
            self.graph_edge_set() == layout_edges(self@),
            forall|n: usize| self.graph_node_set().contains(n) <==> layout_has(self@, OutputId(n)),
    {
    }

    pub fn new(output_manager: T) -> (keeper: Self)
        ensures
            keeper.wf(),
            keeper@ == Seq::<RegistryEntry>::empty(),
            keeper.policy() == output_manager,
    {
        let keeper = Self { output_manager, outputs: Registry::new(), graph: graph_new() };
        proof {
            assert(layout_nodes(keeper.outputs@) =~= Set::<usize>::empty());
            assert(layout_edges(keeper.outputs@) =~= Set::<(usize, usize)>::empty());
        }
        keeper
    }

    /// The placement policy, to read.
    pub fn output_manager(&self) -> (policy: &T)
        ensures
            *policy == self.policy(),
    {
        &self.output_manager
    }

    /// The registry, to read.
    pub fn outputs(&self) -> (outputs: &Registry)
        ensures
            outputs@ == self@,
    {
        &self.outputs
    }

    /// The adjacency graph, to read.
    pub fn graph(&self) -> (graph: &GraphMap<usize, (), Undirected, RandomState>)
        ensures
            graph_nodes(*graph) == self.graph_node_set(),
            graph_edges(*graph) == self.graph_edge_set(),
    {
        &self.graph
    }

    /// Applies one change. An output to add must be new and its rectangle
    /// valid; an output to move or to remove must be registered, and a moved
    /// rectangle must be valid. After a move or a removal the layout is
    /// repaired. The result holds the notice of the change and, behind it, the
    /// notices of the repair.
    pub fn apply_event(&mut self, event: PhysicalOutputEvent) -> (result: Result<
        Vec<PhysicalOutputEvent>,
        LayoutError,
    >)
        requires
            old(self).wf(),
        ensures
            final(self).wf(),
            final(self).policy() == old(self).policy(),
            match result {
                Ok(events) => apply_event_spec(old(self)@, event) == Ok::<
                    (Seq<RegistryEntry>, Seq<PhysicalOutputEvent>),
                    LayoutError,
                >((final(self)@, events@)),
                Err(error) => apply_event_spec(old(self)@, event) == Err::<
                    (Seq<RegistryEntry>, Seq<PhysicalOutputEvent>),
                    LayoutError,
                >(error) && final(self)@ == old(self)@,
            },
    {
        let ghost layout = self.outputs@;
        match event {
            PhysicalOutputEvent::Added { id, output } => {
                if self.outputs.contains(id) {
                    return Err(LayoutError::DuplicateOutput);
                }
                if !output.is_valid() {
                    return Err(LayoutError::InvalidGeometry);
                }
                let entry = RegistryEntry { id, output };
                let index = self.outputs.len();
                self.outputs.push(entry);
                graph_add_node(&mut self.graph, id.0);
                proof {
                    lemma_push_layout(layout, entry);
                }
                rebuild_neighbors(&mut self.graph, &self.outputs, index);
                let mut events: Vec<PhysicalOutputEvent> = Vec::new();
                events.push(event);
                assert(events@ =~= seq![event]);
                Ok(events)
            },
            PhysicalOutputEvent::Moved { id, position } => {
                let index = match self.outputs.index_of(id) {
                    Some(index) => index,
                    None => {
                        return Err(LayoutError::UnknownOutput);
                    },
                };
                proof {
                    lemma_unique_index(layout, index as int, layout_index(layout, id));
                }
                let size = self.outputs.entry(index).output.size;
                let output = PhysicalOutput { position, size };
                if !output.is_valid() {
                    return Err(LayoutError::InvalidGeometry);
                }
                self.outputs.set_position(index, position);
                proof {
                    let placed = self.outputs@;
                    assert(placed == layout.update(index as int, RegistryEntry { id, output }));
                    assert forall|i: int, j: int| 0 <= i < j < placed.len() implies #[trigger] placed[i].id
                        != #[trigger] placed[j].id by {
                        assert(layout[i].id != layout[j].id);
                    }
                    assert forall|i: int| 0 <= i < placed.len() implies #[trigger] placed[i].output.valid() by {
                        if i != index {
                            assert(layout[i].output.valid());
                        }
                    }
                    lemma_agreement_from_edges(layout);
                    lemma_same_ids_same_nodes(layout, placed);
                    assert(edges_closed(graph_edges(self.graph), placed));
                }
                rebuild_edges(&mut self.graph, &self.outputs);
                let mut events: Vec<PhysicalOutputEvent> = Vec::new();
                events.push(event);
                let mut repairs = merge_groups(&mut self.graph, &mut self.outputs);
                assert(events@ + repairs@ =~= seq![event] + repairs@);
                events.append(&mut repairs);
                Ok(events)
            },
            PhysicalOutputEvent::Removed { id } => {
                let index = match self.outputs.index_of(id) {
                    Some(index) => index,
                    None => {
                        return Err(LayoutError::UnknownOutput);
                    },
                };
                proof {
                    lemma_unique_index(layout, index as int, layout_index(layout, id));
                    lemma_remove_layout(layout, index as int);
                }
                graph_remove_node(&mut self.graph, id.0);
                self.outputs.remove(index);
                let mut events: Vec<PhysicalOutputEvent> = Vec::new();
                events.push(event);
                let mut repairs = merge_groups(&mut self.graph, &mut self.outputs);
                assert(events@ + repairs@ =~= seq![event] + repairs@);
                events.append(&mut repairs);
                Ok(events)
            },
        }
    }

    /// Applies the changes one after the other. A change that is turned down
    /// is passed over. The result holds the notices of the changes that were
    /// made, each followed by the notices of the repair it gave rise to.
    pub fn apply_events(&mut self, events: Vec<PhysicalOutputEvent>) -> (applied: Vec<
        PhysicalOutputEvent,
    >)
        requires
            old(self).wf(),
        ensures
            final(self).wf(),
            final(self).policy() == old(self).policy(),
            (final(self)@, applied@) == apply_events_spec(old(self)@, events@),
    {
        let ghost start = self.outputs@;
        let mut applied: Vec<PhysicalOutputEvent> = Vec::new();
        let mut at: usize = 0;
        while at < events.len()
            invariant
                self.wf(),
                self.policy() == old(self).policy(),
                at <= events@.len(),
                (self@, applied@) == apply_events_spec(start, events@.take(at as int)),
            decreases events@.len() - at,
        {
            let event = events[at];
            proof {
                assert(events@.take(at + 1).drop_last() =~= events@.take(at as int));
                assert(events@.take(at + 1).last() == event);
            }
            match self.apply_event(event) {
                Ok(mut notices) => {
                    applied.append(&mut notices);
                },
                Err(_) => {},
            }
            at += 1;
        }
        assert(events@.take(at as int) =~= events@);
        applied
    }

    /// Registers an output. The keeper asks the policy once, through
    /// `on_add`, showing it the graph and the registry as they are and
    /// handing on the handle and the extent, and applies what the policy
    /// proposes. The result is what `apply_events` returns for the proposal.
    pub fn add_output(&mut self, id: OutputId, size: Size2D<u32>) -> (events: Vec<
        PhysicalOutputEvent,
    >)
        requires
            old(self).wf(),
        ensures
            final(self).wf(),
            exists|proposed: Seq<PhysicalOutputEvent>|
                old(self).policy().proposes_on_add(
                    old(self).graph_node_set(),
                    old(self).graph_edge_set(),
                    old(self)@,
                    id,
                    size,
                    proposed,
                    final(self).policy(),
                ) && (final(self)@, events@) == #[trigger] apply_events_spec(old(self)@, proposed),
    {
        let proposed = self.output_manager.on_add(&self.graph, &self.outputs, id, size);
        let ghost proposal = proposed@;
        let events = self.apply_events(proposed);
        assert(old(self).policy().proposes_on_add(
            old(self).graph_node_set(),
            old(self).graph_edge_set(),
            old(self)@,
            id,
            size,
            proposal,
            self.policy(),
        ) && (self@, events@) == apply_events_spec(old(self)@, proposal));
        events
    }

    /// Moves an output. The keeper asks the policy once, through `on_move`,
    /// showing it the graph and the registry as they are and handing on the
    /// handle and the position, and applies what the policy proposes. The
    /// result is what `apply_events` returns for the proposal.
    pub fn move_output(&mut self, id: OutputId, position: Position2D<u32>) -> (events: Vec<
        PhysicalOutputEvent,
    >)
        requires
            old(self).wf(),
        ensures
            final(self).wf(),
            exists|proposed: Seq<PhysicalOutputEvent>|
                old(self).policy().proposes_on_move(
                    old(self).graph_node_set(),
                    old(self).graph_edge_set(),
                    old(self)@,
                    id,
                    position,
                    proposed,
                    final(self).policy(),
                ) && (final(self)@, events@) == #[trigger] apply_events_spec(old(self)@, proposed),
    {
        let proposed = self.output_manager.on_move(&self.graph, &self.outputs, id, position);
        let ghost proposal = proposed@;
        let events = self.apply_events(proposed);
        assert(old(self).policy().proposes_on_move(
            old(self).graph_node_set(),
            old(self).graph_edge_set(),
            old(self)@,
            id,
            position,
            proposal,
            self.policy(),
        ) && (self@, events@) == apply_events_spec(old(self)@, proposal));
        events
    }

    /// Removes an output. The keeper asks the policy once, through
    /// `on_remove`, showing it the graph and the registry as they are and
    /// handing on the handle, and applies what the policy proposes. The
    /// result is what `apply_events` returns for the proposal.
    pub fn remove_output(&mut self, id: OutputId) -> (events: Vec<PhysicalOutputEvent>)
        requires
            old(self).wf(),
        ensures
            final(self).wf(),
            exists|proposed: Seq<PhysicalOutputEvent>|
                old(self).policy().proposes_on_remove(
                    old(self).graph_node_set(),
                    old(self).graph_edge_set(),
                    old(self)@,
                    id,
                    proposed,
                    final(self).policy(),
                ) && (final(self)@, events@) == #[trigger] apply_events_spec(old(self)@, proposed),
    {
        let proposed = self.output_manager.on_remove(&self.graph, &self.outputs, id);
        let ghost proposal = proposed@;
        let events = self.apply_events(proposed);
        assert(old(self).policy().proposes_on_remove(
            old(self).graph_node_set(),
            old(self).graph_edge_set(),
            old(self)@,
            id,
            proposal,
            self.policy(),
        ) && (self@, events@) == apply_events_spec(old(self)@, proposal));
        events
    }

    /// Tells whether every output of the list can be reached from the first
    /// one by stepping from an output to one it touches. An empty list is not
    /// connected.
    pub fn connected(&self, ids: Vec<OutputId>) -> (connected: bool)
        requires
            self.wf(),
        ensures
            connected == (ids@.len() > 0 && forall|k: int|
                0 <= k < ids@.len() ==> layout_connects(self@, ids@[0], #[trigger] ids@[k])),
    {
        if ids.len() == 0 {
            return false;
        }
        let found = graph_reachable(&self.graph, ids[0].0);
        let mut at: usize = 0;
        while at < ids.len()
            invariant
                at <= ids@.len(),
                ids@.len() > 0,
                forall|node: usize|
                    found@.contains(node) <==> super::reach::connects(
                        layout_edges(self@),
                        ids@[0].0,
                        node,
                    ),
                forall|k: int| 0 <= k < at ==> layout_connects(self@, ids@[0], #[trigger] ids@[k]),
            decreases ids@.len() - at,
        {
            if !list_contains(&found, ids[at].0) {
                assert(!layout_connects(self@, ids@[0], ids@[at as int]));
                return false;
            }
            at += 1;
        }
        true
    }

    /// Splits the outputs into groups: within a group every output reaches
    /// every other, and no output reaches one of another group. The groups
    /// come in the order of their first members, the members of a group in the
    /// order of registration.
    pub fn groups(&self) -> (groups: Vec<Vec<OutputId>>)
        requires
            self.wf(),
        ensures
            nested_view(groups@) == layout_groups(self@),
    {
        let ghost layout = self.outputs@;
        let by_index = index_groups(&self.graph, &self.outputs);
        proof {
            self.outputs.lemma_len_fits();
            lemma_layout_groups(layout);
            assert forall|k: int| 0 <= k < by_index@.len() implies #[trigger] by_index@[k]@
                == layout_index_groups(layout)[k] by {
                assert(nested_view(by_index@)[k] == by_index@[k]@);
            }
        }
        let mut groups: Vec<Vec<OutputId>> = Vec::new();
        let mut k: usize = 0;
        while k < by_index.len()
            invariant
                layout == self.outputs@,
                k <= by_index@.len(),
                by_index@.len() == layout_index_groups(layout).len(),
                forall|g: int|
                    0 <= g < by_index@.len() ==> #[trigger] by_index@[g]@ == layout_index_groups(
                        layout,
                    )[g],
                forall|g: int, t: int|
                    0 <= g < layout_index_groups(layout).len() && 0 <= t < layout_index_groups(
                        layout,
                    )[g].len() ==> (#[trigger] layout_index_groups(layout)[g][t]) < layout.len(),
                groups@.len() == k,
                forall|g: int|
                    0 <= g < k ==> (#[trigger] groups@[g])@ == ids_at(
                        layout,
                        layout_index_groups(layout)[g],
                    ),
            decreases by_index@.len() - k,
        {
            let members = &by_index[k];
            let ghost indices = layout_index_groups(layout)[k as int];
            assert(members@ == indices);
            let mut group: Vec<OutputId> = Vec::new();
            let mut t: usize = 0;
            while t < members.len()
                invariant
                    layout == self.outputs@,
                    members@ == indices,
                    forall|i: int| 0 <= i < indices.len() ==> (#[trigger] indices[i]) < layout.len(),
                    t <= indices.len(),
                    group@ == ids_at(layout, indices.take(t as int)),
                decreases indices.len() - t,
            {
                let entry = self.outputs.entry(members[t]);
                group.push(entry.id);
                t += 1;
                assert(group@ =~= ids_at(layout, indices.take(t as int)));
            }
            assert(indices.take(t as int) =~= indices);
            groups.push(group);
            k += 1;
        }
        assert(nested_view(groups@) =~= layout_groups(layout));
        groups
    }

    /// Finds the output nearest to the given one: the other output whose box
    /// is at the least distance, the earliest registered of those that are
    /// equally near. There is none where the output is not registered or is
    /// the only one.
    pub fn nearest(&self, id: OutputId) -> (nearest: Option<OutputId>)
        requires
            self.wf(),
        ensures
            match nearest {
                Some(found) => layout_has(self@, id) && exists|best: int|
                    #[trigger] is_nearest(self@, layout_index(self@, id), best) && self@[best].id
                        == found,
                None => !layout_has(self@, id) || self@.len() == 1,
            },
    {
        let ghost layout = self.outputs@;
        let index = match self.outputs.index_of(id) {
            Some(index) => index,
            None => {
                return None;
            },
        };
        proof {
            lemma_unique_index(layout, index as int, layout_index(layout, id));
        }
        let output = self.outputs.entry(index).output;
        let mut best: Option<usize> = None;
        let mut least: u128 = 0;
        let mut at: usize = 0;
        while at < self.outputs.len()
            invariant
                layout == self.outputs@,
                index < layout.len(),
                output == layout[index as int].output,
                at <= layout.len(),
                match best {
                    Some(b) => b < at && b != index && least == output.spec_distance_squared(
                        layout[b as int].output,
                    ) && forall|j: int|
                        0 <= j < at && j != index ==> {
                            let distance = #[trigger] layout[index as int].output.spec_distance_squared(
                                layout[j].output,
                            );
                            distance > least || (distance == least && b <= j)
                        },
                    None => at == 0 || (at == 1 && index == 0),
                },
            decreases layout.len() - at,
        {
            if at != index {
                let distance = output.distance_squared(&self.outputs.entry(at).output);
                let closer = match best {
                    Some(_) => distance < least,
                    None => true,
                };
                if closer {
                    best = Some(at);
                    least = distance;
                }
            }
            at += 1;
        }
        match best {
            Some(b) => {
                assert(is_nearest(layout, index as int, b as int));
                Some(self.outputs.entry(b).id)
            },
            None => {
                assert(layout.len() == 1);
                None
            },
        }
    }
}

} // verus!
