use super::output_manager::{OutputManager, PhysicalOutputEvent};
use super::physical_output::PhysicalOutput;
use super::registry::{Registry, RegistryEntry};
use crate::definitions::common::{Position2D, Size2D};
use crate::definitions::event::output_event::OutputId;
use petgraph::graphmap::GraphMap;
use petgraph::Undirected;
use std::hash::RandomState;
use vstd::prelude::*;

verus! {

/// The simplest placement policy: a new output goes to the right of the one
/// registered last, on the top row; moves and removals are proposed as they
/// are asked for.
pub struct SideBySide;

/// Where the policy puts a new output: at the origin where the layout is
/// empty, else at the right edge of the output registered last. There is no
/// place where that edge lies beyond the coordinate space.
pub open spec fn side_by_side_place(layout: Seq<RegistryEntry>) -> Option<Position2D<u32>> {
    if layout.len() == 0 {
        Some(Position2D { x: 0, y: 0 })
    } else {
        let last = layout.last().output;
        if last.position.x + last.size.width <= u32::MAX {
            Some(Position2D { x: (last.position.x + last.size.width) as u32, y: 0 })
        } else {
            None
        }
    }
}

/// What the policy proposes for a new output: to add it at its place, or
/// nothing where there is no place.
pub open spec fn side_by_side_proposal(layout: Seq<RegistryEntry>, id: OutputId, size: Size2D<u32>)
    -> Seq<PhysicalOutputEvent> {
    match side_by_side_place(layout) {
        Some(position) => seq![
            PhysicalOutputEvent::Added { id, output: PhysicalOutput { position, size } },
        ],
        None => Seq::empty(),
    }
}

impl SideBySide {
    pub fn new() -> (policy: Self) {
        SideBySide
    }

    /// The place for a new output.
    pub fn place(outputs: &Registry) -> (place: Option<Position2D<u32>>)
        ensures
            place == side_by_side_place(outputs@),
    {
        let count = outputs.len();
        if count == 0 {
            Some(Position2D { x: 0, y: 0 })
        } else {
            let last = outputs.entry(count - 1).output;
            let edge: u64 = last.position.x as u64 + last.size.width as u64;
            if edge <= u32::MAX as u64 {
                Some(Position2D { x: edge as u32, y: 0 })
            } else {
                None
            }
        }
    }
}

impl OutputManager for SideBySide {
    /// A new output is proposed at its place in the row, or nothing where
    /// there is no place.
    open spec fn proposes_on_add(
        &self,
        nodes: Set<usize>,
        edges: Set<(usize, usize)>,
        layout: Seq<RegistryEntry>,
        id: OutputId,
        size: Size2D<u32>,
        proposed: Seq<PhysicalOutputEvent>,
        after: Self,
    ) -> bool {
        proposed == side_by_side_proposal(layout, id, size)
    }

    /// A move is proposed as it is asked for.
    open spec fn proposes_on_move(
        &self,
        nodes: Set<usize>,
        edges: Set<(usize, usize)>,
        layout: Seq<RegistryEntry>,
        id: OutputId,
        position: Position2D<u32>,
        proposed: Seq<PhysicalOutputEvent>,
        after: Self,
    ) -> bool {
        proposed == seq![PhysicalOutputEvent::Moved { id, position }]
    }

    /// A removal is proposed as it is asked for.
    open spec fn proposes_on_remove(
        &self,
        nodes: Set<usize>,
        edges: Set<(usize, usize)>,
        layout: Seq<RegistryEntry>,
        id: OutputId,
        proposed: Seq<PhysicalOutputEvent>,
        after: Self,
    ) -> bool {
        proposed == seq![PhysicalOutputEvent::Removed { id }]
    }

    fn on_add(
        &mut self,
        graph: &GraphMap<usize, (), Undirected, RandomState>,
        outputs: &Registry,
        id: OutputId,
        size: Size2D<u32>,
    ) -> (proposed: Vec<PhysicalOutputEvent>)
        ensures
            proposed@ == side_by_side_proposal(outputs@, id, size),
    {
        let mut proposed: Vec<PhysicalOutputEvent> = Vec::new();
        match SideBySide::place(outputs) {
            Some(position) => {
                proposed.push(
                    PhysicalOutputEvent::Added { id, output: PhysicalOutput { position, size } },
                );
                assert(proposed@ =~= side_by_side_proposal(outputs@, id, size));
            },
            None => {},
        }
        proposed
    }

    fn on_move(
        &mut self,
        graph: &GraphMap<usize, (), Undirected, RandomState>,
        outputs: &Registry,
        id: OutputId,
        position: Position2D<u32>,
    ) -> (proposed: Vec<PhysicalOutputEvent>)
        ensures
            proposed@ == seq![PhysicalOutputEvent::Moved { id, position }],
    {
        let mut proposed: Vec<PhysicalOutputEvent> = Vec::new();
        proposed.push(PhysicalOutputEvent::Moved { id, position });
        assert(proposed@ =~= seq![PhysicalOutputEvent::Moved { id, position }]);
        proposed
    }

    fn on_remove(
        &mut self,
        graph: &GraphMap<usize, (), Undirected, RandomState>,
        outputs: &Registry,
        id: OutputId,
    ) -> (proposed: Vec<PhysicalOutputEvent>)
        ensures
            proposed@ == seq![PhysicalOutputEvent::Removed { id }],
    {
        let mut proposed: Vec<PhysicalOutputEvent> = Vec::new();
        proposed.push(PhysicalOutputEvent::Removed { id });
        assert(proposed@ =~= seq![PhysicalOutputEvent::Removed { id }]);
        proposed
    }
}

} // verus!
