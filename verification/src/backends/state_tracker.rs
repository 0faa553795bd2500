use crate::definitions::common::{Position2D, Size2D};
use crate::definitions::event::output_event::{OutputId, OutputInfo};
use crate::definitions::event::seat_event::{SeatId, SeatInfo};
use crate::definitions::event::surface_event::SurfaceId;
use std::collections::HashMap;
use vstd::prelude::*;

verus! {

/// What the tracker keeps of a surface: its place and its extent.
#[derive(Debug, Clone, Copy, PartialEq)]
pub struct SurfaceGeometry {
    pub position: Position2D<u32>,
    pub size: Size2D<u32>,
}

/// What the tracker reads of an event.
pub enum StateChange {
    SeatAdded { id: SeatId, info: SeatInfo },
    SeatRemoved { id: SeatId },
    OutputAdded { id: OutputId, info: OutputInfo },
    OutputRemoved { id: OutputId },
    SurfaceAdded { id: SurfaceId, geometry: SurfaceGeometry },
    SurfaceMoved { id: SurfaceId, position: Position2D<u32> },
    SurfaceResized { id: SurfaceId, size: Size2D<u32> },
    SurfaceRemoved { id: SurfaceId },
}

/// What the tracker knows: the seats, the outputs and the surfaces, each
/// under the number of its handle.
pub struct TrackedState {
    pub seats: Map<usize, SeatInfo>,
    pub outputs: Map<usize, OutputInfo>,
    pub surfaces: Map<usize, SurfaceGeometry>,
}

/// What one change does to the state: an added seat, output or surface is
/// put under its number, in the place of what was there; a removed one is
/// taken out; and a moved or resized surface that the tracker knows gets its
/// new place or extent. A move or a resize of a surface that the tracker does
/// not know changes nothing.
pub open spec fn track(state: TrackedState, change: StateChange) -> TrackedState {
    match change {
        StateChange::SeatAdded { id, info } => TrackedState {
            seats: state.seats.insert(id.0, info),
            ..state
        },
        StateChange::SeatRemoved { id } => TrackedState {
            seats: state.seats.remove(id.0),
            ..state
        },
        StateChange::OutputAdded { id, info } => TrackedState {
            outputs: state.outputs.insert(id.0, info),
            ..state
        },
        StateChange::OutputRemoved { id } => TrackedState {
            outputs: state.outputs.remove(id.0),
            ..state
        },
        StateChange::SurfaceAdded { id, geometry } => TrackedState {
            surfaces: state.surfaces.insert(id.0, geometry),
            ..state
        },
        StateChange::SurfaceMoved { id, position } => TrackedState {
            surfaces: if state.surfaces.contains_key(id.0) {
                state.surfaces.insert(
                    id.0,
                    SurfaceGeometry { position, size: state.surfaces[id.0].size },
                )
            } else {
                state.surfaces
            },
            ..state
        },
        StateChange::SurfaceResized { id, size } => TrackedState {
            surfaces: if state.surfaces.contains_key(id.0) {
                state.surfaces.insert(
                    id.0,
                    SurfaceGeometry { position: state.surfaces[id.0].position, size },
                )
            } else {
                state.surfaces
            },
            ..state
        },
        StateChange::SurfaceRemoved { id } => TrackedState {
            surfaces: state.surfaces.remove(id.0),
            ..state
        },
    }
}

/// What a list of changes does to the state, one change after the other.
pub open spec fn track_all(state: TrackedState, changes: Seq<StateChange>) -> TrackedState
    decreases changes.len(),
{
    if changes.len() == 0 {
        state
    } else {
        track(track_all(state, changes.drop_last()), changes.last())
    }
}

/// Follows the events and knows at any time which seats, outputs and
/// surfaces there are.
pub struct StateTracker {
    seats: HashMap<usize, SeatInfo>,
    outputs: HashMap<usize, OutputInfo>,
    surfaces: HashMap<usize, SurfaceGeometry>,
}

impl View for StateTracker {
    type V = TrackedState;

    closed spec fn view(&self) -> TrackedState {
        TrackedState { seats: self.seats@, outputs: self.outputs@, surfaces: self.surfaces@ }
    }
}

impl StateTracker {
    pub fn new() -> (tracker: Self)
        ensures
            tracker@ == (TrackedState {
                seats: Map::empty(),
                outputs: Map::empty(),
                surfaces: Map::empty(),
            }),
    {
        Self { seats: HashMap::new(), outputs: HashMap::new(), surfaces: HashMap::new() }
    }

    /// The seats that the tracker knows, each under the number of its handle.
    pub fn seats(&self) -> (seats: &HashMap<usize, SeatInfo>)
        ensures
            seats@ == self@.seats,
    {
        &self.seats
    }

    /// The outputs that the tracker knows, each under the number of its
    /// handle.
    pub fn outputs(&self) -> (outputs: &HashMap<usize, OutputInfo>)
        ensures
            outputs@ == self@.outputs,
    {
        &self.outputs
    }

    /// The surfaces that the tracker knows, each under the number of its
    /// handle.
    pub fn surfaces(&self) -> (surfaces: &HashMap<usize, SurfaceGeometry>)
        ensures
            surfaces@ == self@.surfaces,
    {
        &self.surfaces
    }

    /// Takes one change in.
    pub fn apply(&mut self, change: StateChange)
        ensures
            final(self)@ == track(old(self)@, change),
    {
        match change {
            StateChange::SeatAdded { id, info } => {
                self.seats.insert(id.0, info);
            },
            StateChange::SeatRemoved { id } => {
                self.seats.remove(&id.0);
            },
            StateChange::OutputAdded { id, info } => {
                self.outputs.insert(id.0, info);
            },
            StateChange::OutputRemoved { id } => {
                self.outputs.remove(&id.0);
            },
            StateChange::SurfaceAdded { id, geometry } => {
                self.surfaces.insert(id.0, geometry);
            },
            StateChange::SurfaceMoved { id, position } => {
                let known = match self.surfaces.get(&id.0) {
                    Some(geometry) => Some(geometry.size),
                    None => None,
                };
                match known {
                    Some(size) => {
                        self.surfaces.insert(id.0, SurfaceGeometry { position, size });
                    },
                    None => {},
                }
            },
            StateChange::SurfaceResized { id, size } => {
                let known = match self.surfaces.get(&id.0) {
                    Some(geometry) => Some(geometry.position),
                    None => None,
                };
                match known {
                    Some(position) => {
                        self.surfaces.insert(id.0, SurfaceGeometry { position, size });
                    },
                    None => {},
                }
            },
            StateChange::SurfaceRemoved { id } => {
                self.surfaces.remove(&id.0);
            },
        }
    }

    /// Takes the changes in, one after the other.
    pub fn update(&mut self, changes: Vec<StateChange>)
        ensures
            final(self)@ == track_all(old(self)@, changes@),
    {
        let ghost start = self@;
        let ghost list = changes@;
        let mut changes = changes;
        let mut rest: Vec<StateChange> = Vec::new();
        while changes.len() > 0
            invariant
                rest@.len() + changes@.len() == list.len(),
                forall|k: int| 0 <= k < changes@.len() ==> changes@[k] == list[k],
                forall|k: int|
                    0 <= k < rest@.len() ==> #[trigger] rest@[k] == list[list.len() - 1 - k],
            decreases changes@.len(),
        {
            let last = changes.pop().unwrap();
            rest.push(last);
        }
        let ghost mut done: int = 0;
        let ghost total = list.len();
        while rest.len() > 0
            invariant
                total == list.len(),
                done + rest@.len() == total,
                forall|k: int|
                    0 <= k < rest@.len() ==> #[trigger] rest@[k] == list[total - 1 - k],
                0 <= done,
                self@ == track_all(start, list.take(done)),
            decreases rest@.len(),
        {
            let change = rest.pop().unwrap();
            proof {
                assert(change == list[done]);
                assert(list.take(done + 1).drop_last() =~= list.take(done));
                assert(list.take(done + 1).last() == change);
            }
            self.apply(change);
            proof {
                done = done + 1;
            }
        }
        assert(list.take(done) =~= list);
    }
}

} // verus!
