use crate::definitions::event::surface_event::SurfaceId;
use std::collections::HashMap;
use vstd::prelude::*;

verus! {

/// The kinds of surface events of which only the first per surface is kept.
#[derive(Debug, Clone, Copy, PartialEq, Eq, Structural)]
pub enum SurfaceChange {
    Moved,
    Resized,
}

/// What post-processing reads of an event: the surface it is about and the
/// kind of change it reports.
#[derive(Debug, Clone, Copy, PartialEq, Eq, Structural)]
pub struct SurfaceMark {
    pub id: SurfaceId,
    pub change: SurfaceChange,
}

/// Thins out a batch of events: of the events that report a move of one
/// surface only the first is kept, and likewise of those that report a
/// resize.
pub struct PostProcessing;

/// The event at `index` is kept: it bears no mark, or no event before it
/// bears the same mark.
pub open spec fn is_kept(marks: Seq<Option<SurfaceMark>>, index: int) -> bool {
    match marks[index] {
        Some(mark) => forall|k: int| 0 <= k < index ==> #[trigger] marks[k] != Some(mark),
        None => true,
    }
}

/// Some event before `index` bears the mark of this kind for the surface
/// with this number.
pub open spec fn seen_before(
    marks: Seq<Option<SurfaceMark>>,
    index: int,
    surface: usize,
    change: SurfaceChange,
) -> bool {
    exists|k: int|
        0 <= k < index && #[trigger] marks[k] == Some(
            SurfaceMark { id: SurfaceId(surface), change },
        )
}

impl PostProcessing {
    pub fn new() -> (processing: Self) {
        Self {  }
    }

    /// Tells for each event of a batch whether it is kept. An event that is
    /// no move and no resize of a surface bears no mark.
    pub fn process(&self, marks: Vec<Option<SurfaceMark>>) -> (kept: Vec<bool>)
        ensures
            kept@.len() == marks@.len(),
            forall|i: int| 0 <= i < marks@.len() ==> #[trigger] kept@[i] == is_kept(marks@, i),
    {
        let mut surface_moved: HashMap<usize, ()> = HashMap::new();
        let mut surface_resized: HashMap<usize, ()> = HashMap::new();
        let mut kept: Vec<bool> = Vec::new();
        let mut index: usize = 0;
        while index < marks.len()
            invariant
                index <= marks@.len(),
                kept@.len() == index,
                forall|i: int| 0 <= i < index ==> #[trigger] kept@[i] == is_kept(marks@, i),
                forall|surface: usize|
                    surface_moved@.contains_key(surface) <==> seen_before(
                        marks@,
                        index as int,
                        surface,
                        SurfaceChange::Moved,
                    ),
                forall|surface: usize|
                    surface_resized@.contains_key(surface) <==> seen_before(
                        marks@,
                        index as int,
                        surface,
                        SurfaceChange::Resized,
                    ),
            decreases marks@.len() - index,
        {
            let ghost moved = surface_moved@;
            let ghost resized = surface_resized@;
            let keep = match marks[index] {
                Some(mark) => {
                    let surface = mark.id.0;
                    assert(mark == SurfaceMark { id: SurfaceId(surface), change: mark.change });
                    match mark.change {
                        SurfaceChange::Moved => {
                            let first = !surface_moved.contains_key(&surface);
                            surface_moved.insert(surface, ());
                            first
                        },
                        SurfaceChange::Resized => {
                            let first = !surface_resized.contains_key(&surface);
                            surface_resized.insert(surface, ());
                            first
                        },
                    }
                },
                None => true,
            };
            proof {
                let next = index + 1;
                assert forall|surface: usize, change: SurfaceChange|
                    seen_before(marks@, next, surface, change) <==> seen_before(
                        marks@,
                        index as int,
                        surface,
                        change,
                    ) || marks@[index as int] == Some(
                        SurfaceMark { id: SurfaceId(surface), change },
                    ) by {
                    let wanted = Some(SurfaceMark { id: SurfaceId(surface), change });
                    if seen_before(marks@, next, surface, change) {
                        let k = choose|k: int| 0 <= k < next && #[trigger] marks@[k] == wanted;
                        if k < index {
                            assert(seen_before(marks@, index as int, surface, change));
                        }
                    }
                    if seen_before(marks@, index as int, surface, change) {
                        let k = choose|k: int| 0 <= k < index && #[trigger] marks@[k] == wanted;
                        assert(marks@[k] == wanted);
                    }
                    if marks@[index as int] == wanted {
                        assert(seen_before(marks@, next, surface, change));
                    }
                }
                match marks@[index as int] {
                    Some(mark) => {
                        assert(mark == SurfaceMark { id: SurfaceId(mark.id.0), change: mark.change });
                        if seen_before(marks@, index as int, mark.id.0, mark.change) {
                            let k = choose|k: int|
                                0 <= k < index && #[trigger] marks@[k] == Some(mark);
                            assert(!is_kept(marks@, index as int));
                        } else {
                            assert forall|k: int| 0 <= k < index implies #[trigger] marks@[k]
                                != Some(mark) by {
                                if marks@[k] == Some(mark) {
                                    assert(seen_before(
                                        marks@,
                                        index as int,
                                        mark.id.0,
                                        mark.change,
                                    ));
                                }
                            }
                        }
                    },
                    None => {},
                }
                assert(keep == is_kept(marks@, index as int));
            }
            kept.push(keep);
            index += 1;
        }
        kept
    }
}

} // verus!
