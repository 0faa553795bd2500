use crate::definitions::event::output_event::OutputId;
use crate::definitions::event::surface_event::SurfaceId;
use vstd::prelude::*;

verus! {

/// Possible surface requests.
pub enum SurfaceRequest {
    Create(Option<OutputId>),
    Destroy(SurfaceId),
    Commit(SurfaceId),
}

} // verus!
