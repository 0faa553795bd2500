use vstd::prelude::*;
use vstd::std_specs::convert::FromSpecImpl;

verus! {

/// Handle of a surface.
#[derive(Debug, PartialEq, Hash, Copy, Clone, Eq, Structural)]
pub struct SurfaceId(pub usize);

impl SurfaceId {
    pub fn new(id: usize) -> (surface: Self)
        ensures
            surface.0 == id,
    {
        Self(id)
    }

    /// The number behind the handle.
    pub fn id(&self) -> (id: usize)
        ensures
            id == self.0,
    {
        self.0
    }
}

impl From<SurfaceId> for usize {
    fn from(id: SurfaceId) -> (ret: usize) {
        id.0
    }
}

impl FromSpecImpl<SurfaceId> for usize {
    open spec fn obeys_from_spec() -> bool {
        true
    }

    open spec fn from_spec(id: SurfaceId) -> usize {
        id.0
    }
}

impl From<usize> for SurfaceId {
    fn from(hash: usize) -> (ret: Self) {
        Self(hash)
    }
}

impl FromSpecImpl<usize> for SurfaceId {
    open spec fn obeys_from_spec() -> bool {
        true
    }

    open spec fn from_spec(hash: usize) -> Self {
        SurfaceId(hash)
    }
}

impl From<u32> for SurfaceId {
    fn from(id: u32) -> (ret: Self) {
        Self(id as usize)
    }
}

impl FromSpecImpl<u32> for SurfaceId {
    open spec fn obeys_from_spec() -> bool {
        true
    }

    open spec fn from_spec(id: u32) -> Self {
        SurfaceId(id as usize)
    }
}

impl From<i32> for SurfaceId {
    fn from(id: i32) -> (ret: Self) {
        Self(id as usize)
    }
}

impl FromSpecImpl<i32> for SurfaceId {
    open spec fn obeys_from_spec() -> bool {
        true
    }

    open spec fn from_spec(id: i32) -> Self {
        SurfaceId(id as usize)
    }
}

} // verus!
