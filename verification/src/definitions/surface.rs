use vstd::prelude::*;

verus! {

/// The surface is minimised.
pub const MINIMIZED: u32 = 1;

/// The surface is maximised.
pub const MAXIMIZED: u32 = 2;

/// The surface covers the whole output.
pub const FULLSCREEN: u32 = 4;

/// The surface is tiled to the left.
pub const TILING_LEFT: u32 = 8;

/// The surface is tiled to the right.
pub const TILING_RIGHT: u32 = 16;

/// The surface is tiled to the top.
pub const TILING_TOP: u32 = 32;

/// The surface is tiled to the bottom.
pub const TILING_BOTTOM: u32 = 64;

/// Every flag that a surface mode can hold.
pub const ALL_MODES: u32 = 127;

/// The modes of a surface, as a set of flags.
#[derive(Debug, Clone, Copy, PartialEq, Eq, Hash)]
pub struct SurfaceMode {
    bits: u32,
}

impl View for SurfaceMode {
    type V = u32;

    closed spec fn view(&self) -> u32 {
        self.bits
    }
}

impl SurfaceMode {
    /// No flag.
    pub fn empty() -> (mode: Self)
        ensures
            mode@ == 0,
    {
        Self { bits: 0 }
    }

    /// Every flag.
    pub fn all() -> (mode: Self)
        ensures
            mode@ == ALL_MODES,
    {
        Self { bits: ALL_MODES }
    }

    /// The flags as a number.
    pub fn bits(&self) -> (bits: u32)
        ensures
            bits == self@,
    {
        self.bits
    }

    /// The mode with exactly these flags, if all of them are known.
    pub fn from_bits(bits: u32) -> (mode: Option<Self>)
        ensures
            match mode {
                Some(mode) => mode@ == bits && bits & !ALL_MODES == 0,
                None => bits & !ALL_MODES != 0,
            },
    {
        if bits & !ALL_MODES == 0 {
            Some(Self { bits })
        } else {
            None
        }
    }

    /// The mode with the known ones among these flags.
    pub fn from_bits_truncate(bits: u32) -> (mode: Self)
        ensures
            mode@ == bits & ALL_MODES,
    {
        Self { bits: bits & ALL_MODES }
    }

    /// Tells whether no flag is set.
    pub fn is_empty(&self) -> (empty: bool)
        ensures
            empty == (self@ == 0),
    {
        self.bits == 0
    }

    /// Tells whether every flag of `other` is set.
    pub fn contains(&self, other: SurfaceMode) -> (contains: bool)
        ensures
            contains == (self@ & other@ == other@),
    {
        self.bits & other.bits == other.bits
    }

    /// Tells whether some flag of `other` is set.
    pub fn intersects(&self, other: SurfaceMode) -> (intersects: bool)
        ensures
            intersects == (self@ & other@ != 0),
    {
        self.bits & other.bits != 0
    }

    /// The flags of either mode.
    pub fn union(self, other: SurfaceMode) -> (mode: Self)
        ensures
            mode@ == self@ | other@,
    {
        Self { bits: self.bits | other.bits }
    }

    /// The flags of both modes.
    pub fn intersection(self, other: SurfaceMode) -> (mode: Self)
        ensures
            mode@ == self@ & other@,
    {
        Self { bits: self.bits & other.bits }
    }

    /// The flags of this mode that `other` lacks.
    pub fn difference(self, other: SurfaceMode) -> (mode: Self)
        ensures
            mode@ == self@ & !other@,
    {
        Self { bits: self.bits & !other.bits }
    }
}

/// The edge to which a surface is tiled.
#[derive(Debug, PartialEq)]
pub enum SurfaceTiling {
    TiledLeft,
    TiledRight,
    TiledTop,
    TiledBottom,
}

/// What can be done with a surface.
pub struct SurfaceCapabilities {
    pub supported_modes: Vec<SurfaceMode>,
    pub can_resize: bool,
    pub can_move: bool,
    pub is_monitor_indipendent: bool,
}

} // verus!
