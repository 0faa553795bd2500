use crate::definitions::common::{Position2D, Size2D};
use vstd::prelude::*;

verus! {

/// The rectangle that an output covers: its top-left corner and its extent.
#[derive(Debug, Clone, Copy, PartialEq)]
pub struct PhysicalOutput {
    pub position: Position2D<u32>,
    pub size: Size2D<u32>,
}

/// The box that stands for an output in distance queries. Its centre is the
/// output's position plus the half extents `(size - 1) / 2`, and it reaches
/// those half extents to each side; it is kept by its two corners, which are
/// whole numbers where the centre may not be. Shrinking the rectangle by one
/// is what puts two outputs that share an edge at distance exactly one.
#[derive(Debug, Clone, Copy, PartialEq, Eq)]
pub struct Shape {
    pub min_x: u64,
    pub min_y: u64,
    pub max_x: u64,
    pub max_y: u64,
}

/// The gap between the intervals `[lo1, hi1]` and `[lo2, hi2]`: zero where they
/// share a point.
pub open spec fn axis_gap(lo1: int, hi1: int, lo2: int, hi2: int) -> int {
    if lo2 > hi1 {
        lo2 - hi1
    } else if lo1 > hi2 {
        lo1 - hi2
    } else {
        0
    }
}

/// The nearest point of `[lo1, hi1]` minus the nearest point of `[lo2, hi2]`:
/// negative where the second interval lies above the first, positive where it
/// lies below, zero where they share a point.
pub open spec fn axis_offset(lo1: int, hi1: int, lo2: int, hi2: int) -> int {
    if lo2 > hi1 {
        hi1 - lo2
    } else if lo1 > hi2 {
        lo1 - hi2
    } else {
        0
    }
}

impl PhysicalOutput {
    /// The extent is positive and the far corner lies in the coordinate space.
    pub open spec fn valid(self) -> bool {
        &&& self.size.width > 0
        &&& self.size.height > 0
        &&& self.position.x + self.size.width <= u32::MAX
        &&& self.position.y + self.size.height <= u32::MAX
    }

    /// The first column of the output's box.
    pub open spec fn lo_x(self) -> int {
        self.position.x as int
    }

    /// The last column of the output's box.
    pub open spec fn hi_x(self) -> int {
        self.position.x + self.size.width - 1
    }

    /// The first row of the output's box.
    pub open spec fn lo_y(self) -> int {
        self.position.y as int
    }

    /// The last row of the output's box.
    pub open spec fn hi_y(self) -> int {
        self.position.y + self.size.height - 1
    }

    /// The horizontal gap between the two boxes.
    pub open spec fn gap_x(self, other: PhysicalOutput) -> int {
        axis_gap(self.lo_x(), self.hi_x(), other.lo_x(), other.hi_x())
    }

    /// The vertical gap between the two boxes.
    pub open spec fn gap_y(self, other: PhysicalOutput) -> int {
        axis_gap(self.lo_y(), self.hi_y(), other.lo_y(), other.hi_y())
    }

    /// The square of the distance between the two boxes.
    pub open spec fn spec_distance_squared(self, other: PhysicalOutput) -> int {
        self.gap_x(other) * self.gap_x(other) + self.gap_y(other) * self.gap_y(other)
    }

    /// The two outputs touch: their boxes are at distance exactly one.
    pub open spec fn spec_is_adjacent(self, other: PhysicalOutput) -> bool {
        self.spec_distance_squared(other) == 1
    }

    /// The box of the output, as `get_shape` returns it.
    pub open spec fn spec_shape(self) -> Shape {
        Shape {
            min_x: self.lo_x() as u64,
            min_y: self.lo_y() as u64,
            max_x: self.hi_x() as u64,
            max_y: self.hi_y() as u64,
        }
    }

    /// The output moved by `(dx, dy)`.
    pub open spec fn translated(self, dx: int, dy: int) -> PhysicalOutput {
        PhysicalOutput {
            position: Position2D {
                x: (self.position.x + dx) as u32,
                y: (self.position.y + dy) as u32,
            },
            size: self.size,
        }
    }

    /// The output stays valid when moved by `(dx, dy)`.
    pub open spec fn fits_translated(self, dx: int, dy: int) -> bool {
        &&& 0 <= self.position.x + dx
        &&& 0 <= self.position.y + dy
        &&& self.position.x + dx + self.size.width <= u32::MAX
        &&& self.position.y + dy + self.size.height <= u32::MAX
    }

    pub fn new(position: Position2D<u32>, size: Size2D<u32>) -> (output: Self)
        ensures
            output.position == position,
            output.size == size,
    {
        Self { position, size }
    }

    /// Tells whether the rectangle can be registered.
    pub fn is_valid(&self) -> (valid: bool)
        ensures
            valid == self.valid(),
    {
        self.size.width > 0 && self.size.height > 0 && self.size.width <= u32::MAX
            - self.position.x && self.size.height <= u32::MAX - self.position.y
    }

    /// The box that stands for the output in distance queries.
    pub fn get_shape(&self) -> (shape: Shape)
        requires
            self.size.width > 0,
            self.size.height > 0,
        ensures
            shape == self.spec_shape(),
            shape.min_x <= shape.max_x,
            shape.min_y <= shape.max_y,
    {
        let min_x: u64 = self.position.x as u64;
        let min_y: u64 = self.position.y as u64;
        let extent_x: u64 = (self.size.width - 1) as u64;
        let extent_y: u64 = (self.size.height - 1) as u64;
        Shape { min_x, min_y, max_x: min_x + extent_x, max_y: min_y + extent_y }
    }

    /// The square of the distance between the boxes of the two outputs.
    pub fn distance_squared(&self, other: &PhysicalOutput) -> (distance: u128)
        ensures
            distance == self.spec_distance_squared(*other),
    {
        let gap_x: u64 = interval_gap(
            self.position.x,
            self.size.width,
            other.position.x,
            other.size.width,
        );
        let gap_y: u64 = interval_gap(
            self.position.y,
            self.size.height,
            other.position.y,
            other.size.height,
        );
        assert(gap_x * gap_x <= 0x1_0000_0000 * 0x1_0000_0000) by (nonlinear_arith)
            requires
                gap_x <= 0x1_0000_0000,
        ;
        assert(gap_y * gap_y <= 0x1_0000_0000 * 0x1_0000_0000) by (nonlinear_arith)
            requires
                gap_y <= 0x1_0000_0000,
        ;
        let wide_x: u128 = gap_x as u128;
        let wide_y: u128 = gap_y as u128;
        wide_x * wide_x + wide_y * wide_y
    }

    /// Tells whether the two outputs touch: whether their boxes are at distance
    /// exactly one, compared in whole numbers.
    pub fn is_adjacent(&self, other: &PhysicalOutput) -> (adjacent: bool)
        ensures
            adjacent == self.spec_is_adjacent(*other),
    {
        self.distance_squared(other) == 1
    }
}

/// The gap between the boxes of two spans, each given by its start and length.
fn interval_gap(start1: u32, length1: u32, start2: u32, length2: u32) -> (gap: u64)
    ensures
        gap == axis_gap(
            start1 as int,
            start1 + length1 - 1,
            start2 as int,
            start2 + length2 - 1,
        ),
        gap <= 0x1_0000_0000,
{
    let end1: u64 = start1 as u64 + length1 as u64;
    let end2: u64 = start2 as u64 + length2 as u64;
    if start2 as u64 >= end1 {
        start2 as u64 - end1 + 1
    } else if start1 as u64 >= end2 {
        start1 as u64 - end2 + 1
    } else {
        0
    }
}

/// The nearest point of the first span's box minus the nearest point of the
/// second's.
pub(crate) fn interval_offset(start1: u32, length1: u32, start2: u32, length2: u32) -> (offset:
    i64)
    ensures
        offset == axis_offset(
            start1 as int,
            start1 + length1 - 1,
            start2 as int,
            start2 + length2 - 1,
        ),
        -0x1_0000_0000 <= offset <= 0x1_0000_0000,
{
    let end1: i64 = start1 as i64 + length1 as i64;
    let end2: i64 = start2 as i64 + length2 as i64;
    if start2 as i64 >= end1 {
        end1 - 1 - start2 as i64
    } else if start1 as i64 >= end2 {
        start1 as i64 - end2 + 1
    } else {
        0
    }
}

/// Adjacency does not depend on the order of the two outputs.
pub proof fn lemma_adjacent_symmetric(a: PhysicalOutput, b: PhysicalOutput)
    ensures
        a.spec_distance_squared(b) == b.spec_distance_squared(a),
        a.spec_is_adjacent(b) == b.spec_is_adjacent(a),
{
}

/// Moving two outputs by the same amount keeps the distance between them.
pub proof fn lemma_translation_keeps_distance(
    a: PhysicalOutput,
    b: PhysicalOutput,
    dx: int,
    dy: int,
)
    requires
        a.fits_translated(dx, dy),
        b.fits_translated(dx, dy),
    ensures
        a.translated(dx, dy).spec_distance_squared(b.translated(dx, dy))
            == a.spec_distance_squared(b),
        a.translated(dx, dy).spec_is_adjacent(b.translated(dx, dy)) == a.spec_is_adjacent(b),
{
}

} // verus!
