use std::ops::{Add, Sub};
use vstd::prelude::*;
use vstd::std_specs::convert::FromSpecImpl;
use vstd::std_specs::ops::{AddSpec, AddSpecImpl, SubSpec, SubSpecImpl};

verus! {

/// How cursor movements are reported.
#[derive(Clone, Copy, Debug, PartialEq)]
pub enum CursorMode {
    Absolute,
    Relative,
}

/// A point of the plane.
#[derive(Debug, Copy, Clone, PartialEq)]
pub struct Position2D<T> {
    pub x: T,
    pub y: T,
}

impl<T> From<(T, T)> for Position2D<T> {
    fn from(position: (T, T)) -> (ret: Self) {
        Self { x: position.0, y: position.1 }
    }
}

impl<T> FromSpecImpl<(T, T)> for Position2D<T> {
    open spec fn obeys_from_spec() -> bool {
        true
    }

    open spec fn from_spec(position: (T, T)) -> Self {
        Position2D { x: position.0, y: position.1 }
    }
}

impl<T> From<Position2D<T>> for (T, T) {
    fn from(position: Position2D<T>) -> (ret: Self) {
        (position.x, position.y)
    }
}

impl<T> FromSpecImpl<Position2D<T>> for (T, T) {
    open spec fn obeys_from_spec() -> bool {
        true
    }

    open spec fn from_spec(position: Position2D<T>) -> Self {
        (position.x, position.y)
    }
}

impl<T: Copy> From<[T; 2]> for Position2D<T> {
    fn from(position: [T; 2]) -> (ret: Self) {
        Self { x: position[0], y: position[1] }
    }
}

impl<T: Copy> FromSpecImpl<[T; 2]> for Position2D<T> {
    open spec fn obeys_from_spec() -> bool {
        true
    }

    open spec fn from_spec(position: [T; 2]) -> Self {
        Position2D { x: position@[0], y: position@[1] }
    }
}

impl<T> From<Position3D<T>> for Position2D<T> {
    fn from(position: Position3D<T>) -> (ret: Self) {
        Self { x: position.x, y: position.y }
    }
}

impl<T> FromSpecImpl<Position3D<T>> for Position2D<T> {
    open spec fn obeys_from_spec() -> bool {
        true
    }

    open spec fn from_spec(position: Position3D<T>) -> Self {
        Position2D { x: position.x, y: position.y }
    }
}

impl<T: Add<Output = T>> Add for Position2D<T> {
    type Output = Self;

    fn add(self, other: Self) -> (ret: Self) {
        Self { x: self.x + other.x, y: self.y + other.y }
    }
}

impl<T: Add<Output = T>> AddSpecImpl for Position2D<T> {
    open spec fn obeys_add_spec() -> bool {
        <T as AddSpec>::obeys_add_spec()
    }

    open spec fn add_req(self, other: Self) -> bool {
        self.x.add_req(other.x) && self.y.add_req(other.y)
    }

    open spec fn add_spec(self, other: Self) -> Self {
        Position2D { x: self.x.add_spec(other.x), y: self.y.add_spec(other.y) }
    }
}

impl<T: Sub<Output = T>> Sub for Position2D<T> {
    type Output = Self;

    fn sub(self, other: Self) -> (ret: Self) {
        Self { x: self.x - other.x, y: self.y - other.y }
    }
}

impl<T: Sub<Output = T>> SubSpecImpl for Position2D<T> {
    open spec fn obeys_sub_spec() -> bool {
        <T as SubSpec>::obeys_sub_spec()
    }

    open spec fn sub_req(self, other: Self) -> bool {
        self.x.sub_req(other.x) && self.y.sub_req(other.y)
    }

    open spec fn sub_spec(self, other: Self) -> Self {
        Position2D { x: self.x.sub_spec(other.x), y: self.y.sub_spec(other.y) }
    }
}

impl<T: Add<Output = T>> Add<Offset2D<T>> for Position2D<T> {
    type Output = Self;

    fn add(self, other: Offset2D<T>) -> (ret: Self) {
        Self { x: self.x + other.x, y: self.y + other.y }
    }
}

impl<T: Add<Output = T>> AddSpecImpl<Offset2D<T>> for Position2D<T> {
    open spec fn obeys_add_spec() -> bool {
        <T as AddSpec>::obeys_add_spec()
    }

    open spec fn add_req(self, other: Offset2D<T>) -> bool {
        self.x.add_req(other.x) && self.y.add_req(other.y)
    }

    open spec fn add_spec(self, other: Offset2D<T>) -> Self {
        Position2D { x: self.x.add_spec(other.x), y: self.y.add_spec(other.y) }
    }
}

impl<T: Sub<Output = T>> Sub<Offset2D<T>> for Position2D<T> {
    type Output = Self;

    fn sub(self, other: Offset2D<T>) -> (ret: Self) {
        Self { x: self.x - other.x, y: self.y - other.y }
    }
}

impl<T: Sub<Output = T>> SubSpecImpl<Offset2D<T>> for Position2D<T> {
    open spec fn obeys_sub_spec() -> bool {
        <T as SubSpec>::obeys_sub_spec()
    }

    open spec fn sub_req(self, other: Offset2D<T>) -> bool {
        self.x.sub_req(other.x) && self.y.sub_req(other.y)
    }

    open spec fn sub_spec(self, other: Offset2D<T>) -> Self {
        Position2D { x: self.x.sub_spec(other.x), y: self.y.sub_spec(other.y) }
    }
}

/// A point of the plane with a depth.
#[derive(Debug, Copy, Clone, PartialEq)]
pub struct Position3D<T> {
    pub x: T,
    pub y: T,
    pub z: T,
}

impl<T> From<(T, T, T)> for Position3D<T> {
    fn from(position: (T, T, T)) -> (ret: Self) {
        Self { x: position.0, y: position.1, z: position.2 }
    }
}

impl<T> FromSpecImpl<(T, T, T)> for Position3D<T> {
    open spec fn obeys_from_spec() -> bool {
        true
    }

    open spec fn from_spec(position: (T, T, T)) -> Self {
        Position3D { x: position.0, y: position.1, z: position.2 }
    }
}

impl<T: Copy> From<[T; 3]> for Position3D<T> {
    fn from(position: [T; 3]) -> (ret: Self) {
        Self { x: position[0], y: position[1], z: position[2] }
    }
}

impl<T: Copy> FromSpecImpl<[T; 3]> for Position3D<T> {
    open spec fn obeys_from_spec() -> bool {
        true
    }

    open spec fn from_spec(position: [T; 3]) -> Self {
        Position3D { x: position@[0], y: position@[1], z: position@[2] }
    }
}

impl<T: Copy> From<Position3D<T>> for [T; 3] {
    fn from(position: Position3D<T>) -> (ret: Self) {
        [position.x, position.y, position.z]
    }
}

impl<T: Copy> FromSpecImpl<Position3D<T>> for [T; 3] {
    open spec fn obeys_from_spec() -> bool {
        true
    }

    open spec fn from_spec(position: Position3D<T>) -> Self {
        [position.x, position.y, position.z]
    }
}

impl<T> From<(Position2D<T>, T)> for Position3D<T> {
    fn from(position: (Position2D<T>, T)) -> (ret: Self) {
        Self { x: position.0.x, y: position.0.y, z: position.1 }
    }
}

impl<T> FromSpecImpl<(Position2D<T>, T)> for Position3D<T> {
    open spec fn obeys_from_spec() -> bool {
        true
    }

    open spec fn from_spec(position: (Position2D<T>, T)) -> Self {
        Position3D { x: position.0.x, y: position.0.y, z: position.1 }
    }
}

impl<T: Add<Output = T>> Add<Offset2D<T>> for Position3D<T> {
    type Output = Self;

    fn add(self, other: Offset2D<T>) -> (ret: Self) {
        Self { x: self.x + other.x, y: self.y + other.y, z: self.z }
    }
}

impl<T: Add<Output = T>> AddSpecImpl<Offset2D<T>> for Position3D<T> {
    open spec fn obeys_add_spec() -> bool {
        <T as AddSpec>::obeys_add_spec()
    }

    open spec fn add_req(self, other: Offset2D<T>) -> bool {
        self.x.add_req(other.x) && self.y.add_req(other.y)
    }

    open spec fn add_spec(self, other: Offset2D<T>) -> Self {
        Position3D { x: self.x.add_spec(other.x), y: self.y.add_spec(other.y), z: self.z }
    }
}

impl<T: Sub<Output = T>> Sub<Offset2D<T>> for Position3D<T> {
    type Output = Self;

    fn sub(self, other: Offset2D<T>) -> (ret: Self) {
        Self { x: self.x - other.x, y: self.y - other.y, z: self.z }
    }
}

impl<T: Sub<Output = T>> SubSpecImpl<Offset2D<T>> for Position3D<T> {
    open spec fn obeys_sub_spec() -> bool {
        <T as SubSpec>::obeys_sub_spec()
    }

    open spec fn sub_req(self, other: Offset2D<T>) -> bool {
        self.x.sub_req(other.x) && self.y.sub_req(other.y)
    }

    open spec fn sub_spec(self, other: Offset2D<T>) -> Self {
        Position3D { x: self.x.sub_spec(other.x), y: self.y.sub_spec(other.y), z: self.z }
    }
}

/// A displacement in the plane.
#[derive(Debug, Copy, Clone, PartialEq)]
pub struct Offset2D<T> {
    pub x: T,
    pub y: T,
}

impl<T> From<(T, T)> for Offset2D<T> {
    fn from(offset: (T, T)) -> (ret: Self) {
        Self { x: offset.0, y: offset.1 }
    }
}

impl<T> FromSpecImpl<(T, T)> for Offset2D<T> {
    open spec fn obeys_from_spec() -> bool {
        true
    }

    open spec fn from_spec(offset: (T, T)) -> Self {
        Offset2D { x: offset.0, y: offset.1 }
    }
}

impl<T: Copy> From<[T; 2]> for Offset2D<T> {
    fn from(offset: [T; 2]) -> (ret: Self) {
        Self { x: offset[0], y: offset[1] }
    }
}

impl<T: Copy> FromSpecImpl<[T; 2]> for Offset2D<T> {
    open spec fn obeys_from_spec() -> bool {
        true
    }

    open spec fn from_spec(offset: [T; 2]) -> Self {
        Offset2D { x: offset@[0], y: offset@[1] }
    }
}

impl<T: Add<Output = T>> Add<Position2D<T>> for Offset2D<T> {
    type Output = Position2D<T>;

    fn add(self, other: Position2D<T>) -> (ret: Position2D<T>) {
        Position2D { x: other.x + self.x, y: other.y + self.y }
    }
}

impl<T: Add<Output = T>> AddSpecImpl<Position2D<T>> for Offset2D<T> {
    open spec fn obeys_add_spec() -> bool {
        <T as AddSpec>::obeys_add_spec()
    }

    open spec fn add_req(self, other: Position2D<T>) -> bool {
        other.x.add_req(self.x) && other.y.add_req(self.y)
    }

    open spec fn add_spec(self, other: Position2D<T>) -> Position2D<T> {
        Position2D { x: other.x.add_spec(self.x), y: other.y.add_spec(self.y) }
    }
}

/// The position minus the offset: the offset stands on the left, the result is
/// the position moved back by it.
impl<T: Sub<Output = T>> Sub<Position2D<T>> for Offset2D<T> {
    type Output = Position2D<T>;

    fn sub(self, other: Position2D<T>) -> (ret: Position2D<T>) {
        Position2D { x: other.x - self.x, y: other.y - self.y }
    }
}

impl<T: Sub<Output = T>> SubSpecImpl<Position2D<T>> for Offset2D<T> {
    open spec fn obeys_sub_spec() -> bool {
        <T as SubSpec>::obeys_sub_spec()
    }

    open spec fn sub_req(self, other: Position2D<T>) -> bool {
        other.x.sub_req(self.x) && other.y.sub_req(self.y)
    }

    open spec fn sub_spec(self, other: Position2D<T>) -> Position2D<T> {
        Position2D { x: other.x.sub_spec(self.x), y: other.y.sub_spec(self.y) }
    }
}

impl<T: Add<Output = T>> Add<Position3D<T>> for Offset2D<T> {
    type Output = Position3D<T>;

    fn add(self, other: Position3D<T>) -> (ret: Position3D<T>) {
        Position3D { x: other.x + self.x, y: other.y + self.y, z: other.z }
    }
}

impl<T: Add<Output = T>> AddSpecImpl<Position3D<T>> for Offset2D<T> {
    open spec fn obeys_add_spec() -> bool {
        <T as AddSpec>::obeys_add_spec()
    }

    open spec fn add_req(self, other: Position3D<T>) -> bool {
        other.x.add_req(self.x) && other.y.add_req(self.y)
    }

    open spec fn add_spec(self, other: Position3D<T>) -> Position3D<T> {
        Position3D { x: other.x.add_spec(self.x), y: other.y.add_spec(self.y), z: other.z }
    }
}

/// The position minus the offset, the depth untouched.
impl<T: Sub<Output = T>> Sub<Position3D<T>> for Offset2D<T> {
    type Output = Position3D<T>;

    fn sub(self, other: Position3D<T>) -> (ret: Position3D<T>) {
        Position3D { x: other.x - self.x, y: other.y - self.y, z: other.z }
    }
}

impl<T: Sub<Output = T>> SubSpecImpl<Position3D<T>> for Offset2D<T> {
    open spec fn obeys_sub_spec() -> bool {
        <T as SubSpec>::obeys_sub_spec()
    }

    open spec fn sub_req(self, other: Position3D<T>) -> bool {
        other.x.sub_req(self.x) && other.y.sub_req(self.y)
    }

    open spec fn sub_spec(self, other: Position3D<T>) -> Position3D<T> {
        Position3D { x: other.x.sub_spec(self.x), y: other.y.sub_spec(self.y), z: other.z }
    }
}

/// An extent in the plane.
#[derive(Debug, Copy, Clone, PartialEq)]
pub struct Size2D<T> {
    pub width: T,
    pub height: T,
}

impl<T> From<(T, T)> for Size2D<T> {
    fn from(size: (T, T)) -> (ret: Self) {
        Self { width: size.0, height: size.1 }
    }
}

impl<T> FromSpecImpl<(T, T)> for Size2D<T> {
    open spec fn obeys_from_spec() -> bool {
        true
    }

    open spec fn from_spec(size: (T, T)) -> Self {
        Size2D { width: size.0, height: size.1 }
    }
}

impl<T> From<Size2D<T>> for (T, T) {
    fn from(size: Size2D<T>) -> (ret: Self) {
        (size.width, size.height)
    }
}

impl<T> FromSpecImpl<Size2D<T>> for (T, T) {
    open spec fn obeys_from_spec() -> bool {
        true
    }

    open spec fn from_spec(size: Size2D<T>) -> Self {
        (size.width, size.height)
    }
}

impl<T: Copy> From<[T; 2]> for Size2D<T> {
    fn from(size: [T; 2]) -> (ret: Self) {
        Self { width: size[0], height: size[1] }
    }
}

impl<T: Copy> FromSpecImpl<[T; 2]> for Size2D<T> {
    open spec fn obeys_from_spec() -> bool {
        true
    }

    open spec fn from_spec(size: [T; 2]) -> Self {
        Size2D { width: size@[0], height: size@[1] }
    }
}

impl<T: Copy> From<Size2D<T>> for [T; 2] {
    fn from(size: Size2D<T>) -> (ret: Self) {
        [size.width, size.height]
    }
}

impl<T: Copy> FromSpecImpl<Size2D<T>> for [T; 2] {
    open spec fn obeys_from_spec() -> bool {
        true
    }

    open spec fn from_spec(size: Size2D<T>) -> Self {
        [size.width, size.height]
    }
}

impl<T: Add<Output = T>> Add<Self> for Size2D<T> {
    type Output = Self;

    fn add(self, other: Self) -> (ret: Self) {
        Self { width: self.width + other.width, height: self.height + other.height }
    }
}

impl<T: Add<Output = T>> AddSpecImpl<Self> for Size2D<T> {
    open spec fn obeys_add_spec() -> bool {
        <T as AddSpec>::obeys_add_spec()
    }

    open spec fn add_req(self, other: Self) -> bool {
        self.width.add_req(other.width) && self.height.add_req(other.height)
    }

    open spec fn add_spec(self, other: Self) -> Self {
        Size2D {
            width: self.width.add_spec(other.width),
            height: self.height.add_spec(other.height),
        }
    }
}

impl<T: Sub<Output = T>> Sub<Self> for Size2D<T> {
    type Output = Self;

    fn sub(self, other: Self) -> (ret: Self) {
        Self { width: self.width - other.width, height: self.height - other.height }
    }
}

impl<T: Sub<Output = T>> SubSpecImpl<Self> for Size2D<T> {
    open spec fn obeys_sub_spec() -> bool {
        <T as SubSpec>::obeys_sub_spec()
    }

    open spec fn sub_req(self, other: Self) -> bool {
        self.width.sub_req(other.width) && self.height.sub_req(other.height)
    }

    open spec fn sub_spec(self, other: Self) -> Self {
        Size2D {
            width: self.width.sub_spec(other.width),
            height: self.height.sub_spec(other.height),
        }
    }
}

impl<T: Add<Output = T>> Add<Offset2D<T>> for Size2D<T> {
    type Output = Self;

    fn add(self, other: Offset2D<T>) -> (ret: Self) {
        Self { width: self.width + other.x, height: self.height + other.y }
    }
}

impl<T: Add<Output = T>> AddSpecImpl<Offset2D<T>> for Size2D<T> {
    open spec fn obeys_add_spec() -> bool {
        <T as AddSpec>::obeys_add_spec()
    }

    open spec fn add_req(self, other: Offset2D<T>) -> bool {
        self.width.add_req(other.x) && self.height.add_req(other.y)
    }

    open spec fn add_spec(self, other: Offset2D<T>) -> Self {
        Size2D { width: self.width.add_spec(other.x), height: self.height.add_spec(other.y) }
    }
}

impl<T: Sub<Output = T>> Sub<Offset2D<T>> for Size2D<T> {
    type Output = Self;

    fn sub(self, other: Offset2D<T>) -> (ret: Self) {
        Self { width: self.width - other.x, height: self.height - other.y }
    }
}

impl<T: Sub<Output = T>> SubSpecImpl<Offset2D<T>> for Size2D<T> {
    open spec fn obeys_sub_spec() -> bool {
        <T as SubSpec>::obeys_sub_spec()
    }

    open spec fn sub_req(self, other: Offset2D<T>) -> bool {
        self.width.sub_req(other.x) && self.height.sub_req(other.y)
    }

    open spec fn sub_spec(self, other: Offset2D<T>) -> Self {
        Size2D { width: self.width.sub_spec(other.x), height: self.height.sub_spec(other.y) }
    }
}

/// A rectangle, anchored at its top-left corner.
#[derive(Debug, Clone, Copy, PartialEq)]
pub struct Rectangle<P, S> {
    pub position: Position2D<P>,
    pub size: Size2D<S>,
}

impl<P, S> From<(Position2D<P>, Size2D<S>)> for Rectangle<P, S> {
    fn from(tuple: (Position2D<P>, Size2D<S>)) -> (ret: Self) {
        Self { position: tuple.0, size: tuple.1 }
    }
}

impl<P, S> FromSpecImpl<(Position2D<P>, Size2D<S>)> for Rectangle<P, S> {
    open spec fn obeys_from_spec() -> bool {
        true
    }

    open spec fn from_spec(tuple: (Position2D<P>, Size2D<S>)) -> Self {
        Rectangle { position: tuple.0, size: tuple.1 }
    }
}

impl<P, S> From<(Size2D<S>, Position2D<P>)> for Rectangle<P, S> {
    fn from(tuple: (Size2D<S>, Position2D<P>)) -> (ret: Self) {
        Self { position: tuple.1, size: tuple.0 }
    }
}

impl<P, S> FromSpecImpl<(Size2D<S>, Position2D<P>)> for Rectangle<P, S> {
    open spec fn obeys_from_spec() -> bool {
        true
    }

    open spec fn from_spec(tuple: (Size2D<S>, Position2D<P>)) -> Self {
        Rectangle { position: tuple.1, size: tuple.0 }
    }
}

impl Rectangle<i32, u32> {
    /// The column just right of the rectangle.
    pub open spec fn spec_x_offset(self) -> int {
        self.position.x + self.size.width
    }

    /// The row just below the rectangle.
    pub open spec fn spec_y_offset(self) -> int {
        self.position.y + self.size.height
    }

    /// The position lies strictly between the corners of the rectangle.
    pub open spec fn spec_contains(self, position: Position2D<i32>) -> bool {
        &&& self.position.x < position.x < self.spec_x_offset()
        &&& self.position.y < position.y < self.spec_y_offset()
    }

    /// The rectangle that `bounding_box` gives for these rectangles: it starts
    /// at the least column and the least row of any of them and has the
    /// greatest width and the greatest height of any of them.
    pub open spec fn bounds(rectangles: Seq<Rectangle<i32, u32>>, bound: Rectangle<i32, u32>)
        -> bool {
        &&& forall|i: int|
            0 <= i < rectangles.len() ==> {
                let rectangle = #[trigger] rectangles[i];
                &&& bound.position.x <= rectangle.position.x
                &&& bound.position.y <= rectangle.position.y
                &&& bound.size.width >= rectangle.size.width
                &&& bound.size.height >= rectangle.size.height
            }
        &&& exists|i: int| 0 <= i < rectangles.len() && #[trigger] rectangles[i].position.x
            == bound.position.x
        &&& exists|i: int| 0 <= i < rectangles.len() && #[trigger] rectangles[i].position.y
            == bound.position.y
        &&& exists|i: int| 0 <= i < rectangles.len() && #[trigger] rectangles[i].size.width
            == bound.size.width
        &&& exists|i: int| 0 <= i < rectangles.len() && #[trigger] rectangles[i].size.height
            == bound.size.height
    }

    /// The rectangle that starts at the least column and the least row of the
    /// given rectangles and has their greatest width and their greatest
    /// height. There must be a rectangle to start from.
    pub fn bounding_box(rectangles: Vec<Rectangle<i32, u32>>) -> (bound: Rectangle<i32, u32>)
        requires
            rectangles@.len() > 0,
        ensures
            Self::bounds(rectangles@, bound),
    {
        let first = rectangles[0];
        let mut x: i32 = first.position.x;
        let mut y: i32 = first.position.y;
        let mut width: u32 = first.size.width;
        let mut height: u32 = first.size.height;
        let mut at: usize = 1;
        assert(rectangles@.take(1)[0] == first);
        while at < rectangles.len()
            invariant
                1 <= at <= rectangles@.len(),
                Self::bounds(
                    rectangles@.take(at as int),
                    (Rectangle {
                        position: Position2D { x, y },
                        size: Size2D { width, height },
                    }),
                ),
            decreases rectangles@.len() - at,
        {
            let rectangle = rectangles[at];
            let ghost seen = rectangles@.take(at as int);
            let ghost more = rectangles@.take(at + 1);
            let ghost before = Rectangle {
                position: Position2D { x, y },
                size: Size2D { width, height },
            };
            proof {
                let px = choose|i: int| 0 <= i < seen.len() && #[trigger] seen[i].position.x == x;
                let py = choose|i: int| 0 <= i < seen.len() && #[trigger] seen[i].position.y == y;
                let pw = choose|i: int| 0 <= i < seen.len() && #[trigger] seen[i].size.width == width;
                let ph = choose|i: int|
                    0 <= i < seen.len() && #[trigger] seen[i].size.height == height;
                assert(more[px] == seen[px]);
                assert(more[py] == seen[py]);
                assert(more[pw] == seen[pw]);
                assert(more[ph] == seen[ph]);
                assert(more[at as int] == rectangle);
            }
            if rectangle.position.x < x {
                x = rectangle.position.x;
            }
            if rectangle.position.y < y {
                y = rectangle.position.y;
            }
            if rectangle.size.width > width {
                width = rectangle.size.width;
            }
            if rectangle.size.height > height {
                height = rectangle.size.height;
            }
            proof {
                let after = Rectangle {
                    position: Position2D { x, y },
                    size: Size2D { width, height },
                };
                assert forall|i: int| 0 <= i < more.len() implies {
                    let r = #[trigger] more[i];
                    &&& after.position.x <= r.position.x
                    &&& after.position.y <= r.position.y
                    &&& after.size.width >= r.size.width
                    &&& after.size.height >= r.size.height
                } by {
                    if i < at {
                        assert(more[i] == seen[i]);
                    }
                }
            }
            at += 1;
        }
        assert(rectangles@.take(at as int) =~= rectangles@);
        Rectangle { position: Position2D { x, y }, size: Size2D { width, height } }
    }

    /// Tells whether the position lies strictly inside the rectangle.
    pub fn contains(&self, position: Position2D<i32>) -> (inside: bool)
        ensures
            inside == self.spec_contains(position),
    {
        let right: i64 = self.position.x as i64 + self.size.width as i64;
        let bottom: i64 = self.position.y as i64 + self.size.height as i64;
        position.x > self.position.x && (position.x as i64) < right && position.y
            > self.position.y && (position.y as i64) < bottom
    }

    /// The column just right of the rectangle. It has to be a column of the
    /// coordinate space.
    pub fn x_offset(&self) -> (edge: i32)
        requires
            self.spec_x_offset() <= i32::MAX,
        ensures
            edge == self.spec_x_offset(),
    {
        (self.position.x as i64 + self.size.width as i64) as i32
    }

    /// The row just below the rectangle. It has to be a row of the coordinate
    /// space.
    pub fn y_offset(&self) -> (edge: i32)
        requires
            self.spec_y_offset() <= i32::MAX,
        ensures
            edge == self.spec_y_offset(),
    {
        (self.position.y as i64 + self.size.height as i64) as i32
    }

    /// The position as seen from the corner of the rectangle, for a position
    /// inside the rectangle. The extent of the rectangle has to be a distance
    /// of the coordinate space.
    pub fn relative_to(&self, position: Position2D<i32>) -> (relative: Option<Position2D<i32>>)
        requires
            self.size.width <= i32::MAX,
            self.size.height <= i32::MAX,
        ensures
            match relative {
                Some(relative) => self.spec_contains(position) && relative.x == position.x
                    - self.position.x && relative.y == position.y - self.position.y,
                None => !self.spec_contains(position),
            },
    {
        if self.contains(position) {
            let x: i64 = position.x as i64 - self.position.x as i64;
            let y: i64 = position.y as i64 - self.position.y as i64;
            Some(Position2D { x: x as i32, y: y as i32 })
        } else {
            None
        }
    }
}

/// The orientation of an output.
#[derive(Debug, Clone, PartialEq)]
pub enum Transform {
    Normal,
    _90,
    _180,
    _270,
    Flipped,
    Flipped90,
    Flipped180,
    Flipped270,
}

/// A video mode of an output.
#[derive(Debug, Clone, PartialEq)]
pub struct Mode {
    pub resolution: Size2D<u32>,
    pub refresh_rate: u32,
    pub is_preferred: bool,
}

/// The layout of the colour components inside a pixel.
#[derive(Debug, Clone, PartialEq)]
pub enum Subpixel {
    Unknown,
    /// The pixels have no subpixel structure.
    NoSubpixel,
    HorizontalRgb,
    HorizontalBgr,
    VerticalRgb,
    VerticalBgr,
}

} // verus!
