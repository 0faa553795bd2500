use output_layout::definitions::{
    Offset2D, OutputId, Position2D, Position3D, Rectangle, SeatId, Size2D, SurfaceId, SurfaceMode,
};
use output_layout::definitions::surface::{
    ALL_MODES, FULLSCREEN, MAXIMIZED, MINIMIZED, TILING_BOTTOM, TILING_LEFT,
};

fn rectangle(x: i32, y: i32, width: u32, height: u32) -> Rectangle<i32, u32> {
    Rectangle::from((Position2D { x, y }, Size2D { width, height }))
}

#[test]
fn positions_convert_from_and_to_tuples_and_arrays() {
    let position = Position2D::from((3u32, 4u32));
    assert_eq!(position, Position2D { x: 3, y: 4 });
    let pair: (u32, u32) = position.into();
    assert_eq!(pair, (3, 4));
    assert_eq!(Position2D::from([5i32, 6]), Position2D { x: 5, y: 6 });
    let deep = Position3D::from((1u32, 2u32, 3u32));
    assert_eq!(Position2D::from(deep), Position2D { x: 1, y: 2 });
    assert_eq!(Position3D::from([1u8, 2, 3]), Position3D { x: 1, y: 2, z: 3 });
    let array: [u32; 3] = deep.into();
    assert_eq!(array, [1, 2, 3]);
    assert_eq!(Position3D::from((position, 9u32)), Position3D { x: 3, y: 4, z: 9 });
}

#[test]
fn sizes_and_offsets_convert_from_and_to_tuples_and_arrays() {
    let size = Size2D::from((7u32, 8u32));
    assert_eq!(size, Size2D { width: 7, height: 8 });
    let pair: (u32, u32) = size.into();
    assert_eq!(pair, (7, 8));
    assert_eq!(Size2D::from([1u32, 2]), Size2D { width: 1, height: 2 });
    let array: [u32; 2] = size.into();
    assert_eq!(array, [7, 8]);
    assert_eq!(Offset2D::from((1i32, -2i32)), Offset2D { x: 1, y: -2 });
    assert_eq!(Offset2D::from([3i32, 4]), Offset2D { x: 3, y: 4 });
}

#[test]
fn positions_add_and_subtract_by_coordinate() {
    let a = Position2D { x: 10i32, y: 20 };
    let b = Position2D { x: 3i32, y: 5 };
    assert_eq!(a + b, Position2D { x: 13, y: 25 });
    assert_eq!(a - b, Position2D { x: 7, y: 15 });
    let offset = Offset2D { x: 2i32, y: -4 };
    assert_eq!(a + offset, Position2D { x: 12, y: 16 });
    assert_eq!(a - offset, Position2D { x: 8, y: 24 });
    assert_eq!(offset + a, Position2D { x: 12, y: 16 });
    assert_eq!(offset - a, Position2D { x: 8, y: 24 });
}

#[test]
fn offsets_move_deep_positions_in_the_plane_only() {
    let deep = Position3D { x: 10i32, y: 20, z: 7 };
    let offset = Offset2D { x: 1i32, y: 2 };
    assert_eq!(deep + offset, Position3D { x: 11, y: 22, z: 7 });
    assert_eq!(deep - offset, Position3D { x: 9, y: 18, z: 7 });
    assert_eq!(offset + deep, Position3D { x: 11, y: 22, z: 7 });
    assert_eq!(offset - deep, Position3D { x: 9, y: 18, z: 7 });
}

#[test]
fn sizes_add_and_subtract_by_extent() {
    let a = Size2D { width: 10u32, height: 20 };
    let b = Size2D { width: 3u32, height: 5 };
    assert_eq!(a + b, Size2D { width: 13, height: 25 });
    assert_eq!(a - b, Size2D { width: 7, height: 15 });
    let offset = Offset2D { x: 2u32, y: 4 };
    assert_eq!(a + offset, Size2D { width: 12, height: 24 });
    assert_eq!(a - offset, Size2D { width: 8, height: 16 });
}

#[test]
fn rectangles_are_made_from_a_position_and_a_size_in_either_order() {
    let position = Position2D { x: 1i32, y: 2 };
    let size = Size2D { width: 3u32, height: 4 };
    let one = Rectangle::from((position, size));
    let other = Rectangle::from((size, position));
    assert_eq!(one, other);
    assert_eq!(one.position, position);
    assert_eq!(one.size, size);
}

#[test]
fn the_offsets_of_a_rectangle_are_its_far_edges() {
    let r = rectangle(-5, 7, 20, 30);
    assert_eq!(r.x_offset(), 15);
    assert_eq!(r.y_offset(), 37);
}

#[test]
fn a_rectangle_contains_what_lies_strictly_inside() {
    let r = rectangle(10, 10, 5, 5);
    assert!(r.contains(Position2D { x: 12, y: 12 }));
    assert!(r.contains(Position2D { x: 14, y: 14 }));
    assert!(!r.contains(Position2D { x: 10, y: 12 }));
    assert!(!r.contains(Position2D { x: 15, y: 12 }));
    assert!(!r.contains(Position2D { x: 12, y: 10 }));
    assert!(!r.contains(Position2D { x: 12, y: 15 }));
    assert!(!r.contains(Position2D { x: 0, y: 0 }));
}

#[test]
fn a_position_inside_is_seen_from_the_corner() {
    let r = rectangle(10, 20, 5, 5);
    assert_eq!(r.relative_to(Position2D { x: 12, y: 23 }), Some(Position2D { x: 2, y: 3 }));
    assert_eq!(r.relative_to(Position2D { x: 10, y: 23 }), None);
    assert_eq!(r.relative_to(Position2D { x: 40, y: 23 }), None);
}

#[test]
fn the_bounding_box_takes_the_least_corner_and_the_greatest_extent() {
    let bound = Rectangle::bounding_box(vec![
        rectangle(5, 9, 10, 1),
        rectangle(-3, 12, 2, 40),
        rectangle(7, -8, 30, 4),
    ]);
    assert_eq!(bound, rectangle(-3, -8, 30, 40));
    assert_eq!(Rectangle::bounding_box(vec![rectangle(1, 2, 3, 4)]), rectangle(1, 2, 3, 4));
}

#[test]
fn handles_convert_from_and_to_numbers() {
    assert_eq!(OutputId::from(7usize), OutputId(7));
    assert_eq!(OutputId::from(7u32), OutputId(7));
    assert_eq!(OutputId::from(7i32), OutputId(7));
    let number: usize = OutputId(9).into();
    assert_eq!(number, 9);
    assert_eq!(SeatId::from(3u32), SeatId(3));
    assert_eq!(SeatId::from(3i32), SeatId::from(3usize));
    let seat: usize = SeatId(4).into();
    assert_eq!(seat, 4);
    assert_eq!(SurfaceId::from(5u32), SurfaceId::new(5));
    assert_eq!(SurfaceId::from(5i32).id(), 5);
    let surface: usize = SurfaceId::from(6usize).into();
    assert_eq!(surface, 6);
}

#[test]
fn an_output_handle_reads_as_its_number() {
    assert_eq!(OutputId(42).to_text(), "42");
    assert_eq!(OutputId(0).to_text(), "0");
    assert_eq!(OutputId(9).to_text(), "9");
    assert_eq!(OutputId(10).to_text(), "10");
    assert_eq!(OutputId(907).to_text(), "907");
    assert_eq!(OutputId(1000).to_text(), "1000");
    assert_eq!(OutputId(4294967295).to_text(), "4294967295");
}

#[test]
fn two_handles_are_the_same_output_when_their_numbers_are_equal() {
    assert_eq!(OutputId(3), OutputId(3));
    assert_ne!(OutputId(3), OutputId(4));
    assert!(OutputId(3) < OutputId(4));
}

#[test]
fn surface_modes_are_sets_of_flags() {
    let mode = SurfaceMode::from_bits(MAXIMIZED | TILING_LEFT).unwrap();
    assert_eq!(mode.bits(), 10);
    assert!(mode.contains(SurfaceMode::from_bits_truncate(MAXIMIZED)));
    assert!(!mode.contains(SurfaceMode::from_bits_truncate(MINIMIZED)));
    assert!(mode.intersects(SurfaceMode::from_bits_truncate(MAXIMIZED | FULLSCREEN)));
    assert!(!mode.intersects(SurfaceMode::from_bits_truncate(FULLSCREEN)));
    assert!(SurfaceMode::empty().is_empty());
    assert!(!mode.is_empty());
    assert_eq!(SurfaceMode::all().bits(), ALL_MODES);
    assert_eq!(SurfaceMode::from_bits(128), None);
    assert_eq!(SurfaceMode::from_bits_truncate(128 | TILING_BOTTOM).bits(), TILING_BOTTOM);
    let other = SurfaceMode::from_bits_truncate(FULLSCREEN | TILING_LEFT);
    assert_eq!(mode.union(other).bits(), MAXIMIZED | FULLSCREEN | TILING_LEFT);
    assert_eq!(mode.intersection(other).bits(), TILING_LEFT);
    assert_eq!(mode.difference(other).bits(), MAXIMIZED);
}
