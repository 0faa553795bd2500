use output_layout::backends::partial_backends::{
    LayoutError, OutputConstraintKeeper, PhysicalOutput, PhysicalOutputEvent, SideBySide,
};
use output_layout::definitions::{OutputId, Position2D, Size2D};

fn id(n: usize) -> OutputId {
    OutputId::from(n)
}

fn square(x: u32, y: u32) -> PhysicalOutput {
    PhysicalOutput::new(Position2D { x, y }, Size2D { width: 10, height: 10 })
}

fn ten() -> Size2D<u32> {
    Size2D { width: 10, height: 10 }
}

fn row_of_three() -> OutputConstraintKeeper<SideBySide> {
    let mut keeper = OutputConstraintKeeper::new(SideBySide::new());
    keeper.add_output(id(1), ten());
    keeper.add_output(id(2), ten());
    keeper.add_output(id(3), ten());
    keeper
}

fn position_of(keeper: &OutputConstraintKeeper<SideBySide>, n: usize) -> Position2D<u32> {
    keeper.outputs().get(id(n)).unwrap().position
}

#[test]
fn side_by_side_places_outputs_edge_to_edge() {
    let mut keeper = OutputConstraintKeeper::new(SideBySide::new());
    let first = keeper.add_output(id(1), ten());
    assert_eq!(first, vec![PhysicalOutputEvent::Added { id: id(1), output: square(0, 0) }]);
    let second = keeper.add_output(id(2), ten());
    assert_eq!(second, vec![PhysicalOutputEvent::Added { id: id(2), output: square(10, 0) }]);
    let a = keeper.outputs().get(id(1)).unwrap();
    let b = keeper.outputs().get(id(2)).unwrap();
    assert!(a.is_adjacent(&b));
    assert!(keeper.graph().contains_edge(1, 2));
    assert_eq!(keeper.groups(), vec![vec![id(1), id(2)]]);
}

#[test]
fn removing_the_middle_output_pulls_the_last_one_in() {
    let mut keeper = row_of_three();
    assert_eq!(position_of(&keeper, 3), Position2D { x: 20, y: 0 });
    let events = keeper.remove_output(id(2));
    assert_eq!(
        events,
        vec![
            PhysicalOutputEvent::Removed { id: id(2) },
            PhysicalOutputEvent::Moved { id: id(3), position: Position2D { x: 10, y: 0 } },
        ]
    );
    assert_eq!(position_of(&keeper, 3), Position2D { x: 10, y: 0 });
    let a = keeper.outputs().get(id(1)).unwrap();
    let c = keeper.outputs().get(id(3)).unwrap();
    assert!(a.is_adjacent(&c));
    assert!(keeper.outputs().get(id(2)).is_none());
}

#[test]
fn moving_an_output_far_away_brings_it_back() {
    let mut keeper = row_of_three();
    let events = keeper.move_output(id(3), Position2D { x: 1000, y: 0 });
    assert_eq!(
        events,
        vec![
            PhysicalOutputEvent::Moved { id: id(3), position: Position2D { x: 1000, y: 0 } },
            PhysicalOutputEvent::Moved { id: id(3), position: Position2D { x: 20, y: 0 } },
        ]
    );
    assert_eq!(position_of(&keeper, 3), Position2D { x: 20, y: 0 });
    assert_eq!(keeper.groups().len(), 1);
}

#[test]
fn a_far_output_forms_a_group_of_its_own_until_repaired() {
    let mut keeper = row_of_three();
    let placed = keeper.apply_event(PhysicalOutputEvent::Added {
        id: id(4),
        output: square(1000, 0),
    });
    assert_eq!(
        placed,
        Ok(vec![PhysicalOutputEvent::Added { id: id(4), output: square(1000, 0) }])
    );
    assert_eq!(keeper.groups(), vec![vec![id(1), id(2), id(3)], vec![id(4)]]);
    assert!(!keeper.connected(vec![id(1), id(4)]));
}

#[test]
fn the_nearest_output_is_the_neighbour() {
    let keeper = row_of_three();
    assert_eq!(keeper.nearest(id(1)), Some(id(2)));
    assert_eq!(keeper.nearest(id(3)), Some(id(2)));
    let a = keeper.outputs().get(id(1)).unwrap();
    let b = keeper.outputs().get(id(2)).unwrap();
    let c = keeper.outputs().get(id(3)).unwrap();
    assert_eq!(a.distance_squared(&b), 1);
    assert_eq!(a.distance_squared(&c), 121);
}

#[test]
fn the_nearest_of_equally_near_outputs_is_the_first_registered() {
    let keeper = row_of_three();
    assert_eq!(keeper.nearest(id(2)), Some(id(1)));
}

#[test]
fn nearest_needs_a_registered_output_and_a_second_one() {
    let mut keeper = OutputConstraintKeeper::new(SideBySide::new());
    assert_eq!(keeper.nearest(id(1)), None);
    keeper.add_output(id(1), ten());
    assert_eq!(keeper.nearest(id(1)), None);
    assert_eq!(keeper.nearest(id(9)), None);
}

#[test]
fn outputs_are_connected_again_once_a_removal_returns() {
    let mut keeper = row_of_three();
    assert!(keeper.connected(vec![id(1), id(3)]));
    keeper.remove_output(id(2));
    assert!(keeper.connected(vec![id(1), id(3)]));
    assert!(keeper.connected(vec![id(3), id(1)]));
}

#[test]
fn an_empty_list_is_not_connected() {
    let keeper = row_of_three();
    assert!(!keeper.connected(Vec::new()));
}

#[test]
fn an_output_is_connected_to_itself() {
    let keeper = row_of_three();
    assert!(keeper.connected(vec![id(2)]));
    assert!(keeper.connected(vec![id(7)]));
    assert!(!keeper.connected(vec![id(1), id(7)]));
}

#[test]
fn groups_are_the_same_when_asked_twice() {
    let mut keeper = row_of_three();
    keeper
        .apply_event(PhysicalOutputEvent::Added { id: id(4), output: square(500, 500) })
        .unwrap();
    let first = keeper.groups();
    let second = keeper.groups();
    assert_eq!(first, second);
    assert_eq!(first, vec![vec![id(1), id(2), id(3)], vec![id(4)]]);
}

#[test]
fn registry_and_graph_hold_the_same_outputs() {
    let mut keeper = row_of_three();
    keeper.move_output(id(1), Position2D { x: 300, y: 40 });
    keeper.remove_output(id(2));
    keeper.add_output(id(8), ten());
    let mut nodes: Vec<usize> = keeper.graph().nodes().collect();
    nodes.sort();
    let mut keys: Vec<usize> = keeper.outputs().ids().into_iter().map(|id| id.0).collect();
    keys.sort();
    assert_eq!(nodes, keys);
    assert_eq!(keys, vec![1, 3, 8]);
}

#[test]
fn adjacency_does_not_depend_on_the_order() {
    let a = square(0, 0);
    let b = square(10, 0);
    let c = square(10, 10);
    let d = square(5, 5);
    assert_eq!(a.is_adjacent(&b), b.is_adjacent(&a));
    assert_eq!(a.is_adjacent(&c), c.is_adjacent(&a));
    assert_eq!(a.is_adjacent(&d), d.is_adjacent(&a));
    assert!(a.is_adjacent(&b));
    assert!(!a.is_adjacent(&c));
    assert!(!a.is_adjacent(&d));
}

#[test]
fn touching_overlapping_and_separated_are_told_apart() {
    let a = square(0, 0);
    assert_eq!(a.distance_squared(&square(10, 0)), 1);
    assert_eq!(a.distance_squared(&square(9, 0)), 0);
    assert_eq!(a.distance_squared(&square(11, 0)), 4);
    assert_eq!(a.distance_squared(&square(10, 10)), 2);
    assert_eq!(a.distance_squared(&square(0, 10)), 1);
    assert_eq!(a.distance_squared(&square(13, 14)), 16 + 25);
}

#[test]
fn the_shape_is_the_rectangle_shrunk_by_one() {
    let shape = square(10, 20).get_shape();
    assert_eq!(shape.min_x, 10);
    assert_eq!(shape.min_y, 20);
    assert_eq!(shape.max_x, 19);
    assert_eq!(shape.max_y, 29);
}

#[test]
fn a_group_to_the_left_is_moved_up_to_the_edge() {
    let mut keeper = OutputConstraintKeeper::new(SideBySide::new());
    keeper.apply_event(PhysicalOutputEvent::Added { id: id(1), output: square(100, 0) }).unwrap();
    keeper.apply_event(PhysicalOutputEvent::Added { id: id(2), output: square(0, 0) }).unwrap();
    let events = keeper.move_output(id(2), Position2D { x: 20, y: 0 });
    assert_eq!(
        events,
        vec![
            PhysicalOutputEvent::Moved { id: id(2), position: Position2D { x: 20, y: 0 } },
            PhysicalOutputEvent::Moved { id: id(2), position: Position2D { x: 90, y: 0 } },
        ]
    );
    assert_eq!(keeper.groups().len(), 1);
}

#[test]
fn a_group_keeps_its_shape_when_it_is_moved() {
    let mut keeper = OutputConstraintKeeper::new(SideBySide::new());
    keeper.apply_event(PhysicalOutputEvent::Added { id: id(1), output: square(0, 0) }).unwrap();
    keeper.apply_event(PhysicalOutputEvent::Added { id: id(2), output: square(10, 0) }).unwrap();
    keeper.apply_event(PhysicalOutputEvent::Added { id: id(3), output: square(20, 0) }).unwrap();
    keeper.apply_event(PhysicalOutputEvent::Added { id: id(4), output: square(30, 0) }).unwrap();
    let events = keeper.remove_output(id(2));
    assert_eq!(
        events,
        vec![
            PhysicalOutputEvent::Removed { id: id(2) },
            PhysicalOutputEvent::Moved { id: id(3), position: Position2D { x: 10, y: 0 } },
            PhysicalOutputEvent::Moved { id: id(4), position: Position2D { x: 20, y: 0 } },
        ]
    );
    assert_eq!(keeper.groups(), vec![vec![id(1), id(3), id(4)]]);
}

#[test]
fn an_overlapping_output_is_pushed_out() {
    let mut keeper = OutputConstraintKeeper::new(SideBySide::new());
    keeper.add_output(id(1), ten());
    keeper.add_output(id(2), ten());
    let events = keeper.move_output(id(2), Position2D { x: 5, y: 0 });
    assert_eq!(
        events,
        vec![
            PhysicalOutputEvent::Moved { id: id(2), position: Position2D { x: 5, y: 0 } },
            PhysicalOutputEvent::Moved { id: id(2), position: Position2D { x: 10, y: 0 } },
        ]
    );
    assert_eq!(keeper.groups().len(), 1);
}

#[test]
fn an_output_moved_off_both_axes_lands_touching() {
    let mut keeper = OutputConstraintKeeper::new(SideBySide::new());
    keeper.add_output(id(1), ten());
    keeper.add_output(id(2), ten());
    let events = keeper.move_output(id(2), Position2D { x: 50, y: 50 });
    assert_eq!(
        events,
        vec![
            PhysicalOutputEvent::Moved { id: id(2), position: Position2D { x: 50, y: 50 } },
            PhysicalOutputEvent::Moved { id: id(2), position: Position2D { x: 10, y: 9 } },
        ]
    );
    assert_eq!(keeper.groups(), vec![vec![id(1), id(2)]]);
    let a = keeper.outputs().get(id(1)).unwrap();
    let b = keeper.outputs().get(id(2)).unwrap();
    assert!(a.is_adjacent(&b));
    assert_eq!(a.distance_squared(&b), 1);
}

#[test]
fn an_output_moved_down_and_to_the_right_comes_back_beside_its_neighbour() {
    let mut keeper = OutputConstraintKeeper::new(SideBySide::new());
    keeper.add_output(id(1), ten());
    keeper.add_output(id(2), ten());
    let events = keeper.move_output(id(2), Position2D { x: 30, y: 40 });
    assert_eq!(
        events,
        vec![
            PhysicalOutputEvent::Moved { id: id(2), position: Position2D { x: 30, y: 40 } },
            PhysicalOutputEvent::Moved { id: id(2), position: Position2D { x: 10, y: 9 } },
        ]
    );
    assert_eq!(keeper.groups().len(), 1);
    let a = keeper.outputs().get(id(1)).unwrap();
    let b = keeper.outputs().get(id(2)).unwrap();
    assert!(a.is_adjacent(&b));
}

#[test]
fn an_output_moved_up_and_to_the_left_comes_back_beside_its_neighbour() {
    let mut keeper = OutputConstraintKeeper::new(SideBySide::new());
    keeper.apply_event(PhysicalOutputEvent::Added { id: id(1), output: square(100, 100) }).unwrap();
    keeper.apply_event(PhysicalOutputEvent::Added { id: id(2), output: square(110, 100) }).unwrap();
    let events = keeper.move_output(id(2), Position2D { x: 20, y: 30 });
    assert_eq!(
        events,
        vec![
            PhysicalOutputEvent::Moved { id: id(2), position: Position2D { x: 20, y: 30 } },
            PhysicalOutputEvent::Moved { id: id(2), position: Position2D { x: 90, y: 91 } },
        ]
    );
    assert_eq!(keeper.groups().len(), 1);
    let a = keeper.outputs().get(id(1)).unwrap();
    let b = keeper.outputs().get(id(2)).unwrap();
    assert_eq!(a.distance_squared(&b), 1);
}

#[test]
fn an_output_with_a_gap_of_one_beside_it_is_moved_in_line() {
    let mut keeper = OutputConstraintKeeper::new(SideBySide::new());
    keeper.add_output(id(1), ten());
    keeper.add_output(id(2), ten());
    let events = keeper.move_output(id(2), Position2D { x: 10, y: 40 });
    assert_eq!(
        events,
        vec![
            PhysicalOutputEvent::Moved { id: id(2), position: Position2D { x: 10, y: 40 } },
            PhysicalOutputEvent::Moved { id: id(2), position: Position2D { x: 10, y: 9 } },
        ]
    );
    assert_eq!(keeper.groups().len(), 1);
}

#[test]
fn removing_the_middle_of_a_staircase_pulls_the_last_step_in() {
    let mut keeper = OutputConstraintKeeper::new(SideBySide::new());
    keeper.apply_event(PhysicalOutputEvent::Added { id: id(1), output: square(0, 0) }).unwrap();
    keeper.apply_event(PhysicalOutputEvent::Added { id: id(2), output: square(10, 9) }).unwrap();
    keeper.apply_event(PhysicalOutputEvent::Added { id: id(3), output: square(20, 18) }).unwrap();
    assert_eq!(keeper.groups().len(), 1);
    let events = keeper.remove_output(id(2));
    assert_eq!(
        events,
        vec![
            PhysicalOutputEvent::Removed { id: id(2) },
            PhysicalOutputEvent::Moved { id: id(3), position: Position2D { x: 10, y: 9 } },
        ]
    );
    assert_eq!(keeper.groups(), vec![vec![id(1), id(3)]]);
}

#[test]
fn outputs_that_meet_at_a_corner_are_left_where_they_are() {
    let mut keeper = OutputConstraintKeeper::new(SideBySide::new());
    keeper.add_output(id(1), ten());
    keeper.add_output(id(2), ten());
    let events = keeper.move_output(id(2), Position2D { x: 10, y: 10 });
    assert_eq!(
        events,
        vec![PhysicalOutputEvent::Moved { id: id(2), position: Position2D { x: 10, y: 10 } }]
    );
    assert_eq!(keeper.groups(), vec![vec![id(1)], vec![id(2)]]);
}

#[test]
fn outputs_that_overlap_by_a_single_column_are_left_where_they_are() {
    let mut keeper = OutputConstraintKeeper::new(SideBySide::new());
    keeper.add_output(id(1), ten());
    keeper.add_output(id(2), ten());
    let events = keeper.move_output(id(2), Position2D { x: 9, y: 0 });
    assert_eq!(
        events,
        vec![PhysicalOutputEvent::Moved { id: id(2), position: Position2D { x: 9, y: 0 } }]
    );
    assert_eq!(keeper.groups(), vec![vec![id(1)], vec![id(2)]]);
}

#[test]
fn a_group_that_would_leave_the_coordinate_space_stays() {
    let mut keeper = OutputConstraintKeeper::new(SideBySide::new());
    let wide = PhysicalOutput::new(Position2D { x: 0, y: 20 }, Size2D { width: 210, height: 10 });
    let tall = PhysicalOutput::new(Position2D { x: 200, y: 0 }, Size2D { width: 10, height: 20 });
    keeper.apply_event(PhysicalOutputEvent::Added { id: id(1), output: square(100, 10) }).unwrap();
    keeper.apply_event(PhysicalOutputEvent::Added { id: id(2), output: wide }).unwrap();
    keeper.apply_event(PhysicalOutputEvent::Added { id: id(3), output: tall }).unwrap();
    assert_eq!(keeper.groups(), vec![vec![id(1), id(2), id(3)]]);
    let events = keeper.move_output(id(1), Position2D { x: 100, y: 0 });
    assert_eq!(
        events,
        vec![PhysicalOutputEvent::Moved { id: id(1), position: Position2D { x: 100, y: 0 } }]
    );
    assert_eq!(keeper.groups(), vec![vec![id(1)], vec![id(2), id(3)]]);
}

#[test]
fn an_unknown_output_cannot_be_moved_or_removed() {
    let mut keeper = row_of_three();
    assert_eq!(
        keeper.apply_event(PhysicalOutputEvent::Moved { id: id(9), position: Position2D { x: 1, y: 1 } }),
        Err(LayoutError::UnknownOutput)
    );
    assert_eq!(
        keeper.apply_event(PhysicalOutputEvent::Removed { id: id(9) }),
        Err(LayoutError::UnknownOutput)
    );
    assert_eq!(keeper.move_output(id(9), Position2D { x: 1, y: 1 }), Vec::new());
    assert_eq!(keeper.remove_output(id(9)), Vec::new());
    assert_eq!(keeper.outputs().len(), 3);
}

#[test]
fn an_output_cannot_be_added_twice() {
    let mut keeper = row_of_three();
    assert_eq!(
        keeper.apply_event(PhysicalOutputEvent::Added { id: id(2), output: square(40, 0) }),
        Err(LayoutError::DuplicateOutput)
    );
    assert_eq!(keeper.add_output(id(2), ten()), Vec::new());
    assert_eq!(position_of(&keeper, 2), Position2D { x: 10, y: 0 });
}

#[test]
fn a_rectangle_without_extent_is_turned_down() {
    let mut keeper = row_of_three();
    let flat = PhysicalOutput::new(Position2D { x: 40, y: 0 }, Size2D { width: 10, height: 0 });
    assert_eq!(
        keeper.apply_event(PhysicalOutputEvent::Added { id: id(4), output: flat }),
        Err(LayoutError::InvalidGeometry)
    );
    assert_eq!(keeper.add_output(id(4), Size2D { width: 0, height: 10 }), Vec::new());
    assert!(!flat.is_valid());
}

#[test]
fn a_rectangle_beyond_the_coordinate_space_is_turned_down() {
    let mut keeper = row_of_three();
    assert_eq!(
        keeper.apply_event(PhysicalOutputEvent::Moved {
            id: id(1),
            position: Position2D { x: u32::MAX - 5, y: 0 },
        }),
        Err(LayoutError::InvalidGeometry)
    );
    assert_eq!(position_of(&keeper, 1), Position2D { x: 0, y: 0 });
}

#[test]
fn a_move_within_the_layout_changes_only_the_edges() {
    let mut keeper = row_of_three();
    keeper.apply_event(PhysicalOutputEvent::Added { id: id(4), output: square(10, 10) }).unwrap();
    assert!(keeper.graph().contains_edge(2, 3));
    assert!(keeper.graph().contains_edge(2, 4));
    assert!(!keeper.graph().contains_edge(3, 4));
    let events = keeper.move_output(id(3), Position2D { x: 20, y: 10 });
    assert_eq!(
        events,
        vec![PhysicalOutputEvent::Moved { id: id(3), position: Position2D { x: 20, y: 10 } }]
    );
    assert!(!keeper.graph().contains_edge(2, 3));
    assert!(keeper.graph().contains_edge(3, 4));
    assert!(keeper.graph().contains_edge(4, 3));
    assert_eq!(keeper.graph().edge_count(), 3);
    assert_eq!(keeper.graph().node_count(), 4);
    assert_eq!(keeper.groups(), vec![vec![id(1), id(2), id(3), id(4)]]);
}

#[test]
fn a_removed_output_leaves_the_graph_with_its_edges() {
    let mut keeper = row_of_three();
    keeper.remove_output(id(3));
    assert!(!keeper.graph().contains_node(3));
    assert!(!keeper.graph().contains_edge(2, 3));
    assert!(keeper.graph().contains_edge(1, 2));
    assert_eq!(keeper.graph().edge_count(), 1);
    assert_eq!(keeper.graph().node_count(), 2);
}

#[test]
fn a_group_that_lands_flush_heals_the_layout_in_one_pass() {
    let mut keeper = OutputConstraintKeeper::new(SideBySide::new());
    keeper.apply_event(PhysicalOutputEvent::Added { id: id(1), output: square(50, 50) }).unwrap();
    keeper.apply_event(PhysicalOutputEvent::Added { id: id(2), output: square(60, 50) }).unwrap();
    keeper.apply_event(PhysicalOutputEvent::Added { id: id(3), output: square(55, 60) }).unwrap();
    let up = keeper.move_output(id(3), Position2D { x: 55, y: 200 });
    assert_eq!(up.len(), 2);
    assert_eq!(position_of(&keeper, 3), Position2D { x: 55, y: 60 });
    let left = keeper.move_output(id(3), Position2D { x: 0, y: 55 });
    assert_eq!(
        left,
        vec![
            PhysicalOutputEvent::Moved { id: id(3), position: Position2D { x: 0, y: 55 } },
            PhysicalOutputEvent::Moved { id: id(3), position: Position2D { x: 40, y: 55 } },
        ]
    );
    assert_eq!(keeper.groups().len(), 1);
    let above = keeper.move_output(id(3), Position2D { x: 52, y: 0 });
    assert_eq!(
        above,
        vec![
            PhysicalOutputEvent::Moved { id: id(3), position: Position2D { x: 52, y: 0 } },
            PhysicalOutputEvent::Moved { id: id(3), position: Position2D { x: 52, y: 40 } },
        ]
    );
    assert_eq!(keeper.groups().len(), 1);
}

#[test]
fn several_changes_are_applied_in_order() {
    let mut keeper = OutputConstraintKeeper::new(SideBySide::new());
    let applied = keeper.apply_events(vec![
        PhysicalOutputEvent::Added { id: id(1), output: square(0, 0) },
        PhysicalOutputEvent::Added { id: id(1), output: square(30, 0) },
        PhysicalOutputEvent::Added { id: id(2), output: square(10, 0) },
        PhysicalOutputEvent::Removed { id: id(5) },
        PhysicalOutputEvent::Moved { id: id(2), position: Position2D { x: 40, y: 0 } },
    ]);
    assert_eq!(
        applied,
        vec![
            PhysicalOutputEvent::Added { id: id(1), output: square(0, 0) },
            PhysicalOutputEvent::Added { id: id(2), output: square(10, 0) },
            PhysicalOutputEvent::Moved { id: id(2), position: Position2D { x: 40, y: 0 } },
            PhysicalOutputEvent::Moved { id: id(2), position: Position2D { x: 10, y: 0 } },
        ]
    );
}

#[test]
fn the_layout_is_in_one_piece_after_each_of_a_run_of_requests() {
    let mut keeper = OutputConstraintKeeper::new(SideBySide::new());
    let mut live: Vec<usize> = Vec::new();
    for n in 0..6 {
        keeper.add_output(id(n), ten());
        live.push(n);
        assert_eq!(keeper.groups().len(), 1);
    }
    let mut seed: u32 = 2024;
    let mut next: usize = 6;
    for step in 0..80 {
        seed = seed.wrapping_mul(1103515245).wrapping_add(12345);
        let which = ((seed >> 8) as usize) % live.len();
        if step % 7 == 6 && live.len() > 2 {
            keeper.remove_output(id(live.remove(which)));
        } else if step % 11 == 10 {
            let row = (0..keeper.outputs().len())
                .map(|index| keeper.outputs().entry(index).output)
                .map(|output| (output.position.x + output.size.width, output.position.y))
                .max()
                .unwrap();
            let beside = PhysicalOutput::new(Position2D { x: row.0, y: row.1 }, ten());
            keeper.apply_event(PhysicalOutputEvent::Added { id: id(next), output: beside }).unwrap();
            live.push(next);
            next += 1;
        } else {
            let x = 1000 + (seed >> 4) % 100_000;
            let y = 1000 + (seed >> 12) % 100_000;
            let events = keeper.move_output(id(live[which]), Position2D { x, y });
            assert!(events.len() >= 2);
        }
        assert_eq!(keeper.groups().len(), 1, "after step {}", step);
        assert!(keeper.connected(live.iter().map(|n| id(*n)).collect()));
    }
}

#[test]
fn registry_and_graph_agree_after_each_of_a_run_of_requests() {
    let mut keeper = OutputConstraintKeeper::new(SideBySide::new());
    let mut seed: u32 = 12345;
    let mut live: Vec<usize> = Vec::new();
    let mut next: usize = 0;
    for _ in 0..60 {
        seed = seed.wrapping_mul(1103515245).wrapping_add(12345);
        let choice = (seed >> 16) % 3;
        if choice == 0 || live.len() < 2 {
            keeper.add_output(id(next), ten());
            live.push(next);
            next += 1;
        } else if choice == 1 {
            let which = ((seed >> 8) as usize) % live.len();
            let x = (seed >> 4) % 500;
            keeper.move_output(id(live[which]), Position2D { x, y: 0 });
        } else {
            let which = ((seed >> 8) as usize) % live.len();
            keeper.remove_output(id(live.remove(which)));
        }
        let mut nodes: Vec<usize> = keeper.graph().nodes().collect();
        nodes.sort();
        let mut keys: Vec<usize> = keeper.outputs().ids().into_iter().map(|id| id.0).collect();
        keys.sort();
        assert_eq!(nodes, keys);
    }
}
