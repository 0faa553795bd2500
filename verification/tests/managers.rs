use output_layout::backends::linux::common::{
    button_of_code, detail_to_button_code, wheel_step_of_release,
};
use output_layout::backends::linux::{keysym_to_button, keysym_to_w3c_keycode, W3cKey};
use output_layout::backends::output_backends::{StackedOutput, VirtualOutputBackend};
use output_layout::backends::partial_backends::new_output_manager::{
    Output, OutputManager, OutputUpdate,
};
use output_layout::backends::partial_backends::surface_manager::{
    Surface, SurfaceManager, SurfaceUpdate,
};
use output_layout::backends::post_processing::{SurfaceChange, SurfaceMark};
use output_layout::backends::state_tracker::{StateChange, SurfaceGeometry};
use output_layout::backends::{PostProcessing, StateTracker};
use output_layout::definitions::{
    Button, Mode, OutputEvent, OutputId, OutputInfo, Position2D, Position3D, Rectangle, SeatId,
    SeatInfo, Size2D, Subpixel, SurfaceId,
};

fn mode(width: u32, height: u32) -> Mode {
    Mode { resolution: Size2D { width, height }, refresh_rate: 60, is_preferred: true }
}

fn add(backend: &mut VirtualOutputBackend, id: usize, width: u32) -> Vec<(OutputId, OutputEvent)> {
    backend.add_output(
        OutputId(id),
        mode(width, 100),
        vec![mode(width, 100)],
        Size2D { width: 300, height: 200 },
        Subpixel::Unknown,
    )
}

fn places(backend: &VirtualOutputBackend) -> Vec<u32> {
    let mut found = Vec::new();
    let mut id = 0;
    while id < 10 {
        if let Some(index) = backend.index_of(OutputId(id)) {
            found.push(index as u32);
        }
        id += 1;
    }
    found
}

#[test]
fn the_virtual_backend_lays_outputs_out_in_a_row() {
    let mut backend = VirtualOutputBackend::new();
    let first = add(&mut backend, 1, 800);
    assert_eq!(first.len(), 1);
    assert_eq!(first[0].0, OutputId(1));
    assert_eq!(
        first[0].1,
        OutputEvent::Added(OutputInfo {
            position: Position2D { x: 0, y: 0 },
            selected_mode: mode(800, 100),
            available_modes: vec![mode(800, 100)],
            physical_size: Size2D { width: 300, height: 200 },
            subpixel: Subpixel::Unknown,
        })
    );
    let second = add(&mut backend, 2, 600);
    match &second[0].1 {
        OutputEvent::Added(info) => assert_eq!(info.position, Position2D { x: 800, y: 0 }),
        _ => panic!(),
    }
    let third = add(&mut backend, 3, 400);
    match &third[0].1 {
        OutputEvent::Added(info) => assert_eq!(info.position, Position2D { x: 1400, y: 0 }),
        _ => panic!(),
    }
    assert_eq!(places(&backend), vec![0, 1, 2]);
}

#[test]
fn the_virtual_backend_turns_a_second_add_of_an_output_down() {
    let mut backend = VirtualOutputBackend::new();
    add(&mut backend, 1, 800);
    assert_eq!(add(&mut backend, 1, 600), Vec::new());
    assert_eq!(places(&backend), vec![0]);
}

#[test]
fn the_virtual_backend_closes_the_gap_of_a_removed_output() {
    let mut backend = VirtualOutputBackend::new();
    add(&mut backend, 1, 800);
    add(&mut backend, 2, 600);
    add(&mut backend, 3, 400);
    add(&mut backend, 4, 200);
    let events = backend.del_output(OutputId(2));
    assert_eq!(
        events,
        vec![
            (OutputId(2), OutputEvent::Removed),
            (OutputId(3), OutputEvent::Moved(Position2D { x: 800, y: 0 })),
            (OutputId(4), OutputEvent::Moved(Position2D { x: 1200, y: 0 })),
        ]
    );
    assert_eq!(backend.index_of(OutputId(2)), None);
    assert_eq!(backend.index_of(OutputId(4)), Some(2));
    let next = add(&mut backend, 5, 100);
    match &next[0].1 {
        OutputEvent::Added(info) => assert_eq!(info.position, Position2D { x: 1400, y: 0 }),
        _ => panic!(),
    }
}

#[test]
fn the_virtual_backend_removes_the_last_output_without_moves() {
    let mut backend = VirtualOutputBackend::new();
    add(&mut backend, 1, 800);
    add(&mut backend, 2, 600);
    assert_eq!(backend.del_output(OutputId(2)), vec![(OutputId(2), OutputEvent::Removed)]);
    assert_eq!(backend.del_output(OutputId(2)), Vec::new());
    assert_eq!(backend.del_output(OutputId(9)), Vec::new());
}

#[test]
fn a_stacked_output_holds_its_handle_place_and_extent() {
    let output = StackedOutput {
        id: OutputId(1),
        position: Position2D { x: 2, y: 3 },
        size: Size2D { width: 4, height: 5 },
    };
    assert_eq!(output.id, OutputId(1));
    assert_eq!(output.position.x + output.size.width, 6);
}

fn row_of(manager: &OutputManager, ids: &[usize]) -> Vec<(i32, u32)> {
    ids.iter()
        .map(|id| {
            manager
                .output_ref(*id, |output: &Output| {
                    (output.geometry().position.x, output.geometry().size.width)
                })
                .unwrap()
        })
        .collect()
}

fn moves(updates: Vec<OutputUpdate>) -> Vec<(usize, i32)> {
    updates
        .into_iter()
        .map(|update| match update {
            OutputUpdate::PositionChanged { id, position } => (id, position.x),
        })
        .collect()
}

#[test]
fn an_output_is_made_from_anything_that_gives_a_rectangle() {
    let output = Output::new(3, (Position2D { x: 1i32, y: 2 }, Size2D { width: 3u32, height: 4 }));
    assert_eq!(output.id(), 3);
    assert_eq!(
        output.geometry(),
        Rectangle { position: Position2D { x: 1, y: 2 }, size: Size2D { width: 3, height: 4 } }
    );
    let swapped = Output::new(4, (Size2D { width: 3u32, height: 4 }, Position2D { x: 1i32, y: 2 }));
    assert_eq!(swapped.geometry(), output.geometry());
}

#[test]
fn the_row_manager_puts_each_output_behind_the_last() {
    let mut manager = OutputManager::new();
    manager.add_output(1, Size2D { width: 100, height: 50 });
    manager.add_output(2, Size2D { width: 200, height: 50 });
    manager.add_output(3, Size2D { width: 300, height: 50 });
    assert_eq!(manager.len(), 3);
    assert_eq!(row_of(&manager, &[1, 2, 3]), vec![(0, 100), (100, 200), (300, 300)]);
    assert_eq!(manager.position_of(2), Some(1));
    assert_eq!(manager.position_of(7), None);
    assert_eq!(manager.output_ref(7, |output: &Output| output.id()), None);
}

#[test]
fn the_row_manager_settles_the_row_after_a_removal() {
    let mut manager = OutputManager::new();
    manager.add_output(1, Size2D { width: 100, height: 50 });
    manager.add_output(2, Size2D { width: 200, height: 50 });
    manager.add_output(3, Size2D { width: 300, height: 50 });
    manager.add_output(4, Size2D { width: 400, height: 50 });
    let updates = manager.del_output(2);
    assert_eq!(moves(updates), vec![(3, 100), (4, 400)]);
    assert_eq!(row_of(&manager, &[1, 3, 4]), vec![(0, 100), (100, 300), (400, 400)]);
    assert_eq!(moves(manager.del_output(4)), Vec::new());
    assert_eq!(moves(manager.del_output(9)), Vec::new());
    assert_eq!(manager.len(), 2);
}

#[test]
fn settling_stops_at_the_first_output_that_is_in_place() {
    let mut manager = OutputManager::new();
    manager.add_output(1, Size2D { width: 100, height: 50 });
    manager.add_output(2, Size2D { width: 200, height: 50 });
    manager.add_output(3, Size2D { width: 300, height: 50 });
    let widened = manager.surface_mut(1, |output: Output| {
        let geometry = output.geometry();
        let wider = Rectangle {
            position: geometry.position,
            size: Size2D { width: 150, height: geometry.size.height },
        };
        (Output::new(output.id(), wider), geometry.size.width)
    });
    let (old_width, updates) = widened.unwrap();
    assert_eq!(old_width, 100);
    assert_eq!(moves(updates), Vec::new());
    assert_eq!(row_of(&manager, &[1, 2, 3]), vec![(0, 150), (100, 200), (300, 300)]);
    let updates = manager.update_offset(1, 3);
    assert_eq!(moves(updates), vec![(2, 150), (3, 350)]);
    assert_eq!(row_of(&manager, &[1, 2, 3]), vec![(0, 150), (150, 200), (350, 300)]);
}

#[test]
fn a_changed_output_is_moved_back_to_its_place() {
    let mut manager = OutputManager::new();
    manager.add_output(1, Size2D { width: 100, height: 50 });
    manager.add_output(2, Size2D { width: 200, height: 50 });
    let result = manager.surface_mut(2, |output: Output| {
        let geometry = output.geometry();
        let shifted = Rectangle {
            position: Position2D { x: 500, y: 3 },
            size: geometry.size,
        };
        (Output::new(output.id(), shifted), ())
    });
    let (_, updates) = result.unwrap();
    assert_eq!(moves(updates), vec![(2, 100)]);
    assert_eq!(row_of(&manager, &[2]), vec![(100, 200)]);
    assert!(manager.surface_mut(9, |output: Output| (output, ())).is_none());
}

fn depths(manager: &SurfaceManager, ids: &[usize]) -> Vec<u32> {
    ids.iter()
        .map(|id| manager.surface_ref(*id, |surface: &Surface| surface.position.z).unwrap())
        .collect()
}

fn restacks(updates: Vec<SurfaceUpdate>) -> Vec<(usize, u32)> {
    updates
        .into_iter()
        .map(|update| match update {
            SurfaceUpdate::PositionChanged { id, position } => (id, position.z),
        })
        .collect()
}

#[test]
fn a_new_surface_goes_on_top_of_the_stack() {
    let mut manager = SurfaceManager::new();
    assert_eq!(restacks(manager.add_surface(1, Size2D { width: 10, height: 10 })), Vec::new());
    assert_eq!(
        restacks(manager.add_surface(2, Size2D { width: 10, height: 10 })),
        vec![(1, 1)]
    );
    assert_eq!(
        restacks(manager.add_surface_inner(
            3,
            Position2D { x: 5, y: 6 },
            Size2D { width: 10, height: 10 }
        )),
        vec![(2, 1), (1, 2)]
    );
    assert_eq!(manager.len(), 3);
    assert_eq!(depths(&manager, &[3, 2, 1]), vec![0, 1, 2]);
    assert_eq!(manager.position_of(3), Some(0));
    assert_eq!(
        manager.surface_ref(3, |surface: &Surface| surface.position),
        Some(Position3D { x: 5, y: 6, z: 0 })
    );
}

#[test]
fn the_surfaces_below_a_removed_surface_move_up() {
    let mut manager = SurfaceManager::new();
    manager.add_surface(1, Size2D { width: 10, height: 10 });
    manager.add_surface(2, Size2D { width: 10, height: 10 });
    manager.add_surface(3, Size2D { width: 10, height: 10 });
    assert_eq!(restacks(manager.del_surface(2)), vec![(1, 1)]);
    assert_eq!(depths(&manager, &[3, 1]), vec![0, 1]);
    assert_eq!(restacks(manager.del_surface(9)), Vec::new());
    assert_eq!(restacks(manager.del_surface(1)), Vec::new());
    assert_eq!(manager.len(), 1);
}

#[test]
fn a_surface_can_be_changed_in_its_place() {
    let mut manager = SurfaceManager::new();
    manager.add_surface(1, Size2D { width: 10, height: 10 });
    manager.add_surface(2, Size2D { width: 10, height: 10 });
    let old = manager.surface_mut(1, |surface: Surface| {
        let resized = Surface {
            id: surface.id,
            position: surface.position,
            size: Size2D { width: 20, height: 30 },
        };
        (resized, surface.size)
    });
    assert_eq!(old, Some(Size2D { width: 10, height: 10 }));
    assert_eq!(
        manager.surface_ref(1, |surface: &Surface| surface.size),
        Some(Size2D { width: 20, height: 30 })
    );
    assert_eq!(depths(&manager, &[2, 1]), vec![0, 1]);
    assert_eq!(manager.surface_mut(9, |surface: Surface| (surface, ())), None);
}

#[test]
fn surfaces_compare_by_their_depth() {
    let near = Surface {
        id: 1,
        position: Position3D { x: 0, y: 0, z: 1 },
        size: Size2D { width: 10, height: 10 },
    };
    let far = Surface {
        id: 2,
        position: Position3D { x: 50, y: 50, z: 4 },
        size: Size2D { width: 20, height: 20 },
    };
    let level = Surface {
        id: 3,
        position: Position3D { x: 9, y: 9, z: 1 },
        size: Size2D { width: 1, height: 1 },
    };
    assert!(near < far);
    assert!(far > near);
    assert!(near == level);
    assert!(near != far);
    assert!(near <= level);
}

#[test]
fn a_surface_contains_what_lies_strictly_inside() {
    let surface = Surface {
        id: 1,
        position: Position3D { x: 10, y: 10, z: 0 },
        size: Size2D { width: 5, height: 5 },
    };
    assert!(surface.contains(Position2D { x: 12, y: 14 }));
    assert!(!surface.contains(Position2D { x: 10, y: 12 }));
    assert!(!surface.contains(Position2D { x: 15, y: 12 }));
    assert!(!surface.contains(Position2D { x: 12, y: 9 }));
    let edge = Surface {
        id: 2,
        position: Position3D { x: u32::MAX - 2, y: 0, z: 0 },
        size: Size2D { width: 100, height: 5 },
    };
    assert!(edge.contains(Position2D { x: u32::MAX, y: 1 }));
}

fn moved(id: usize) -> Option<SurfaceMark> {
    Some(SurfaceMark { id: SurfaceId::new(id), change: SurfaceChange::Moved })
}

fn resized(id: usize) -> Option<SurfaceMark> {
    Some(SurfaceMark { id: SurfaceId::new(id), change: SurfaceChange::Resized })
}

#[test]
fn only_the_first_move_and_the_first_resize_of_a_surface_are_kept() {
    let processing = PostProcessing::new();
    let kept = processing.process(vec![
        moved(1),
        None,
        moved(1),
        resized(1),
        moved(2),
        resized(1),
        None,
        moved(2),
        resized(2),
    ]);
    assert_eq!(kept, vec![true, true, false, true, true, false, true, false, true]);
    assert_eq!(processing.process(Vec::new()), Vec::<bool>::new());
}

fn seat(id: usize, name: &str) -> StateChange {
    StateChange::SeatAdded {
        id: SeatId(id),
        info: SeatInfo { id: SeatId(id), name: String::from(name) },
    }
}

fn output_info(x: u32) -> OutputInfo {
    OutputInfo {
        position: Position2D { x, y: 0 },
        selected_mode: mode(800, 600),
        available_modes: vec![mode(800, 600)],
        physical_size: Size2D { width: 300, height: 200 },
        subpixel: Subpixel::NoSubpixel,
    }
}

fn geometry(x: u32, y: u32, width: u32, height: u32) -> SurfaceGeometry {
    SurfaceGeometry { position: Position2D { x, y }, size: Size2D { width, height } }
}

#[test]
fn the_tracker_follows_seats_outputs_and_surfaces() {
    let mut tracker = StateTracker::new();
    tracker.update(vec![
        seat(0, "seat-0"),
        seat(1, "seat-1"),
        StateChange::OutputAdded { id: OutputId(5), info: output_info(0) },
        StateChange::SurfaceAdded { id: SurfaceId::new(7), geometry: geometry(1, 2, 30, 40) },
        StateChange::SeatRemoved { id: SeatId(0) },
        seat(1, "renamed"),
        StateChange::SurfaceMoved { id: SurfaceId::new(7), position: Position2D { x: 9, y: 8 } },
        StateChange::SurfaceResized {
            id: SurfaceId::new(7),
            size: Size2D { width: 50, height: 60 },
        },
        StateChange::SurfaceMoved { id: SurfaceId::new(99), position: Position2D { x: 1, y: 1 } },
    ]);
    assert_eq!(tracker.seats().len(), 1);
    assert_eq!(tracker.seats().get(&0), None);
    assert_eq!(tracker.seats().get(&1).unwrap().name, "renamed");
    assert_eq!(tracker.outputs().get(&5), Some(&output_info(0)));
    assert_eq!(tracker.surfaces().get(&7), Some(&geometry(9, 8, 50, 60)));
    assert_eq!(tracker.surfaces().get(&99), None);
    assert_eq!(tracker.surfaces().len(), 1);
    tracker.apply(StateChange::OutputRemoved { id: OutputId(5) });
    tracker.apply(StateChange::SurfaceRemoved { id: SurfaceId::new(7) });
    assert_eq!(tracker.outputs().len(), 0);
    assert_eq!(tracker.surfaces().len(), 0);
}

#[test]
fn keysyms_of_letters_and_digits_name_keys() {
    assert_eq!(keysym_to_w3c_keycode(0x41), Some(W3cKey::Letter(0)));
    assert_eq!(keysym_to_w3c_keycode(0x61), Some(W3cKey::Letter(0)));
    assert_eq!(keysym_to_w3c_keycode(0x5a), Some(W3cKey::Letter(25)));
    assert_eq!(keysym_to_w3c_keycode(0x7a), Some(W3cKey::Letter(25)));
    assert_eq!(keysym_to_w3c_keycode(0x30), Some(W3cKey::Digit(0)));
    assert_eq!(keysym_to_w3c_keycode(0x39), Some(W3cKey::Digit(9)));
    assert_eq!(keysym_to_w3c_keycode(0x40), None);
    assert_eq!(keysym_to_w3c_keycode(0x5b), None);
    assert_eq!(keysym_to_w3c_keycode(0xff0d), None);
}

#[test]
fn keysyms_of_pointer_buttons_name_buttons() {
    assert_eq!(keysym_to_button(0xfee9), Some(Button::Left));
    assert_eq!(keysym_to_button(0xfeea), Some(Button::Middle));
    assert_eq!(keysym_to_button(0xfeeb), Some(Button::Right));
    assert_eq!(keysym_to_button(0xfeec), None);
    assert_eq!(keysym_to_button(0x41), None);
}

#[test]
fn core_buttons_have_button_codes() {
    assert_eq!(detail_to_button_code(0), 0);
    assert_eq!(detail_to_button_code(1), 272);
    assert_eq!(detail_to_button_code(2), 273);
    assert_eq!(detail_to_button_code(3), 274);
    assert_eq!(detail_to_button_code(4), 275);
    assert_eq!(detail_to_button_code(5), 276);
    assert_eq!(detail_to_button_code(8), 275);
    assert_eq!(detail_to_button_code(9), 276);
    assert_eq!(button_of_code(272), Some(Button::Left));
    assert_eq!(button_of_code(273), Some(Button::Middle));
    assert_eq!(button_of_code(274), Some(Button::Right));
    assert_eq!(button_of_code(275), None);
    assert_eq!(wheel_step_of_release(275), Some(-1));
    assert_eq!(wheel_step_of_release(276), Some(1));
    assert_eq!(wheel_step_of_release(272), None);
}
