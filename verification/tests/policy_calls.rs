use output_layout::backends::partial_backends::{
    OutputConstraintKeeper, OutputManager, PhysicalOutput, PhysicalOutputEvent, Registry,
};
use output_layout::definitions::{OutputId, Position2D, Size2D};
use petgraph::graphmap::GraphMap;
use petgraph::Undirected;
use std::hash::RandomState;

/// What the policy was shown: the nodes and the edges of the graph and the
/// entries of the registry.
#[derive(Debug, Clone, PartialEq)]
struct Shown {
    nodes: Vec<usize>,
    edges: Vec<(usize, usize)>,
    entries: Vec<(usize, u32, u32, u32, u32)>,
}

#[derive(Debug, Clone, PartialEq)]
enum Call {
    Add { shown: Shown, id: usize, size: (u32, u32) },
    Move { shown: Shown, id: usize, position: (u32, u32) },
    Remove { shown: Shown, id: usize },
}

fn shown(graph: &GraphMap<usize, (), Undirected, RandomState>, outputs: &Registry) -> Shown {
    let mut nodes: Vec<usize> = graph.nodes().collect();
    nodes.sort();
    let mut edges: Vec<(usize, usize)> = graph
        .all_edges()
        .map(|(a, b, _)| if a < b { (a, b) } else { (b, a) })
        .collect();
    edges.sort();
    let entries = (0..outputs.len())
        .map(|index| outputs.entry(index))
        .map(|entry| {
            (
                entry.id.0,
                entry.output.position.x,
                entry.output.position.y,
                entry.output.size.width,
                entry.output.size.height,
            )
        })
        .collect();
    Shown { nodes, edges, entries }
}

/// A policy that writes down every call and answers as it was told to.
struct Recorder {
    calls: Vec<Call>,
    answers: Vec<Vec<PhysicalOutputEvent>>,
}

impl Recorder {
    fn new(answers: Vec<Vec<PhysicalOutputEvent>>) -> Self {
        Recorder { calls: Vec::new(), answers }
    }

    fn answer(&mut self) -> Vec<PhysicalOutputEvent> {
        if self.answers.is_empty() {
            Vec::new()
        } else {
            self.answers.remove(0)
        }
    }
}

impl OutputManager for Recorder {
    fn on_add(
        &mut self,
        graph: &GraphMap<usize, (), Undirected, RandomState>,
        outputs: &Registry,
        id: OutputId,
        size: Size2D<u32>,
    ) -> Vec<PhysicalOutputEvent> {
        self.calls.push(Call::Add {
            shown: shown(graph, outputs),
            id: id.0,
            size: (size.width, size.height),
        });
        self.answer()
    }

    fn on_move(
        &mut self,
        graph: &GraphMap<usize, (), Undirected, RandomState>,
        outputs: &Registry,
        id: OutputId,
        position: Position2D<u32>,
    ) -> Vec<PhysicalOutputEvent> {
        self.calls.push(Call::Move {
            shown: shown(graph, outputs),
            id: id.0,
            position: (position.x, position.y),
        });
        self.answer()
    }

    fn on_remove(
        &mut self,
        graph: &GraphMap<usize, (), Undirected, RandomState>,
        outputs: &Registry,
        id: OutputId,
    ) -> Vec<PhysicalOutputEvent> {
        self.calls.push(Call::Remove { shown: shown(graph, outputs), id: id.0 });
        self.answer()
    }
}

fn square(x: u32, y: u32) -> PhysicalOutput {
    PhysicalOutput::new(Position2D { x, y }, Size2D { width: 10, height: 10 })
}

fn added(n: usize, x: u32, y: u32) -> PhysicalOutputEvent {
    PhysicalOutputEvent::Added { id: OutputId(n), output: square(x, y) }
}

fn nothing_shown() -> Shown {
    Shown { nodes: Vec::new(), edges: Vec::new(), entries: Vec::new() }
}

fn pair_shown() -> Shown {
    Shown {
        nodes: vec![1, 2],
        edges: vec![(1, 2)],
        entries: vec![(1, 0, 0, 10, 10), (2, 10, 0, 10, 10)],
    }
}

#[test]
fn an_add_asks_the_add_handler_once_with_the_state_before_it() {
    let policy = Recorder::new(vec![vec![added(1, 0, 0)], vec![added(2, 10, 0)]]);
    let mut keeper = OutputConstraintKeeper::new(policy);
    let first = keeper.add_output(OutputId(1), Size2D { width: 10, height: 10 });
    assert_eq!(first, vec![added(1, 0, 0)]);
    assert_eq!(
        keeper.output_manager().calls,
        vec![Call::Add { shown: nothing_shown(), id: 1, size: (10, 10) }]
    );
    let second = keeper.add_output(OutputId(2), Size2D { width: 30, height: 40 });
    assert_eq!(second, vec![added(2, 10, 0)]);
    assert_eq!(keeper.output_manager().calls.len(), 2);
    assert_eq!(
        keeper.output_manager().calls[1],
        Call::Add {
            shown: Shown { nodes: vec![1], edges: Vec::new(), entries: vec![(1, 0, 0, 10, 10)] },
            id: 2,
            size: (30, 40),
        }
    );
}

#[test]
fn a_move_asks_the_move_handler_once_with_the_state_before_it() {
    let moved = PhysicalOutputEvent::Moved { id: OutputId(2), position: Position2D { x: 10, y: 5 } };
    let policy = Recorder::new(vec![vec![added(1, 0, 0)], vec![added(2, 10, 0)], vec![moved]]);
    let mut keeper = OutputConstraintKeeper::new(policy);
    keeper.add_output(OutputId(1), Size2D { width: 10, height: 10 });
    keeper.add_output(OutputId(2), Size2D { width: 10, height: 10 });
    let events = keeper.move_output(OutputId(2), Position2D { x: 77, y: 88 });
    assert_eq!(events, vec![moved]);
    assert_eq!(keeper.output_manager().calls.len(), 3);
    assert_eq!(
        keeper.output_manager().calls[2],
        Call::Move { shown: pair_shown(), id: 2, position: (77, 88) }
    );
    assert_eq!(keeper.outputs().get(OutputId(2)).unwrap().position, Position2D { x: 10, y: 5 });
}

#[test]
fn a_removal_asks_the_remove_handler_once_with_the_state_before_it() {
    let removed = PhysicalOutputEvent::Removed { id: OutputId(1) };
    let policy = Recorder::new(vec![vec![added(1, 0, 0)], vec![added(2, 10, 0)], vec![removed]]);
    let mut keeper = OutputConstraintKeeper::new(policy);
    keeper.add_output(OutputId(1), Size2D { width: 10, height: 10 });
    keeper.add_output(OutputId(2), Size2D { width: 10, height: 10 });
    let events = keeper.remove_output(OutputId(2));
    assert_eq!(events, vec![removed]);
    assert_eq!(keeper.output_manager().calls.len(), 3);
    assert_eq!(keeper.output_manager().calls[2], Call::Remove { shown: pair_shown(), id: 2 });
    assert!(keeper.outputs().get(OutputId(1)).is_none());
    assert!(keeper.outputs().get(OutputId(2)).is_some());
}

#[test]
fn the_keeper_does_what_the_policy_proposes_and_no_more() {
    let policy = Recorder::new(vec![
        vec![added(1, 0, 0), added(2, 10, 0), added(3, 20, 0)],
        Vec::new(),
        Vec::new(),
    ]);
    let mut keeper = OutputConstraintKeeper::new(policy);
    let events = keeper.add_output(OutputId(9), Size2D { width: 1, height: 1 });
    assert_eq!(events, vec![added(1, 0, 0), added(2, 10, 0), added(3, 20, 0)]);
    assert_eq!(keeper.outputs().len(), 3);
    assert!(keeper.outputs().get(OutputId(9)).is_none());
    assert_eq!(keeper.remove_output(OutputId(2)), Vec::new());
    assert_eq!(keeper.move_output(OutputId(3), Position2D { x: 500, y: 500 }), Vec::new());
    assert_eq!(keeper.outputs().len(), 3);
    assert_eq!(keeper.outputs().get(OutputId(3)).unwrap().position, Position2D { x: 20, y: 0 });
    assert_eq!(keeper.output_manager().calls.len(), 3);
}

#[test]
fn the_repair_follows_what_the_policy_proposes() {
    let far = PhysicalOutputEvent::Moved { id: OutputId(2), position: Position2D { x: 300, y: 0 } };
    let policy = Recorder::new(vec![vec![added(1, 0, 0)], vec![added(2, 10, 0)], vec![far]]);
    let mut keeper = OutputConstraintKeeper::new(policy);
    keeper.add_output(OutputId(1), Size2D { width: 10, height: 10 });
    keeper.add_output(OutputId(2), Size2D { width: 10, height: 10 });
    let events = keeper.move_output(OutputId(2), Position2D { x: 1, y: 1 });
    assert_eq!(
        events,
        vec![
            far,
            PhysicalOutputEvent::Moved { id: OutputId(2), position: Position2D { x: 10, y: 0 } },
        ]
    );
    assert_eq!(keeper.output_manager().calls.len(), 3);
    assert_eq!(keeper.groups().len(), 1);
}
