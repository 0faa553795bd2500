use crate::definitions::common::{Position2D, Rectangle, Size2D};
use vstd::prelude::*;
use vstd::std_specs::convert::IntoSpec;

verus! {

/// The notice that an output of the row has a new place.
pub enum OutputUpdate {
    PositionChanged { id: usize, position: Position2D<i32> },
}

/// An output of the row: its number and the rectangle it covers.
pub struct Output {
    id: usize,
    geometry: Rectangle<i32, u32>,
}

impl Output {
    /// The number of the output.
    pub closed spec fn spec_id(self) -> usize {
        self.id
    }

    /// The rectangle of the output.
    pub closed spec fn spec_geometry(self) -> Rectangle<i32, u32> {
        self.geometry
    }

    pub fn new<G: Into<Rectangle<i32, u32>>>(id: usize, geometry: G) -> (output: Self)
        ensures
            output.spec_id() == id,
            G::obeys_into_spec() ==> output.spec_geometry() == geometry.into_spec(),
    {
        let geometry = geometry.into();
        Self { id, geometry }
    }

    /// The output as contracts speak of it.
    pub closed spec fn state(self) -> OutputState {
        OutputState { id: self.id, geometry: self.geometry }
    }

    /// The number of the output.
    pub fn id(&self) -> (id: usize)
        ensures
            id == self.spec_id(),
    {
        self.id
    }

    /// The rectangle of the output.
    pub fn geometry(&self) -> (geometry: Rectangle<i32, u32>)
        ensures
            geometry == self.spec_geometry(),
    {
        self.geometry
    }
}

/// The state of an output of the row, as contracts speak of it.
pub struct OutputState {
    pub id: usize,
    pub geometry: Rectangle<i32, u32>,
}

/// The row holds an output with this number.
pub open spec fn outputs_have(row: Seq<OutputState>, id: usize) -> bool {
    exists|k: int| 0 <= k < row.len() && #[trigger] row[k].id == id
}

/// The first place in the row of an output with this number.
pub open spec fn is_first_with(row: Seq<OutputState>, id: usize, index: int) -> bool {
    &&& 0 <= index < row.len()
    &&& row[index].id == id
    &&& forall|k: int| 0 <= k < index ==> (#[trigger] row[k]).id != id
}

/// Where the output at `index` belongs: at the left edge if it is the first,
/// else where the output before it ends.
pub open spec fn target_x(row: Seq<OutputState>, index: int) -> int {
    if index == 0 {
        0
    } else {
        row[index - 1].geometry.spec_x_offset()
    }
}

/// The output at `index`, moved to where it belongs.
pub open spec fn placed(row: Seq<OutputState>, index: int) -> OutputState {
    OutputState {
        id: row[index].id,
        geometry: Rectangle {
            position: Position2D {
                x: target_x(row, index) as i32,
                y: row[index].geometry.position.y,
            },
            size: row[index].geometry.size,
        },
    }
}

/// Every place that settling the row from `from` to `to` computes lies in the
/// coordinate space.
pub open spec fn settle_fits(row: Seq<OutputState>, from: int, to: int) -> bool
    decreases to - from,
{
    if from >= to || from >= row.len() || from < 0 {
        true
    } else {
        &&& target_x(row, from) <= i32::MAX
        &&& (row[from].geometry.position.x == target_x(row, from) || settle_fits(
            row.update(from, placed(row, from)),
            from + 1,
            to,
        ))
    }
}

/// The row settled from `from` to `to`: output after output moves to where it
/// belongs, up to the first output that stands there already.
pub open spec fn settle(row: Seq<OutputState>, from: int, to: int) -> Seq<OutputState>
    decreases to - from,
{
    if from >= to || from >= row.len() || from < 0 {
        row
    } else if row[from].geometry.position.x == target_x(row, from) {
        row
    } else {
        settle(row.update(from, placed(row, from)), from + 1, to)
    }
}

/// The notices of settling the row from `from` to `to`: one for each output
/// that moves.
pub open spec fn settle_updates(row: Seq<OutputState>, from: int, to: int) -> Seq<OutputUpdate>
    decreases to - from,
{
    if from >= to || from >= row.len() || from < 0 {
        Seq::empty()
    } else if row[from].geometry.position.x == target_x(row, from) {
        Seq::empty()
    } else {
        seq![
            OutputUpdate::PositionChanged {
                id: row[from].id,
                position: placed(row, from).geometry.position,
            },
        ] + settle_updates(row.update(from, placed(row, from)), from + 1, to)
    }
}

/// Keeps the outputs in one row, each beginning where the one before it ends.
pub struct OutputManager {
    outputs: Vec<Output>,
}

impl View for OutputManager {
    type V = Seq<OutputState>;

    closed spec fn view(&self) -> Seq<OutputState> {
        Seq::new(
            self.outputs@.len(),
            |k: int| OutputState { id: self.outputs@[k].id, geometry: self.outputs@[k].geometry },
        )
    }
}

impl OutputManager {
    pub fn new() -> (manager: Self)
        ensures
            manager@ == Seq::<OutputState>::empty(),
    {
        let manager = Self { outputs: Vec::new() };
        assert(manager@ =~= Seq::<OutputState>::empty());
        manager
    }

    /// The output at `index`.
    pub closed spec fn spec_output(&self, index: int) -> Output {
        self.outputs@[index]
    }

    /// The output at `index` has the number and the rectangle that the view
    /// shows at `index`.
    pub proof fn lemma_spec_output(&self, index: int)
        requires
            0 <= index < self@.len(),
        ensures
            self.spec_output(index).spec_id() == self@[index].id,
            self.spec_output(index).spec_geometry() == self@[index].geometry,
    {
    }

    /// The number of outputs in the row.
    pub fn len(&self) -> (len: usize)
        ensures
            len == self@.len(),
    {
        self.outputs.len()
    }

    /// Puts a new output at the end of the row. The end of the row has to lie
    /// in the coordinate space.
    pub fn add_output(&mut self, id: usize, size: Size2D<u32>)
        requires
            target_x(old(self)@, old(self)@.len() as int) <= i32::MAX,
        ensures
            final(self)@ == old(self)@.push(
                OutputState {
                    id,
                    geometry: Rectangle {
                        position: Position2D {
                            x: target_x(old(self)@, old(self)@.len() as int) as i32,
                            y: 0,
                        },
                        size,
                    },
                },
            ),
    {
        let count = self.outputs.len();
        let x_offset: i32 = if count == 0 {
            0
        } else {
            assert(self@[count - 1].geometry == self.outputs@[count - 1].geometry);
            self.outputs[count - 1].geometry.x_offset()
        };
        let position = Position2D { x: x_offset, y: 0 };
        self.outputs.push(Output { id, geometry: Rectangle { position, size } });
        assert(self@ =~= old(self)@.push(
            OutputState { id, geometry: Rectangle { position, size } },
        ));
    }

    /// The place of the first output with this number, if there is one.
    pub fn position_of(&self, id: usize) -> (found: Option<usize>)
        ensures
            match found {
                Some(index) => is_first_with(self@, id, index as int),
                None => !outputs_have(self@, id),
            },
    {
        let mut index: usize = 0;
        while index < self.outputs.len()
            invariant
                index <= self.outputs@.len(),
                forall|k: int| 0 <= k < index ==> (#[trigger] self@[k]).id != id,
            decreases self.outputs@.len() - index,
        {
            if self.outputs[index].id == id {
                assert(self@[index as int].id == id);
                return Some(index);
            }
            index += 1;
        }
        None
    }

    /// Takes the first output with this number out of the row and settles the
    /// outputs behind it. Nothing happens where there is no such output.
    pub fn del_output(&mut self, id: usize) -> (updates: Vec<OutputUpdate>)
        requires
            forall|index: int|
                is_first_with(old(self)@, id, index) ==> settle_fits(
                    #[trigger] old(self)@.remove(index),
                    index,
                    old(self)@.len() - 1,
                ),
        ensures
            if outputs_have(old(self)@, id) {
                exists|index: int|
                    is_first_with(old(self)@, id, index) && final(self)@ == settle(
                        #[trigger] old(self)@.remove(index),
                        index,
                        old(self)@.len() - 1,
                    ) && updates@ == settle_updates(
                        old(self)@.remove(index),
                        index,
                        old(self)@.len() - 1,
                    )
            } else {
                &&& final(self)@ == old(self)@
                &&& updates@.len() == 0
            },
    {
        match self.position_of(id) {
            Some(position) => {
                let ghost row = self@;
                self.outputs.remove(position);
                assert(self@ =~= row.remove(position as int));
                let end = self.outputs.len();
                self.update_offset(position, end)
            },
            None => Vec::new(),
        }
    }

    /// Hands the first output with this number to the callback and returns
    /// what the callback returns.
    pub fn output_ref<T, F: Fn(&Output) -> T>(&self, id: usize, callback: F) -> (result: Option<T>)
        requires
            forall|output: &Output| call_requires(callback, (output,)),
        ensures
            match result {
                Some(value) => exists|index: int| #[trigger]
                    is_first_with(self@, id, index) && call_ensures(
                        callback,
                        (&self.spec_output(index),),
                        value,
                    ),
                None => !outputs_have(self@, id),
            },
    {
        match self.position_of(id) {
            Some(index) => {
                let output = &self.outputs[index];
                let value = callback(output);
                assert(is_first_with(self@, id, index as int) && call_ensures(
                    callback,
                    (&self.spec_output(index as int),),
                    value,
                ));
                Some(value)
            },
            None => None,
        }
    }

    /// Hands the first output with this number to the callback, which gives
    /// it back changed, then settles the row from that output on. Returns
    /// what the callback returns beside the output, and the notices of the
    /// moves. Whatever the callback makes of the output, settling the row has
    /// to stay in the coordinate space.
    pub fn surface_mut<T, F: Fn(Output) -> (Output, T)>(&mut self, id: usize, callback: F) -> (result:
        Option<(T, Vec<OutputUpdate>)>)
        requires
            forall|output: Output| call_requires(callback, (output,)),
            forall|index: int, changed: Output, value: T|
                is_first_with(old(self)@, id, index) && #[trigger] call_ensures(
                    callback,
                    (old(self).spec_output(index),),
                    (changed, value),
                ) ==> settle_fits(
                    old(self)@.update(index, changed.state()),
                    index,
                    old(self)@.len() as int,
                ),
        ensures
            result is None ==> !outputs_have(old(self)@, id) && final(self)@ == old(self)@,
            result is Some ==> exists|index: int, changed: Output|
                is_first_with(old(self)@, id, index) && #[trigger] call_ensures(
                    callback,
                    (old(self).spec_output(index),),
                    (changed, result.unwrap().0),
                ) && final(self)@ == settle(
                    old(self)@.update(index, changed.state()),
                    index,
                    old(self)@.len() as int,
                ) && result.unwrap().1@ == settle_updates(
                    old(self)@.update(index, changed.state()),
                    index,
                    old(self)@.len() as int,
                ),
    {
        match self.position_of(id) {
            Some(index) => {
                let ghost row = self@;
                let current = &self.outputs[index];
                let output = Output { id: current.id, geometry: current.geometry };
                assert(output == self.spec_output(index as int));
                let (changed, value) = callback(output);
                let ghost given = changed;
                assert(call_ensures(
                    callback,
                    (old(self).spec_output(index as int),),
                    (given, value),
                ));
                self.outputs.set(index, changed);
                assert(self@ =~= row.update(index as int, given.state()));
                let end = self.outputs.len();
                let updates = self.update_offset(index, end);
                assert(is_first_with(old(self)@, id, index as int) && call_ensures(
                    callback,
                    (old(self).spec_output(index as int),),
                    (given, value),
                ) && self@ == settle(
                    old(self)@.update(index as int, given.state()),
                    index as int,
                    old(self)@.len() as int,
                ));
                assert(updates@ == settle_updates(
                    old(self)@.update(index as int, given.state()),
                    index as int,
                    old(self)@.len() as int,
                ));
                let result = Some((value, updates));
                assert(call_ensures(
                    callback,
                    (old(self).spec_output(index as int),),
                    (given, result.unwrap().0),
                ));
                result
            },
            None => None,
        }
    }

    /// Settles the outputs from `from` to `to`: each moves to where the one
    /// before it ends, up to the first that stands there already. Reports
    /// each move.
    pub fn update_offset(&mut self, from: usize, to: usize) -> (updates: Vec<OutputUpdate>)
        requires
            to <= old(self)@.len(),
            settle_fits(old(self)@, from as int, to as int),
        ensures
            final(self)@ == settle(old(self)@, from as int, to as int),
            updates@ == settle_updates(old(self)@, from as int, to as int),
    {
        let ghost start = self@;
        let mut updates: Vec<OutputUpdate> = Vec::new();
        let mut index: usize = from;
        while index < to
            invariant
                start == old(self)@,
                to <= self@.len(),
                self@.len() == start.len(),
                from <= index,
                settle_fits(self@, index as int, to as int),
                settle(start, from as int, to as int) == settle(self@, index as int, to as int),
                settle_updates(start, from as int, to as int) == updates@ + settle_updates(
                    self@,
                    index as int,
                    to as int,
                ),
            decreases to - index,
        {
            let ghost row = self@;
            let x_offset: i32 = if index == 0 {
                0
            } else {
                assert(row[index - 1].geometry == self.outputs@[index - 1].geometry);
                self.outputs[index - 1].geometry.x_offset()
            };
            assert(row[index as int].geometry == self.outputs@[index as int].geometry);
            assert(x_offset == target_x(row, index as int));
            if self.outputs[index].geometry.position.x == x_offset {
                assert(settle(row, index as int, to as int) == row);
                assert(settle_updates(row, index as int, to as int) =~= Seq::<
                    OutputUpdate,
                >::empty());
                assert(updates@ + Seq::<OutputUpdate>::empty() =~= updates@);
                return updates;
            }
            let current = &self.outputs[index];
            let position = Position2D { x: x_offset, y: current.geometry.position.y };
            let moved = Output {
                id: current.id,
                geometry: Rectangle { position, size: current.geometry.size },
            };
            let update = OutputUpdate::PositionChanged { id: current.id, position };
            self.outputs.set(index, moved);
            proof {
                assert(self@ =~= row.update(index as int, placed(row, index as int)));
                let rest = settle_updates(self@, index + 1, to as int);
                assert((updates@ + seq![update]) + rest =~= updates@ + (seq![update] + rest));
            }
            updates.push(update);
            index += 1;
        }
        assert(updates@ + Seq::<OutputUpdate>::empty() =~= updates@);
        updates
    }
}

} // verus!
