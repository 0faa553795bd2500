use crate::definitions::common::{Mode, Position2D, Size2D, Subpixel};
use crate::definitions::event::output_event::{OutputEvent, OutputId, OutputInfo};
use std::collections::HashMap;
use vstd::prelude::*;

verus! {

/// An output of the row: its handle, its place and its extent.
#[derive(Debug, Copy, Clone)]
pub struct StackedOutput {
    pub id: OutputId,
    pub position: Position2D<u32>,
    pub size: Size2D<u32>,
}

/// The row holds an output with this handle.
pub open spec fn row_has(row: Seq<StackedOutput>, id: OutputId) -> bool {
    exists|k: int| 0 <= k < row.len() && #[trigger] row[k].id == id
}

/// The output behind the one at `k` begins where that one ends.
pub open spec fn follows(row: Seq<StackedOutput>, k: int) -> bool {
    row[k + 1].position.x == row[k].position.x + row[k].size.width
}

/// The row is packed: it starts at the left edge, each output begins where
/// the one before it ends, every output ends inside the coordinate space, and
/// no handle occurs twice.
pub open spec fn row_wf(row: Seq<StackedOutput>) -> bool {
    &&& row.len() > 0 ==> row[0].position.x == 0
    &&& forall|k: int|
        0 <= k < row.len() ==> (#[trigger] row[k]).position.x + row[k].size.width <= u32::MAX
    &&& forall|k: int| 0 <= k < row.len() - 1 ==> #[trigger] follows(row, k)
    &&& forall|i: int, j: int|
        0 <= i < j < row.len() ==> #[trigger] row[i].id != #[trigger] row[j].id
}

/// Where the next output of the row goes: at the origin in an empty row, else
/// at the right edge of the last output.
pub open spec fn row_end(row: Seq<StackedOutput>) -> Position2D<u32> {
    if row.len() == 0 {
        Position2D { x: 0, y: 0 }
    } else {
        Position2D { x: (row.last().position.x + row.last().size.width) as u32, y: 0 }
    }
}

/// The output moved to the left by `width`.
pub open spec fn pulled_left(output: StackedOutput, width: u32) -> StackedOutput {
    StackedOutput {
        id: output.id,
        position: Position2D { x: (output.position.x - width) as u32, y: output.position.y },
        size: output.size,
    }
}

/// The row without the output at `index`: the outputs before it stay, those
/// behind it move to the left by its width.
pub open spec fn closed_up(row: Seq<StackedOutput>, index: int) -> Seq<StackedOutput> {
    Seq::new(
        (row.len() - 1) as nat,
        |k: int|
            if k < index {
                row[k]
            } else {
                pulled_left(row[k + 1], row[index].size.width)
            },
    )
}

/// The notices of a removal: that the output is gone, then the new place of
/// each output that stood behind it.
pub open spec fn removal_events(row: Seq<StackedOutput>, index: int) -> Seq<(OutputId, OutputEvent)> {
    seq![(row[index].id, OutputEvent::Removed)] + Seq::new(
        (row.len() - 1 - index) as nat,
        |k: int|
            (
                row[index + 1 + k].id,
                OutputEvent::Moved(pulled_left(row[index + 1 + k], row[index].size.width).position),
            ),
    )
}

/// The place and the extent of an output of the row.
#[derive(Debug, Copy, Clone)]
pub struct Output {
    pub position: Position2D<u32>,
    pub size: Size2D<u32>,
}

/// The row that a map of outputs and a stack of handles stand for: the
/// handles in the order of the stack, each with its place and its extent.
pub open spec fn row_of(outputs: Map<usize, Output>, stack: Seq<OutputId>) -> Seq<StackedOutput> {
    Seq::new(
        stack.len(),
        |k: int|
            StackedOutput {
                id: stack[k],
                position: outputs[stack[k].0].position,
                size: outputs[stack[k].0].size,
            },
    )
}

/// The map holds an output for each handle of the stack and for nothing else.
pub open spec fn keys_match(outputs: Map<usize, Output>, stack: Seq<OutputId>) -> bool {
    forall|key: usize|
        outputs.contains_key(key) <==> exists|k: int|
            0 <= k < stack.len() && (#[trigger] stack[k]).0 == key
}

/// Lays the outputs out in one row, in the order in which they were added.
pub struct VirtualOutputBackend {
    outputs: HashMap<usize, Output>,
    output_stack: Vec<OutputId>,
}

impl View for VirtualOutputBackend {
    type V = Seq<StackedOutput>;

    closed spec fn view(&self) -> Seq<StackedOutput> {
        row_of(self.outputs@, self.output_stack@)
    }
}

impl VirtualOutputBackend {
    /// The row is packed and names no output twice, and the backend holds an
    /// output for each handle of the row.
    pub closed spec fn wf(&self) -> bool {
        &&& row_wf(self@)
        &&& keys_match(self.outputs@, self.output_stack@)
    }

    /// A well-formed backend holds a packed row.
    pub proof fn lemma_wf_row(&self)
        requires
            self.wf(),
        ensures
            row_wf(self@),
    {
    }

    pub fn new() -> (backend: Self)
        ensures
            backend@ == Seq::<StackedOutput>::empty(),
            backend.wf(),
    {
        let backend = Self { outputs: HashMap::new(), output_stack: Vec::new() };
        assert(backend@ =~= Seq::<StackedOutput>::empty());
        backend
    }

    /// The place of the output in the row, if the row holds it.
    pub fn index_of(&self, id: OutputId) -> (found: Option<usize>)
        ensures
            match found {
                Some(index) => index < self@.len() && self@[index as int].id == id,
                None => !row_has(self@, id),
            },
    {
        let mut index: usize = 0;
        while index < self.output_stack.len()
            invariant
                index <= self.output_stack@.len(),
                self@.len() == self.output_stack@.len(),
                forall|k: int| 0 <= k < index ==> (#[trigger] self@[k]).id != id,
            decreases self.output_stack@.len() - index,
        {
            assert(self@[index as int].id == self.output_stack@[index as int]);
            if self.output_stack[index].0 == id.0 {
                return Some(index);
            }
            index += 1;
        }
        None
    }

    /// Puts a new output at the end of the row, with the resolution of the
    /// selected mode as its extent, and reports it. Nothing happens where the
    /// row holds the output already or has no room left for it.
    pub fn add_output(
        &mut self,
        id: OutputId,
        selected_mode: Mode,
        available_modes: Vec<Mode>,
        physical_size: Size2D<u32>,
        subpixel: Subpixel,
    ) -> (events: Vec<(OutputId, OutputEvent)>)
        requires
            old(self).wf(),
        ensures
            final(self).wf(),
            if !row_has(old(self)@, id) && row_end(old(self)@).x + selected_mode.resolution.width
                <= u32::MAX {
                &&& final(self)@ == old(self)@.push(
                    StackedOutput {
                        id,
                        position: row_end(old(self)@),
                        size: selected_mode.resolution,
                    },
                )
                &&& events@ == seq![
                    (
                        id,
                        OutputEvent::Added(
                            OutputInfo {
                                position: row_end(old(self)@),
                                selected_mode,
                                available_modes,
                                physical_size,
                                subpixel,
                            },
                        ),
                    ),
                ]
            } else {
                &&& final(self)@ == old(self)@
                &&& events@.len() == 0
            },
    {
        let ghost row = self@;
        let ghost stack = self.output_stack@;
        let ghost known = self.outputs@;
        let mut events: Vec<(OutputId, OutputEvent)> = Vec::new();
        proof {
            if row_has(row, id) {
                let k = choose|k: int| 0 <= k < row.len() && #[trigger] row[k].id == id;
                assert(stack[k].0 == id.0);
            }
            if known.contains_key(id.0) {
                let k = choose|k: int| 0 <= k < stack.len() && (#[trigger] stack[k]).0 == id.0;
                assert(row[k].id == id);
            }
        }
        if self.outputs.contains_key(&id.0) {
            return events;
        }
        let count = self.output_stack.len();
        let position = if count == 0 {
            Position2D { x: 0, y: 0 }
        } else {
            let last_id = self.output_stack[count - 1];
            assert(known.contains_key(stack[count - 1].0));
            assert(row[count - 1].position.x + row[count - 1].size.width <= u32::MAX);
            let last = *self.outputs.get(&last_id.0).unwrap();
            Position2D { x: last.position.x + last.size.width, y: 0 }
        };
        let size = selected_mode.resolution;
        if size.width > u32::MAX - position.x {
            return events;
        }
        self.outputs.insert(id.0, Output { position, size });
        self.output_stack.push(id);
        proof {
            let entry = StackedOutput { id, position, size };
            let longer = self@;
            assert forall|k: int| 0 <= k < row.len() implies longer[k] == row[k] by {
                assert(known.contains_key(stack[k].0));
            }
            assert(longer =~= row.push(entry));
            assert forall|k: int| 0 <= k < longer.len() - 1 implies #[trigger] follows(
                longer,
                k,
            ) by {
                if k + 1 < row.len() {
                    assert(follows(row, k));
                }
            }
            assert forall|i: int, j: int| 0 <= i < j < longer.len() implies #[trigger] longer[i].id
                != #[trigger] longer[j].id by {
                if j < row.len() {
                    assert(row[i].id != row[j].id);
                } else {
                    assert(row[i].id != id);
                }
            }
            assert forall|key: usize| self.outputs@.contains_key(key) <==> exists|k: int|
                0 <= k < self.output_stack@.len() && (#[trigger] self.output_stack@[k]).0
                    == key by {
                if known.contains_key(key) {
                    let k = choose|k: int| 0 <= k < stack.len() && (#[trigger] stack[k]).0 == key;
                    assert(self.output_stack@[k].0 == key);
                }
                if key == id.0 {
                    assert(self.output_stack@[stack.len() as int].0 == key);
                }
                if exists|k: int|
                    0 <= k < self.output_stack@.len() && (#[trigger] self.output_stack@[k]).0
                        == key {
                    let k = choose|k: int|
                        0 <= k < self.output_stack@.len() && (#[trigger] self.output_stack@[k]).0
                            == key;
                    if k < stack.len() {
                        assert(stack[k].0 == key);
                    }
                }
            }
        }
        let output_info = OutputInfo {
            position,
            selected_mode,
            available_modes,
            physical_size,
            subpixel,
        };
        events.push((id, OutputEvent::Added(output_info)));
        assert(events@ =~= seq![(id, OutputEvent::Added(output_info))]);
        events
    }

    /// Takes an output out of the row, closes the gap and reports the
    /// removal and the new place of each output that stood behind it. Nothing
    /// happens where the row does not hold the output.
    pub fn del_output(&mut self, id: OutputId) -> (events: Vec<(OutputId, OutputEvent)>)
        requires
            old(self).wf(),
        ensures
            final(self).wf(),
            if row_has(old(self)@, id) {
                exists|index: int|
                    0 <= index < old(self)@.len() && old(self)@[index].id == id && final(self)@
                        == #[trigger] closed_up(old(self)@, index) && events@ == removal_events(
                        old(self)@,
                        index,
                    )
            } else {
                &&& final(self)@ == old(self)@
                &&& events@.len() == 0
            },
    {
        let mut events: Vec<(OutputId, OutputEvent)> = Vec::new();
        let index = match self.index_of(id) {
            Some(index) => index,
            None => {
                return events;
            },
        };
        let ghost row = self@;
        let ghost stack = self.output_stack@;
        let ghost known = self.outputs@;
        assert(stack[index as int] == id);
        assert(known.contains_key(stack[index as int].0));
        let removed = self.outputs.remove(&id.0).unwrap();
        self.output_stack.remove(index);
        proof {
            let shorter = self@;
            assert forall|k: int| 0 <= k < shorter.len() implies shorter[k] == row.remove(
                index as int,
            )[k] by {
                let from = if k < index { k } else { k + 1 };
                assert(self.output_stack@[k] == stack[from]);
                if from < index {
                    assert(row[from].id != row[index as int].id);
                } else {
                    assert(row[index as int].id != row[from].id);
                }
                assert(known.contains_key(stack[from].0));
            }
            assert(shorter =~= row.remove(index as int));
            assert forall|key: usize| self.outputs@.contains_key(key) <==> exists|k: int|
                0 <= k < self.output_stack@.len() && (#[trigger] self.output_stack@[k]).0
                    == key by {
                if self.outputs@.contains_key(key) {
                    let k = choose|k: int| 0 <= k < stack.len() && (#[trigger] stack[k]).0 == key;
                    let to = if k < index { k } else { k - 1 };
                    assert(self.output_stack@[to] == stack[k]);
                }
                if exists|k: int|
                    0 <= k < self.output_stack@.len() && (#[trigger] self.output_stack@[k]).0
                        == key {
                    let k = choose|k: int|
                        0 <= k < self.output_stack@.len() && (#[trigger] self.output_stack@[k]).0
                            == key;
                    let from = if k < index { k } else { k + 1 };
                    assert(stack[from].0 == key);
                    if from < index {
                        assert(row[from].id != row[index as int].id);
                    } else {
                        assert(row[index as int].id != row[from].id);
                    }
                }
            }
        }
        events.push((id, OutputEvent::Removed));
        let mut moved = self.update_outputs_from(
            index,
            StackedOutput { id, position: removed.position, size: removed.size },
            Ghost(row),
        );
        proof {
            assert(events@ + moved@ =~= removal_events(row, index as int));
        }
        events.append(&mut moved);
        events
    }

    /// Closes the gap that the removed output left at `index`: every output
    /// from there on moves to the left by the width of the removed one.
    fn update_outputs_from(
        &mut self,
        index: usize,
        removed: StackedOutput,
        Ghost(row): Ghost<Seq<StackedOutput>>,
    ) -> (events: Vec<(OutputId, OutputEvent)>)
        requires
            row_wf(row),
            index < row.len(),
            removed == row[index as int],
            old(self)@ == row.remove(index as int),
            keys_match(old(self).outputs@, old(self).output_stack@),
        ensures
            final(self)@ == closed_up(row, index as int),
            final(self).wf(),
            events@ == Seq::new(
                (row.len() - 1 - index) as nat,
                |k: int|
                    (
                        row[index + 1 + k].id,
                        OutputEvent::Moved(
                            pulled_left(row[index + 1 + k], row[index as int].size.width).position,
                        ),
                    ),
            ),
    {
        let mut events: Vec<(OutputId, OutputEvent)> = Vec::new();
        let mut offset: u32 = removed.position.x;
        let mut at: usize = index;
        let ghost stack = self.output_stack@;
        let ghost wanted = Seq::new(
            (row.len() - 1 - index) as nat,
            |k: int|
                (
                    row[index + 1 + k].id,
                    OutputEvent::Moved(
                        pulled_left(row[index + 1 + k], row[index as int].size.width).position,
                    ),
                ),
        );
        proof {
            assert(self@.len() == stack.len());
            assert(row.remove(index as int).len() == row.len() - 1);
            assert forall|k: int| 0 <= k < stack.len() implies (#[trigger] stack[k]) == row.remove(
                index as int,
            )[k].id by {
                assert(self@[k].id == stack[k]);
            }
        }
        while at < self.output_stack.len()
            invariant
                row_wf(row),
                index < row.len(),
                removed == row[index as int],
                self.output_stack@ == stack,
                stack.len() == row.len() - 1,
                forall|k: int| 0 <= k < stack.len() ==> (#[trigger] stack[k]) == row.remove(
                    index as int,
                )[k].id,
                keys_match(self.outputs@, stack),
                index <= at <= stack.len(),
                self@.len() == row.len() - 1,
                offset == row[at as int].position.x + row[at as int].size.width
                    - removed.size.width,
                forall|k: int|
                    0 <= k < at ==> self@[k] == #[trigger] closed_up(row, index as int)[k],
                forall|k: int| at <= k < self@.len() ==> #[trigger] self@[k] == row[k + 1],
                wanted.len() == row.len() - 1 - index,
                forall|k: int|
                    0 <= k < wanted.len() ==> #[trigger] wanted[k] == (
                        row[index + 1 + k].id,
                        OutputEvent::Moved(
                            pulled_left(row[index + 1 + k], row[index as int].size.width).position,
                        ),
                    ),
                events@ == wanted.take(at - index),
            decreases stack.len() - at,
        {
            let ghost before = self@;
            let ghost known = self.outputs@;
            let output_id = self.output_stack[at];
            proof {
                assert(before[at as int] == row[at + 1]);
                assert(before[at as int].id == output_id);
                assert(known.contains_key(stack[at as int].0));
            }
            let output = *self.outputs.get(&output_id.0).unwrap();
            proof {
                assert(follows(row, at as int));
                assert(row[at + 1].position.x + row[at + 1].size.width <= u32::MAX);
                assert(row[index as int].position.x + row[index as int].size.width <= u32::MAX);
                lemma_row_grows(row, index as int, at as int);
            }
            let position = Position2D { x: offset, y: output.position.y };
            self.outputs.insert(output_id.0, Output { position, size: output.size });
            events.push((output_id, OutputEvent::Moved(position)));
            proof {
                let after = self@;
                assert forall|k: int| 0 <= k < after.len() && k != at implies after[k]
                    == before[k] by {
                    let p = if k < index { k } else { k + 1 };
                    let q = at + 1;
                    assert(stack[k] == row[p].id);
                    if p < q {
                        assert(row[p].id != row[q].id);
                    } else {
                        assert(row[q].id != row[p].id);
                    }
                }
                assert(after[at as int] == closed_up(row, index as int)[at as int]);
                assert forall|key: usize| self.outputs@.contains_key(key) <==> exists|k: int|
                    0 <= k < stack.len() && (#[trigger] stack[k]).0 == key by {
                    if key == output_id.0 {
                        assert(stack[at as int].0 == key);
                    }
                }
                let k = at - index;
                assert(row[index + 1 + k].id == output_id);
                assert(position == pulled_left(row[at + 1], removed.size.width).position);
                assert(wanted[k] == (output_id, OutputEvent::Moved(position)));
                assert(wanted.take(k + 1) =~= wanted.take(k).push(wanted[k]));
                assert(events@ =~= wanted.take(at + 1 - index));
            }
            offset = offset + output.size.width;
            at += 1;
        }
        proof {
            assert(wanted.take(at - index) =~= wanted);
            assert(self@ =~= closed_up(row, index as int));
            lemma_closed_up_wf(row, index as int);
        }
        events
    }
}

/// In a packed row an output begins no further left than one before it.
pub proof fn lemma_row_grows(row: Seq<StackedOutput>, i: int, j: int)
    requires
        row_wf(row),
        0 <= i <= j < row.len(),
    ensures
        row[i].position.x + (if i < j {
            row[i].size.width as int
        } else {
            0
        }) <= row[j].position.x,
    decreases j - i,
{
    if i < j {
        if i + 1 < j {
            lemma_row_grows(row, i + 1, j);
        }
        assert(follows(row, i));
    }
}

/// A packed row stays packed when an output is taken out and the gap closed.
pub proof fn lemma_closed_up_wf(row: Seq<StackedOutput>, index: int)
    requires
        row_wf(row),
        0 <= index < row.len(),
    ensures
        row_wf(closed_up(row, index)),
{
    let closed = closed_up(row, index);
    let width = row[index].size.width;
    assert forall|k: int| index <= k < closed.len() implies (#[trigger] closed[k]).position.x
        == row[k + 1].position.x - width by {
        lemma_row_grows(row, index, k + 1);
    }
    if closed.len() > 0 {
        if index == 0 {
            assert(follows(row, 0));
        }
    }
    assert forall|k: int| 0 <= k < closed.len() implies (#[trigger] closed[k]).position.x
        + closed[k].size.width <= u32::MAX by {
        if k < index {
            assert(row[k].position.x + row[k].size.width <= u32::MAX);
        } else {
            assert(row[k + 1].position.x + row[k + 1].size.width <= u32::MAX);
        }
    }
    assert forall|k: int| 0 <= k < closed.len() - 1 implies #[trigger] follows(closed, k) by {
        assert(follows(row, k));
        assert(follows(row, k + 1));
    }
    assert forall|i: int, j: int| 0 <= i < j < closed.len() implies #[trigger] closed[i].id
        != #[trigger] closed[j].id by {
        let p = if i < index { i } else { i + 1 };
        let q = if j < index { j } else { j + 1 };
        assert(row[p].id != row[q].id);
    }
}

} // verus!
