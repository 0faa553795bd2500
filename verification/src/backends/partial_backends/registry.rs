use super::physical_output::PhysicalOutput;
use super::reach::connects;
use crate::definitions::common::Position2D;
use crate::definitions::event::output_event::OutputId;
use vstd::prelude::*;

verus! {

/// One registered output: its handle and the rectangle it covers.
#[derive(Debug, Clone, Copy, PartialEq)]
pub struct RegistryEntry {
    pub id: OutputId,
    pub output: PhysicalOutput,
}

/// The layout holds an output with this handle.
pub open spec fn layout_has(layout: Seq<RegistryEntry>, id: OutputId) -> bool {
    exists|i: int| 0 <= i < layout.len() && #[trigger] layout[i].id == id
}

/// Every rectangle is valid and no handle occurs twice.
pub open spec fn layout_wf(layout: Seq<RegistryEntry>) -> bool {
    &&& forall|i: int| 0 <= i < layout.len() ==> #[trigger] layout[i].output.valid()
    &&& forall|i: int, j: int|
        0 <= i < j < layout.len() ==> #[trigger] layout[i].id != #[trigger] layout[j].id
}

/// The entries at `i` and `j` are two different outputs that touch.
pub open spec fn joined(layout: Seq<RegistryEntry>, i: int, j: int) -> bool {
    &&& 0 <= i < layout.len()
    &&& 0 <= j < layout.len()
    &&& i != j
    &&& layout[i].output.spec_is_adjacent(layout[j].output)
}

/// The outputs numbered `a` and `b` are registered and touch.
pub open spec fn layout_edge(layout: Seq<RegistryEntry>, a: usize, b: usize) -> bool {
    exists|i: int, j: int| #[trigger]
        joined(layout, i, j) && layout[i].id.0 == a && layout[j].id.0 == b
}

/// The numbers of the registered outputs.
pub open spec fn layout_nodes(layout: Seq<RegistryEntry>) -> Set<usize> {
    Set::new(|n: usize| layout_has(layout, OutputId(n)))
}

/// The adjacency relation of the layout, as pairs of output numbers.
pub open spec fn layout_edges(layout: Seq<RegistryEntry>) -> Set<(usize, usize)> {
    Set::new(|pair: (usize, usize)| layout_edge(layout, pair.0, pair.1))
}

/// `b` can be reached from `a` by stepping from an output to one it touches.
pub open spec fn layout_connects(layout: Seq<RegistryEntry>, a: OutputId, b: OutputId) -> bool {
    connects(layout_edges(layout), a.0, b.0)
}

/// The handles of the layout, in the order of registration.
pub open spec fn layout_ids(layout: Seq<RegistryEntry>) -> Seq<OutputId> {
    layout.map_values(|entry: RegistryEntry| entry.id)
}

/// In a well-formed layout a handle stands at one index only.
pub proof fn lemma_unique_index(layout: Seq<RegistryEntry>, i: int, j: int)
    requires
        layout_wf(layout),
        0 <= i < layout.len(),
        0 <= j < layout.len(),
        layout[i].id == layout[j].id,
    ensures
        i == j,
{
    if i < j {
        assert(layout[i].id != layout[j].id);
    } else if j < i {
        assert(layout[j].id != layout[i].id);
    }
}

/// In a well-formed layout two indices name two outputs.
pub proof fn lemma_distinct_ids(layout: Seq<RegistryEntry>, i: int, j: int)
    requires
        layout_wf(layout),
        0 <= i < layout.len(),
        0 <= j < layout.len(),
        i != j,
    ensures
        layout[i].id != layout[j].id,
        layout[i].id.0 != layout[j].id.0,
{
    if layout[i].id.0 == layout[j].id.0 {
        lemma_unique_index(layout, i, j);
    }
}

/// In a well-formed layout the edge between two entries is there exactly when
/// the two entries touch.
pub proof fn lemma_edge_of_entries(layout: Seq<RegistryEntry>, i: int, j: int)
    requires
        layout_wf(layout),
        0 <= i < layout.len(),
        0 <= j < layout.len(),
    ensures
        layout_edge(layout, layout[i].id.0, layout[j].id.0) <==> joined(layout, i, j),
        layout_edges(layout).contains((layout[i].id.0, layout[j].id.0)) <==> joined(layout, i, j),
{
    if layout_edge(layout, layout[i].id.0, layout[j].id.0) {
        let (p, q) = choose|p: int, q: int| #[trigger]
            joined(layout, p, q) && layout[p].id.0 == layout[i].id.0 && layout[q].id.0
                == layout[j].id.0;
        lemma_unique_index(layout, p, i);
        lemma_unique_index(layout, q, j);
    }
    if joined(layout, i, j) {
        assert(layout_edge(layout, layout[i].id.0, layout[j].id.0));
    }
}

/// The adjacency relation of a layout is symmetric.
pub proof fn lemma_layout_edges_symmetric(layout: Seq<RegistryEntry>)
    ensures
        super::reach::symmetric(layout_edges(layout)),
{
    assert forall|a: usize, b: usize| layout_edges(layout).contains((a, b)) implies layout_edges(
        layout,
    ).contains((b, a)) by {
        let (i, j) = choose|i: int, j: int| #[trigger]
            joined(layout, i, j) && layout[i].id.0 == a && layout[j].id.0 == b;
        super::physical_output::lemma_adjacent_symmetric(layout[i].output, layout[j].output);
        assert(joined(layout, j, i));
    }
}

/// The outputs of the host, each with the rectangle it covers, in the order in
/// which they were registered. No handle occurs twice.
pub struct Registry {
    entries: Vec<RegistryEntry>,
}

impl View for Registry {
    type V = Seq<RegistryEntry>;

    closed spec fn view(&self) -> Seq<RegistryEntry> {
        self.entries@
    }
}

impl Registry {
    /// Every rectangle is valid and no handle occurs twice.
    pub open spec fn wf(&self) -> bool {
        layout_wf(self@)
    }

    pub fn new() -> (registry: Self)
        ensures
            registry@ == Seq::<RegistryEntry>::empty(),
            registry.wf(),
    {
        Self { entries: Vec::new() }
    }

    /// A registry holds no more outputs than can be counted.
    pub proof fn lemma_len_fits(&self)
        ensures
            self@.len() <= usize::MAX,
    {
        assert(self.entries@.len() == self.entries.len());
    }

    /// The number of registered outputs.
    pub fn len(&self) -> (len: usize)
        ensures
            len == self@.len(),
    {
        self.entries.len()
    }

    /// The entry at `index`, counted in the order of registration.
    pub fn entry(&self, index: usize) -> (entry: RegistryEntry)
        requires
            index < self@.len(),
        ensures
            entry == self@[index as int],
    {
        self.entries[index]
    }

    /// The place of the output in the order of registration, if it is
    /// registered.
    pub fn index_of(&self, id: OutputId) -> (found: Option<usize>)
        ensures
            match found {
                Some(index) => index < self@.len() && self@[index as int].id == id && forall|
                    k: int,
                | 0 <= k < index ==> self@[k].id != id,
                None => !layout_has(self@, id),
            },
    {
        let mut index: usize = 0;
        while index < self.entries.len()
            invariant
                index <= self.entries.len(),
                forall|k: int| 0 <= k < index ==> self.entries@[k].id != id,
            decreases self.entries.len() - index,
        {
            if self.entries[index].id.0 == id.0 {
                return Some(index);
            }
            index += 1;
        }
        None
    }

    /// Tells whether the output is registered.
    pub fn contains(&self, id: OutputId) -> (found: bool)
        ensures
            found == layout_has(self@, id),
    {
        self.index_of(id).is_some()
    }

    /// The rectangle of the output, if it is registered.
    pub fn get(&self, id: OutputId) -> (found: Option<PhysicalOutput>)
        ensures
            match found {
                Some(output) => exists|i: int|
                    0 <= i < self@.len() && #[trigger] self@[i].id == id && self@[i].output
                        == output,
                None => !layout_has(self@, id),
            },
    {
        match self.index_of(id) {
            Some(index) => Some(self.entries[index].output),
            None => None,
        }
    }

    /// The handles of the registered outputs, in the order of registration.
    pub fn ids(&self) -> (ids: Vec<OutputId>)
        ensures
            ids@ == layout_ids(self@),
    {
        let mut ids: Vec<OutputId> = Vec::new();
        let mut index: usize = 0;
        while index < self.entries.len()
            invariant
                index <= self.entries.len(),
                ids@ == layout_ids(self.entries@.take(index as int)),
            decreases self.entries.len() - index,
        {
            ids.push(self.entries[index].id);
            index += 1;
            assert(ids@ =~= layout_ids(self.entries@.take(index as int)));
        }
        assert(self.entries@.take(index as int) =~= self.entries@);
        ids
    }

    /// Registers an entry after the others.
    pub(crate) fn push(&mut self, entry: RegistryEntry)
        ensures
            final(self)@ == old(self)@.push(entry),
    {
        self.entries.push(entry);
    }

    /// Moves the output at `index` to `position`.
    pub(crate) fn set_position(&mut self, index: usize, position: Position2D<u32>)
        requires
            index < old(self)@.len(),
        ensures
            final(self)@ == old(self)@.update(
                index as int,
                (RegistryEntry {
                    id: old(self)@[index as int].id,
                    output: PhysicalOutput { position, size: old(self)@[index as int].output.size },
                }),
            ),
    {
        let entry = self.entries[index];
        self.entries.set(
            index,
            RegistryEntry { id: entry.id, output: PhysicalOutput { position, size: entry.output.size } },
        );
    }

    /// Takes the entry at `index` out; the entries behind it move up.
    pub(crate) fn remove(&mut self, index: usize) -> (entry: RegistryEntry)
        requires
            index < old(self)@.len(),
        ensures
            entry == old(self)@[index as int],
            final(self)@ == old(self)@.remove(index as int),
    {
        self.entries.remove(index)
    }
}

} // verus!
