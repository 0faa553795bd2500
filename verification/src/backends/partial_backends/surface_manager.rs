use crate::definitions::common::{Position2D, Position3D, Size2D};
use std::cmp::Ordering;
use std::collections::VecDeque;
use vstd::prelude::*;
use vstd::std_specs::cmp::{PartialEqSpecImpl, PartialOrdSpecImpl};

verus! {

/// The notice that a surface has a new place.
pub enum SurfaceUpdate {
    PositionChanged { id: usize, position: Position3D<u32> },
}

/// A surface: its number, its place with its depth in the stack, and its
/// extent. Two surfaces compare by their depth alone.
#[derive(Debug, Clone, Copy)]
pub struct Surface {
    pub id: usize,
    pub position: Position3D<u32>,
    pub size: Size2D<u32>,
}

impl Surface {
    /// The position lies strictly between the corners of the surface.
    pub open spec fn spec_contains(self, position: Position2D<u32>) -> bool {
        &&& self.position.x < position.x < self.position.x + self.size.width
        &&& self.position.y < position.y < self.position.y + self.size.height
    }

    /// Tells whether the position lies strictly inside the surface.
    pub fn contains(&self, position: Position2D<u32>) -> (inside: bool)
        ensures
            inside == self.spec_contains(position),
    {
        position.x > self.position.x && position.x - self.position.x < self.size.width
            && position.y > self.position.y && position.y - self.position.y < self.size.height
    }
}

impl PartialEq for Surface {
    fn eq(&self, other: &Self) -> (equal: bool) {
        self.position.z == other.position.z
    }
}

impl PartialEqSpecImpl for Surface {
    open spec fn obeys_eq_spec() -> bool {
        true
    }

    open spec fn eq_spec(&self, other: &Self) -> bool {
        self.position.z == other.position.z
    }
}

impl PartialOrd for Surface {
    fn partial_cmp(&self, other: &Self) -> (order: Option<Ordering>) {
        if self.position.z < other.position.z {
            Some(Ordering::Less)
        } else if self.position.z == other.position.z {
            Some(Ordering::Equal)
        } else {
            Some(Ordering::Greater)
        }
    }
}

impl PartialOrdSpecImpl for Surface {
    open spec fn obeys_partial_cmp_spec() -> bool {
        true
    }

    open spec fn partial_cmp_spec(&self, other: &Self) -> Option<Ordering> {
        if self.position.z < other.position.z {
            Some(Ordering::Less)
        } else if self.position.z == other.position.z {
            Some(Ordering::Equal)
        } else {
            Some(Ordering::Greater)
        }
    }
}

/// The stack holds a surface with this number.
pub open spec fn stack_has(stack: Seq<Surface>, id: usize) -> bool {
    exists|k: int| 0 <= k < stack.len() && #[trigger] stack[k].id == id
}

/// The first place in the stack of a surface with this number.
pub open spec fn is_first_surface(stack: Seq<Surface>, id: usize, index: int) -> bool {
    &&& 0 <= index < stack.len()
    &&& stack[index].id == id
    &&& forall|k: int| 0 <= k < index ==> (#[trigger] stack[k]).id != id
}

/// The depth that belongs to the place `index` of the stack.
pub open spec fn depth_of(index: int) -> u32 {
    index as u32
}

/// The surface with the depth of its place in the stack.
pub open spec fn at_depth(surface: Surface, index: int) -> Surface {
    Surface {
        id: surface.id,
        position: Position3D {
            x: surface.position.x,
            y: surface.position.y,
            z: depth_of(index),
        },
        size: surface.size,
    }
}

/// The stack with the depths from `from` on set to the places.
pub open spec fn restacked(stack: Seq<Surface>, from: int) -> Seq<Surface> {
    Seq::new(
        stack.len(),
        |k: int|
            if k < from {
                stack[k]
            } else {
                at_depth(stack[k], k)
            },
    )
}

/// The notices of setting the depths from `from` on: one for each surface
/// from there on, in the order of the stack.
pub open spec fn restack_updates(stack: Seq<Surface>, from: int) -> Seq<SurfaceUpdate> {
    Seq::new(
        if from < stack.len() {
            (stack.len() - from) as nat
        } else {
            0
        },
        |k: int|
            SurfaceUpdate::PositionChanged {
                id: stack[from + k].id,
                position: at_depth(stack[from + k], from + k).position,
            },
    )
}

/// Keeps the surfaces in a stack, the topmost first. The depth of a surface
/// is its place in the stack.
pub struct SurfaceManager {
    surfaces: VecDeque<Surface>,
}

impl View for SurfaceManager {
    type V = Seq<Surface>;

    closed spec fn view(&self) -> Seq<Surface> {
        self.surfaces@
    }
}

impl SurfaceManager {
    pub fn new() -> (manager: Self)
        ensures
            manager@ == Seq::<Surface>::empty(),
    {
        Self { surfaces: VecDeque::new() }
    }

    /// The number of surfaces in the stack.
    pub fn len(&self) -> (len: usize)
        ensures
            len == self@.len(),
    {
        self.surfaces.len()
    }

    /// Puts a new surface on top of the stack, at the origin.
    pub fn add_surface(&mut self, id: usize, size: Size2D<u32>) -> (updates: Vec<SurfaceUpdate>)
        ensures
            final(self)@ == restacked(
                seq![
                    Surface { id, position: Position3D { x: 0, y: 0, z: 0 }, size },
                ] + old(self)@,
                1,
            ),
            updates@ == restack_updates(
                seq![
                    Surface { id, position: Position3D { x: 0, y: 0, z: 0 }, size },
                ] + old(self)@,
                1,
            ),
    {
        self.add_surface_inner(id, Position2D { x: 0, y: 0 }, size)
    }

    /// Puts a new surface on top of the stack, at the given position; the
    /// surfaces below it get the depth of their new places.
    pub fn add_surface_inner(&mut self, id: usize, position: Position2D<u32>, size: Size2D<u32>) -> (updates:
        Vec<SurfaceUpdate>)
        ensures
            final(self)@ == restacked(
                seq![
                    Surface { id, position: Position3D { x: position.x, y: position.y, z: 0 }, size },
                ] + old(self)@,
                1,
            ),
            updates@ == restack_updates(
                seq![
                    Surface { id, position: Position3D { x: position.x, y: position.y, z: 0 }, size },
                ] + old(self)@,
                1,
            ),
    {
        let surface = Surface {
            id,
            position: Position3D { x: position.x, y: position.y, z: 0 },
            size,
        };
        self.surfaces.push_front(surface);
        assert(self@ =~= seq![surface] + old(self)@);
        self.update_depth(1)
    }

    /// The place of the first surface with this number, if there is one.
    pub fn position_of(&self, id: usize) -> (found: Option<usize>)
        ensures
            match found {
                Some(index) => is_first_surface(self@, id, index as int),
                None => !stack_has(self@, id),
            },
    {
        let mut index: usize = 0;
        while index < self.surfaces.len()
            invariant
                index <= self.surfaces@.len(),
                forall|k: int| 0 <= k < index ==> (#[trigger] self.surfaces@[k]).id != id,
            decreases self.surfaces@.len() - index,
        {
            if self.surfaces[index].id == id {
                return Some(index);
            }
            index += 1;
        }
        None
    }

    /// Takes the first surface with this number out of the stack; the
    /// surfaces below it get the depth of their new places. Nothing happens
    /// where there is no such surface.
    pub fn del_surface(&mut self, id: usize) -> (updates: Vec<SurfaceUpdate>)
        ensures
            if stack_has(old(self)@, id) {
                exists|index: int| #[trigger]
                    is_first_surface(old(self)@, id, index) && final(self)@ == restacked(
                        old(self)@.remove(index),
                        index,
                    ) && updates@ == restack_updates(old(self)@.remove(index), index)
            } else {
                &&& final(self)@ == old(self)@
                &&& updates@.len() == 0
            },
    {
        match self.position_of(id) {
            Some(position) => {
                self.surfaces.remove(position);
                self.update_depth(position)
            },
            None => Vec::new(),
        }
    }

    /// Hands the first surface with this number to the callback and returns
    /// what the callback returns.
    pub fn surface_ref<T, F: Fn(&Surface) -> T>(&self, id: usize, callback: F) -> (result: Option<
        T,
    >)
        requires
            forall|surface: &Surface| call_requires(callback, (surface,)),
        ensures
            match result {
                Some(value) => exists|index: int| #[trigger]
                    is_first_surface(self@, id, index) && call_ensures(
                        callback,
                        (&self@[index],),
                        value,
                    ),
                None => !stack_has(self@, id),
            },
    {
        match self.position_of(id) {
            Some(index) => {
                let value = callback(&self.surfaces[index]);
                assert(is_first_surface(self@, id, index as int) && call_ensures(
                    callback,
                    (&self@[index as int],),
                    value,
                ));
                Some(value)
            },
            None => None,
        }
    }

    /// Hands the first surface with this number to the callback, which gives
    /// it back changed, and puts the changed surface in its place. Returns
    /// what the callback returns beside the surface.
    pub fn surface_mut<T, F: Fn(Surface) -> (Surface, T)>(&mut self, id: usize, callback: F) -> (result:
        Option<T>)
        requires
            forall|surface: Surface| call_requires(callback, (surface,)),
        ensures
            result is None ==> !stack_has(old(self)@, id) && final(self)@ == old(self)@,
            result is Some ==> exists|index: int, changed: Surface|
                is_first_surface(old(self)@, id, index) && #[trigger] call_ensures(
                    callback,
                    (old(self)@[index],),
                    (changed, result.unwrap()),
                ) && final(self)@ == old(self)@.update(index, changed),
    {
        match self.position_of(id) {
            Some(index) => {
                let surface = self.surfaces[index];
                let (changed, value) = callback(surface);
                self.surfaces.remove(index);
                self.surfaces.insert(index, changed);
                assert(self@ =~= old(self)@.update(index as int, changed));
                let result = Some(value);
                assert(call_ensures(
                    callback,
                    (old(self)@[index as int],),
                    (changed, result.unwrap()),
                ));
                result
            },
            None => None,
        }
    }

    /// Gives every surface from `from` on the depth of its place and reports
    /// each of them.
    pub fn update_depth(&mut self, from: usize) -> (updates: Vec<SurfaceUpdate>)
        ensures
            final(self)@ == restacked(old(self)@, from as int),
            updates@ == restack_updates(old(self)@, from as int),
    {
        let ghost stack = self@;
        let mut updates: Vec<SurfaceUpdate> = Vec::new();
        let mut index: usize = from;
        if from >= self.surfaces.len() {
            assert(self@ =~= restacked(stack, from as int));
            assert(updates@ =~= restack_updates(stack, from as int));
            return updates;
        }
        while index < self.surfaces.len()
            invariant
                stack == old(self)@,
                from < stack.len(),
                from <= index <= stack.len(),
                self@.len() == stack.len(),
                forall|k: int| 0 <= k < index ==> #[trigger] self@[k] == restacked(stack, from as int)[k],
                forall|k: int| index <= k < stack.len() ==> #[trigger] self@[k] == stack[k],
                updates@ == restack_updates(stack, from as int).take(index - from),
            decreases stack.len() - index,
        {
            let surface = self.surfaces[index];
            let position = Position3D {
                x: surface.position.x,
                y: surface.position.y,
                z: place_depth(index),
            };
            let ghost before = self@;
            self.surfaces.remove(index);
            self.surfaces.insert(index, Surface { id: surface.id, position, size: surface.size });
            assert(self@ =~= before.update(index as int, at_depth(stack[index as int], index as int)));
            updates.push(SurfaceUpdate::PositionChanged { id: surface.id, position });
            proof {
                let wanted = restack_updates(stack, from as int);
                let k = index - from;
                assert(wanted.take(k + 1) =~= wanted.take(k).push(wanted[k]));
            }
            index += 1;
        }
        proof {
            let wanted = restack_updates(stack, from as int);
            assert(wanted.take(index - from) =~= wanted);
            assert(self@ =~= restacked(stack, from as int));
        }
        updates
    }
}

/// The depth that belongs to a place of the stack.
fn place_depth(index: usize) -> (depth: u32)
    ensures
        depth == depth_of(index as int),
{
    index as u32
}

} // verus!
