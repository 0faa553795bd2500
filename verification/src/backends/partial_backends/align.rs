use super::output_manager::PhysicalOutputEvent;
use super::physical_output::{axis_gap, axis_offset, interval_offset, PhysicalOutput};
use super::registry::{Registry, RegistryEntry};
use vstd::prelude::*;

verus! {

/// The offset of a pair whose boxes share a point, taken where the second box
/// has the least way out of the first: to the right, to the left, downwards or
/// upwards, the first of these that is no longer than the others. It is the
/// contact point on the first box minus the contact point on the second.
pub open spec fn contact_offset(a: PhysicalOutput, b: PhysicalOutput) -> (int, int) {
    let right = a.hi_x() - b.lo_x();
    let left = b.hi_x() - a.lo_x();
    let down = a.hi_y() - b.lo_y();
    let up = b.hi_y() - a.lo_y();
    if right <= left && right <= down && right <= up {
        (right, 0)
    } else if left <= down && left <= up {
        (-left, 0)
    } else if down <= up {
        (0, down)
    } else {
        (0, -up)
    }
}

/// The offset between two outputs: the nearest point of the first box minus
/// the nearest point of the second, or the contact offset where the boxes
/// share a point.
pub open spec fn separation(a: PhysicalOutput, b: PhysicalOutput) -> (int, int) {
    if a.spec_distance_squared(b) > 0 {
        (
            axis_offset(a.lo_x(), a.hi_x(), b.lo_x(), b.hi_x()),
            axis_offset(a.lo_y(), a.hi_y(), b.lo_y(), b.hi_y()),
        )
    } else {
        contact_offset(a, b)
    }
}

/// How far the second output moves along one axis. An axis whose offset is one
/// at most counts as adjacent and is left alone. Where the boxes share a
/// point, the output moves one unit beyond the offset and ends with a gap of
/// one. Where the boxes are apart, it moves one unit short of the offset on
/// the axis that takes the bias and ends with a gap of one there; on an axis
/// that does not take the bias it moves by the whole offset and ends in line
/// with the edge of the first box.
pub open spec fn axis_shift(offset: int, overlapping: bool, biased: bool) -> int {
    if -1 <= offset <= 1 {
        0
    } else if overlapping {
        if offset > 0 {
            offset + 1
        } else {
            offset - 1
        }
    } else if !biased {
        offset
    } else if offset > 0 {
        offset - 1
    } else {
        offset + 1
    }
}

/// The move that brings the second output to the first, so that the two end
/// at distance exactly one: with a gap of one on one axis, and sharing a row
/// or a column on the other. The one unit of bias is given once. The
/// horizontal axis takes it unless the vertical axis is left alone with a gap
/// of one of its own; the vertical axis takes it only where the boxes share a
/// column. So an output that is apart on both axes ends beside the first box,
/// its first or last row in line with the last or first row of that box.
pub open spec fn correction(a: PhysicalOutput, b: PhysicalOutput) -> (int, int) {
    let overlapping = a.spec_distance_squared(b) == 0;
    let offset = separation(a, b);
    (
        axis_shift(offset.0, overlapping, offset.1 != 1 && offset.1 != -1),
        axis_shift(offset.1, overlapping, offset.0 == 0),
    )
}

/// Both offsets between the two outputs are one at most, so that no axis is
/// moved. For two outputs that do not touch this is a corner contact, a gap
/// of one on either axis, or an overlap whose least way out is one at most.
pub open spec fn within_one(a: PhysicalOutput, b: PhysicalOutput) -> bool {
    let offset = separation(a, b);
    -1 <= offset.0 <= 1 && -1 <= offset.1 <= 1
}

/// What `within_one` means for two outputs that do not touch: they meet at a
/// corner, or they overlap and the second has a way out of one at most.
pub proof fn lemma_within_one(a: PhysicalOutput, b: PhysicalOutput)
    requires
        a.valid(),
        b.valid(),
        within_one(a, b),
        !a.spec_is_adjacent(b),
    ensures
        (a.gap_x(b) == 1 && a.gap_y(b) == 1) || (a.gap_x(b) == 0 && a.gap_y(b) == 0 && {
            ||| 0 <= a.hi_x() - b.lo_x() <= 1
            ||| 0 <= b.hi_x() - a.lo_x() <= 1
            ||| 0 <= a.hi_y() - b.lo_y() <= 1
            ||| 0 <= b.hi_y() - a.lo_y() <= 1
        }),
        correction(a, b) == (0int, 0int),
{
    let gx = a.gap_x(b);
    let gy = a.gap_y(b);
    assert(gx * gx + gy * gy == 0 <==> gx == 0 && gy == 0) by (nonlinear_arith)
        requires
            gx >= 0,
            gy >= 0,
    ;
    assert(gx * gx + gy * gy == 1 <==> (gx == 1 && gy == 0) || (gx == 0 && gy == 1))
        by (nonlinear_arith)
        requires
            gx >= 0,
            gy >= 0,
    ;
}

/// The correction does what it is for: where some offset is more than one and
/// the second output stays valid when moved, the move is not nothing and the
/// two outputs touch after it.
pub proof fn lemma_correction_touches(a: PhysicalOutput, b: PhysicalOutput)
    requires
        a.valid(),
        b.valid(),
        !within_one(a, b),
        b.fits_translated(correction(a, b).0, correction(a, b).1),
    ensures
        correction(a, b) != (0int, 0int),
        a.spec_is_adjacent(b.translated(correction(a, b).0, correction(a, b).1)),
{
    let shift = correction(a, b);
    let moved = b.translated(shift.0, shift.1);
    let gx = a.gap_x(b);
    let gy = a.gap_y(b);
    assert(gx * gx + gy * gy == 0 <==> gx == 0 && gy == 0) by (nonlinear_arith)
        requires
            gx >= 0,
            gy >= 0,
    ;
    assert(moved.lo_x() == b.lo_x() + shift.0);
    assert(moved.hi_x() == b.hi_x() + shift.0);
    assert(moved.lo_y() == b.lo_y() + shift.1);
    assert(moved.hi_y() == b.hi_y() + shift.1);
    let nx = a.gap_x(moved);
    let ny = a.gap_y(moved);
    assert((nx == 1 && ny == 0) || (nx == 0 && ny == 1));
    assert(nx * nx + ny * ny == 1) by (nonlinear_arith)
        requires
            (nx == 1 && ny == 0) || (nx == 0 && ny == 1),
    ;
}

/// The size of a move along one axis.
pub open spec fn move_size(shift: int) -> int {
    if shift < 0 {
        -shift
    } else {
        shift
    }
}

/// An interval that is moved comes no nearer than by the size of the move.
pub proof fn lemma_gap_moves_slowly(lo1: int, hi1: int, lo2: int, hi2: int, shift: int)
    requires
        lo1 <= hi1,
        lo2 <= hi2,
    ensures
        axis_gap(lo1, hi1, lo2 + shift, hi2 + shift) >= axis_gap(lo1, hi1, lo2, hi2) - move_size(shift),
{
}

/// The correction of a pair that is apart brings no pair to overlap that was
/// at least as far apart: an output `d`, moved with the second output of the
/// nearest pair, stays clear of an output `c` that stays with the first.
pub proof fn lemma_move_keeps_apart(
    a: PhysicalOutput,
    b: PhysicalOutput,
    c: PhysicalOutput,
    d: PhysicalOutput,
)
    requires
        a.valid(),
        b.valid(),
        c.valid(),
        d.valid(),
        a.spec_distance_squared(b) > 0,
        !within_one(a, b),
        c.spec_distance_squared(d) >= a.spec_distance_squared(b),
        d.fits_translated(correction(a, b).0, correction(a, b).1),
    ensures
        c.spec_distance_squared(d.translated(correction(a, b).0, correction(a, b).1)) >= 1,
{
    let shift = correction(a, b);
    let moved = d.translated(shift.0, shift.1);
    let gx = a.gap_x(b);
    let gy = a.gap_y(b);
    let hx = c.gap_x(d);
    let hy = c.gap_y(d);
    let nx = c.gap_x(moved);
    let ny = c.gap_y(moved);
    let tx = move_size(shift.0);
    let ty = move_size(shift.1);
    assert(moved.lo_x() == d.lo_x() + shift.0);
    assert(moved.hi_x() == d.hi_x() + shift.0);
    assert(moved.lo_y() == d.lo_y() + shift.1);
    assert(moved.hi_y() == d.hi_y() + shift.1);
    lemma_gap_moves_slowly(c.lo_x(), c.hi_x(), d.lo_x(), d.hi_x(), shift.0);
    lemma_gap_moves_slowly(c.lo_y(), c.hi_y(), d.lo_y(), d.hi_y(), shift.1);
    assert((tx <= gx - 1 && ty <= gy) || (tx <= gx && ty <= gy - 1));
    if nx == 0 && ny == 0 {
        assert(hx <= tx && hy <= ty);
        assert(hx * hx + hy * hy < gx * gx + gy * gy) by (nonlinear_arith)
            requires
                0 <= hx,
                0 <= hy,
                (hx <= gx - 1 && hy <= gy) || (hx <= gx && hy <= gy - 1),
        ;
    }
    assert(nx * nx + ny * ny >= 1) by (nonlinear_arith)
        requires
            nx >= 0,
            ny >= 0,
            nx != 0 || ny != 0,
    ;
}

/// The squared distance between a member of `main` and a member of `other`.
pub open spec fn pair_distance(
    layout: Seq<RegistryEntry>,
    main: Seq<usize>,
    other: Seq<usize>,
    s: int,
    t: int,
) -> int {
    layout[main[s] as int].output.spec_distance_squared(layout[other[t] as int].output)
}

/// The pair `(s, t)` comes before `(p, q)` when walking `main` and, for each
/// of its members, `other`.
pub open spec fn pair_before(s: int, t: int, p: int, q: int) -> bool {
    s < p || (s == p && t < q)
}

/// `(p, q)` is the nearest pair among those before `(s_end, t_end)`, and the
/// first of those that are equally near.
pub open spec fn is_closest_before(
    layout: Seq<RegistryEntry>,
    main: Seq<usize>,
    other: Seq<usize>,
    p: int,
    q: int,
    s_end: int,
    t_end: int,
) -> bool {
    &&& 0 <= p < main.len()
    &&& 0 <= q < other.len()
    &&& pair_before(p, q, s_end, t_end)
    &&& forall|s: int, t: int|
        0 <= s < main.len() && 0 <= t < other.len() && pair_before(s, t, s_end, t_end) ==> {
            let distance = #[trigger] pair_distance(layout, main, other, s, t);
            let best = pair_distance(layout, main, other, p, q);
            distance > best || (distance == best && !pair_before(s, t, p, q))
        }
}

/// `(p, q)` names the nearest pair of a member of `main` and a member of
/// `other`, the first one where several are equally near.
pub open spec fn is_closest(
    layout: Seq<RegistryEntry>,
    main: Seq<usize>,
    other: Seq<usize>,
    p: int,
    q: int,
) -> bool {
    is_closest_before(layout, main, other, p, q, main.len() as int, 0)
}

/// The nearest pair of a member of `main` and a member of `other`.
pub open spec fn closest_pair(layout: Seq<RegistryEntry>, main: Seq<usize>, other: Seq<usize>) -> (
    int,
    int,
) {
    choose|p: int, q: int| is_closest(layout, main, other, p, q)
}

/// Every member of the group stays valid when moved by `shift`.
pub open spec fn group_fits(layout: Seq<RegistryEntry>, group: Seq<usize>, shift: (int, int))
    -> bool {
    forall|t: int|
        0 <= t < group.len() ==> (#[trigger] layout[group[t] as int]).output.fits_translated(
            shift.0,
            shift.1,
        )
}

/// The move of the group `other` towards `main`: the correction of the nearest
/// pair, or no move where a member of the group would leave the coordinate
/// space.
pub open spec fn group_shift(layout: Seq<RegistryEntry>, main: Seq<usize>, other: Seq<usize>) -> (
    int,
    int,
) {
    let (p, q) = closest_pair(layout, main, other);
    let shift = correction(layout[main[p] as int].output, layout[other[q] as int].output);
    if group_fits(layout, other, shift) {
        shift
    } else {
        (0, 0)
    }
}

/// The group that holds the index.
pub open spec fn group_holding(groups: Seq<Seq<usize>>, m: usize) -> int {
    choose|k: int| 0 <= k < groups.len() && #[trigger] groups[k].contains(m)
}

/// The move of the entry at index `m` when the groups before `upto` have been
/// aligned: the first group stays, every other group moves towards it.
pub open spec fn shift_for(layout: Seq<RegistryEntry>, groups: Seq<Seq<usize>>, upto: int, m: usize)
    -> (int, int) {
    let k = group_holding(groups, m);
    if 1 <= k < upto {
        group_shift(layout, groups[0], groups[k])
    } else {
        (0, 0)
    }
}

/// The entry with its rectangle moved.
pub open spec fn moved_entry(entry: RegistryEntry, shift: (int, int)) -> RegistryEntry {
    RegistryEntry { id: entry.id, output: entry.output.translated(shift.0, shift.1) }
}

/// The layout after the groups before `upto` have been aligned.
pub open spec fn moved_layout(layout: Seq<RegistryEntry>, groups: Seq<Seq<usize>>, upto: int) -> Seq<
    RegistryEntry,
> {
    Seq::new(
        layout.len(),
        |i: int| moved_entry(layout[i], shift_for(layout, groups, upto, i as usize)),
    )
}

/// The notice that the entry at index `m` has moved by `shift`.
pub open spec fn moved_event(layout: Seq<RegistryEntry>, shift: (int, int), m: usize)
    -> PhysicalOutputEvent {
    PhysicalOutputEvent::Moved {
        id: layout[m as int].id,
        position: layout[m as int].output.translated(shift.0, shift.1).position,
    }
}

/// The notices for one group: none where it stays, one for each member where
/// it moves.
pub open spec fn group_events(layout: Seq<RegistryEntry>, group: Seq<usize>, shift: (int, int))
    -> Seq<PhysicalOutputEvent> {
    if shift == (0int, 0int) {
        Seq::empty()
    } else {
        group.map_values(|m: usize| moved_event(layout, shift, m))
    }
}

/// The notices for the groups before `upto`, group after group.
pub open spec fn events_upto(layout: Seq<RegistryEntry>, groups: Seq<Seq<usize>>, upto: int) -> Seq<
    PhysicalOutputEvent,
>
    decreases upto,
{
    if upto <= 1 {
        Seq::empty()
    } else {
        events_upto(layout, groups, upto - 1) + group_events(
            layout,
            groups[upto - 1],
            group_shift(layout, groups[0], groups[upto - 1]),
        )
    }
}

/// There is one nearest pair only.
pub proof fn lemma_closest_unique(
    layout: Seq<RegistryEntry>,
    main: Seq<usize>,
    other: Seq<usize>,
    p: int,
    q: int,
)
    requires
        is_closest(layout, main, other, p, q),
    ensures
        closest_pair(layout, main, other) == (p, q),
{
    let (s, t) = closest_pair(layout, main, other);
    assert(is_closest(layout, main, other, s, t));
    let first = pair_distance(layout, main, other, p, q);
    let second = pair_distance(layout, main, other, s, t);
    assert(first >= second);
    assert(second >= first);
}

/// The offset between two outputs, computed.
fn separation_between(a: &PhysicalOutput, b: &PhysicalOutput) -> (result: (i64, i64, bool))
    requires
        a.valid(),
        b.valid(),
    ensures
        (result.0 as int, result.1 as int) == separation(*a, *b),
        result.2 == (a.spec_distance_squared(*b) == 0),
        -0x1_0000_0000 <= result.0 <= 0x1_0000_0000,
        -0x1_0000_0000 <= result.1 <= 0x1_0000_0000,
{
    let offset_x = interval_offset(a.position.x, a.size.width, b.position.x, b.size.width);
    let offset_y = interval_offset(a.position.y, a.size.height, b.position.y, b.size.height);
    proof {
        let gx = a.gap_x(*b);
        let gy = a.gap_y(*b);
        assert(gx * gx + gy * gy == 0 <==> gx == 0 && gy == 0) by (nonlinear_arith)
            requires
                gx >= 0,
                gy >= 0,
        ;
    }
    if offset_x != 0 || offset_y != 0 {
        (offset_x, offset_y, false)
    } else {
        let right: i64 = a.position.x as i64 + a.size.width as i64 - 1 - b.position.x as i64;
        let left: i64 = b.position.x as i64 + b.size.width as i64 - 1 - a.position.x as i64;
        let down: i64 = a.position.y as i64 + a.size.height as i64 - 1 - b.position.y as i64;
        let up: i64 = b.position.y as i64 + b.size.height as i64 - 1 - a.position.y as i64;
        if right <= left && right <= down && right <= up {
            (right, 0, true)
        } else if left <= down && left <= up {
            (-left, 0, true)
        } else if down <= up {
            (0, down, true)
        } else {
            (0, -up, true)
        }
    }
}

/// The move along one axis, computed.
fn shift_along(offset: i64, overlapping: bool, biased: bool) -> (shift: i64)
    requires
        -0x1_0000_0000 <= offset <= 0x1_0000_0000,
    ensures
        shift == axis_shift(offset as int, overlapping, biased),
        -0x1_0000_0001 <= shift <= 0x1_0000_0001,
{
    if -1 <= offset && offset <= 1 {
        0
    } else if overlapping {
        if offset > 0 {
            offset + 1
        } else {
            offset - 1
        }
    } else if !biased {
        offset
    } else if offset > 0 {
        offset - 1
    } else {
        offset + 1
    }
}

/// The move that brings the second output to the first, computed.
pub(crate) fn correction_between(a: &PhysicalOutput, b: &PhysicalOutput) -> (shift: (i64, i64))
    requires
        a.valid(),
        b.valid(),
    ensures
        (shift.0 as int, shift.1 as int) == correction(*a, *b),
        -0x1_0000_0001 <= shift.0 <= 0x1_0000_0001,
        -0x1_0000_0001 <= shift.1 <= 0x1_0000_0001,
{
    let (offset_x, offset_y, overlapping) = separation_between(a, b);
    (
        shift_along(offset_x, overlapping, offset_y != 1 && offset_y != -1),
        shift_along(offset_y, overlapping, offset_x == 0),
    )
}

/// Finds the nearest pair of a member of `main` and a member of `other`.
pub(crate) fn closest_members(registry: &Registry, main: &Vec<usize>, other: &Vec<usize>) -> (pair:
    (usize, usize))
    requires
        main@.len() > 0,
        other@.len() > 0,
        forall|s: int| 0 <= s < main@.len() ==> main@[s] < registry@.len(),
        forall|t: int| 0 <= t < other@.len() ==> other@[t] < registry@.len(),
    ensures
        is_closest(registry@, main@, other@, pair.0 as int, pair.1 as int),
{
    let ghost layout = registry@;
    let mut best_s: usize = 0;
    let mut best_t: usize = 0;
    let mut best = registry.entry(main[0]).output.distance_squared(&registry.entry(other[0]).output);
    let mut s: usize = 0;
    let mut t: usize = 1;
    while s < main.len()
        invariant
            layout == registry@,
            main@.len() > 0,
            other@.len() > 0,
            forall|i: int| 0 <= i < main@.len() ==> main@[i] < layout.len(),
            forall|i: int| 0 <= i < other@.len() ==> other@[i] < layout.len(),
            s <= main@.len(),
            t <= other@.len(),
            s == main@.len() ==> t == 0,
            best == pair_distance(layout, main@, other@, best_s as int, best_t as int),
            is_closest_before(
                layout,
                main@,
                other@,
                best_s as int,
                best_t as int,
                s as int,
                t as int,
            ),
        decreases main@.len() - s, other@.len() - t,
    {
        if t < other.len() {
            let distance = registry.entry(main[s]).output.distance_squared(
                &registry.entry(other[t]).output,
            );
            assert(distance == pair_distance(layout, main@, other@, s as int, t as int));
            if distance < best {
                best = distance;
                best_s = s;
                best_t = t;
            }
            t += 1;
        } else {
            s += 1;
            t = 0;
        }
    }
    (best_s, best_t)
}

/// Tells whether every member of the group stays valid when moved.
pub(crate) fn group_fits_shift(registry: &Registry, group: &Vec<usize>, shift: (i64, i64)) -> (fits:
    bool)
    requires
        forall|t: int| 0 <= t < group@.len() ==> group@[t] < registry@.len(),
        -0x1_0000_0001 <= shift.0 <= 0x1_0000_0001,
        -0x1_0000_0001 <= shift.1 <= 0x1_0000_0001,
    ensures
        fits == group_fits(registry@, group@, (shift.0 as int, shift.1 as int)),
{
    let mut t: usize = 0;
    while t < group.len()
        invariant
            t <= group@.len(),
            forall|i: int| 0 <= i < group@.len() ==> group@[i] < registry@.len(),
            -0x1_0000_0001 <= shift.0 <= 0x1_0000_0001,
            -0x1_0000_0001 <= shift.1 <= 0x1_0000_0001,
            forall|i: int|
                0 <= i < t ==> (#[trigger] registry@[group@[i] as int]).output.fits_translated(
                    shift.0 as int,
                    shift.1 as int,
                ),
        decreases group@.len() - t,
    {
        let output = registry.entry(group[t]).output;
        let x: i64 = output.position.x as i64 + shift.0;
        let y: i64 = output.position.y as i64 + shift.1;
        let fits = 0 <= x && 0 <= y && x + output.size.width as i64 <= u32::MAX as i64 && y
            + output.size.height as i64 <= u32::MAX as i64;
        if !fits {
            assert(!registry@[group@[t as int] as int].output.fits_translated(
                shift.0 as int,
                shift.1 as int,
            ));
            return false;
        }
        t += 1;
    }
    true
}

/// Computes the move of the group `other` towards `main`.
pub(crate) fn shift_of_group(registry: &Registry, main: &Vec<usize>, other: &Vec<usize>) -> (shift:
    (i64, i64))
    requires
        registry.wf(),
        main@.len() > 0,
        other@.len() > 0,
        forall|s: int| 0 <= s < main@.len() ==> main@[s] < registry@.len(),
        forall|t: int| 0 <= t < other@.len() ==> other@[t] < registry@.len(),
    ensures
        (shift.0 as int, shift.1 as int) == group_shift(registry@, main@, other@),
        -0x1_0000_0001 <= shift.0 <= 0x1_0000_0001,
        -0x1_0000_0001 <= shift.1 <= 0x1_0000_0001,
{
    let pair = closest_members(registry, main, other);
    proof {
        lemma_closest_unique(registry@, main@, other@, pair.0 as int, pair.1 as int);
    }
    let a = registry.entry(main[pair.0]).output;
    let b = registry.entry(other[pair.1]).output;
    let shift = correction_between(&a, &b);
    if group_fits_shift(registry, other, shift) {
        shift
    } else {
        (0, 0)
    }
}

} // verus!
