use super::adjacency::{edges_closed, graph_edges, graph_tracks, lemma_agreement_from_edges};
use super::align::{
    events_upto, group_events, group_holding, group_shift, moved_entry, moved_event, moved_layout,
    shift_of_group,
};
use super::groups::{
    all_indices, index_groups, layout_index_groups, lemma_all_indices, lemma_groups_split,
    nested_view, splits,
};
use super::output_manager::{rebuild_edges, PhysicalOutputEvent};
use super::registry::{layout_has, layout_nodes, layout_wf, Registry, RegistryEntry};
use crate::definitions::common::Position2D;
use crate::definitions::event::output_event::OutputId;
use petgraph::graphmap::GraphMap;
use petgraph::Undirected;
use std::hash::RandomState;
use vstd::prelude::*;

verus! {

/// One pass of the repair: the layout with every group but the first moved
/// towards the first, and the notices of the moves.
pub open spec fn repair_pass(layout: Seq<RegistryEntry>) -> (
    Seq<RegistryEntry>,
    Seq<PhysicalOutputEvent>,
) {
    let groups = layout_index_groups(layout);
    (
        moved_layout(layout, groups, groups.len() as int),
        events_upto(layout, groups, groups.len() as int),
    )
}

/// The repair: passes are made until one moves nothing, `budget` of them at
/// most. The result is the layout after the last pass, and the notices of all
/// passes in the order of the moves.
pub open spec fn repair(layout: Seq<RegistryEntry>, budget: nat) -> (
    Seq<RegistryEntry>,
    Seq<PhysicalOutputEvent>,
)
    decreases budget,
{
    if budget == 0 {
        (layout, Seq::empty())
    } else {
        let pass = repair_pass(layout);
        if pass.1.len() == 0 {
            (layout, Seq::empty())
        } else {
            let rest = repair(pass.0, (budget - 1) as nat);
            (rest.0, pass.1 + rest.1)
        }
    }
}

/// The layout while the group `k` is being moved: the groups before it have
/// moved, and so have the first `t` members of the group itself.
pub open spec fn partly_moved(
    layout: Seq<RegistryEntry>,
    groups: Seq<Seq<usize>>,
    k: int,
    t: int,
) -> Seq<RegistryEntry> {
    Seq::new(
        layout.len(),
        |i: int|
            {
                let g = group_holding(groups, i as usize);
                if (1 <= g < k) || (g == k && groups[k].take(t).contains(i as usize)) {
                    moved_entry(layout[i], group_shift(layout, groups[0], groups[g]))
                } else {
                    layout[i]
                }
            },
    )
}

/// An index lies in the group that holds it, and in no other.
pub proof fn lemma_group_holding(
    layout: Seq<RegistryEntry>,
    pool: Seq<usize>,
    groups: Seq<Seq<usize>>,
    k: int,
    m: usize,
)
    requires
        splits(layout, pool, groups),
        0 <= k < groups.len(),
        groups[k].contains(m),
    ensures
        group_holding(groups, m) == k,
{
    let g = group_holding(groups, m);
    assert(0 <= g < groups.len() && groups[g].contains(m));
}

/// What is known of the groups of a well-formed layout.
pub proof fn lemma_layout_groups(layout: Seq<RegistryEntry>)
    requires
        layout.len() <= usize::MAX,
    ensures
        splits(layout, all_indices(layout.len()), layout_index_groups(layout)),
        forall|k: int, t: int|
            0 <= k < layout_index_groups(layout).len() && 0 <= t < layout_index_groups(
                layout,
            )[k].len() ==> (#[trigger] layout_index_groups(layout)[k][t]) < layout.len(),
        forall|m: usize|
            m < layout.len() ==> 0 <= #[trigger] group_holding(layout_index_groups(layout), m)
                < layout_index_groups(layout).len() && layout_index_groups(
                layout,
            )[group_holding(layout_index_groups(layout), m)].contains(m),
{
    let pool = all_indices(layout.len());
    let groups = layout_index_groups(layout);
    lemma_all_indices(layout.len());
    lemma_groups_split(layout, pool);
    assert forall|k: int, t: int| 0 <= k < groups.len() && 0 <= t < groups[k].len() implies (
    #[trigger] groups[k][t]) < layout.len() by {
        assert(groups[k].contains(groups[k][t]));
    }
    assert forall|m: usize| m < layout.len() implies 0 <= #[trigger] group_holding(groups, m) < groups.len()
        && groups[group_holding(groups, m)].contains(m) by {
        assert(pool.contains(m));
    }
}

/// Moving an entry by nothing leaves it as it is.
pub proof fn lemma_moved_by_nothing(entry: RegistryEntry)
    ensures
        moved_entry(entry, (0, 0)) == entry,
{
}

/// Computes, for each group, its move towards the first.
fn shifts_of_groups(registry: &Registry, groups: &Vec<Vec<usize>>) -> (shifts: Vec<(i64, i64)>)
    requires
        registry.wf(),
        nested_view(groups@) == layout_index_groups(registry@),
    ensures
        shifts@.len() == groups@.len(),
        forall|k: int|
            1 <= k < groups@.len() ==> (#[trigger] shifts@[k].0 as int, shifts@[k].1 as int)
                == group_shift(registry@, groups@[0]@, groups@[k]@),
        forall|k: int|
            0 <= k < groups@.len() ==> -0x1_0000_0001 <= (#[trigger] shifts@[k]).0
                <= 0x1_0000_0001 && -0x1_0000_0001 <= shifts@[k].1 <= 0x1_0000_0001,
{
    let ghost layout = registry@;
    let ghost spec_groups = layout_index_groups(layout);
    proof {
        registry.lemma_len_fits();
        lemma_layout_groups(layout);
        assert forall|k: int| 0 <= k < groups@.len() implies #[trigger] groups@[k]@
            == spec_groups[k] by {
            assert(nested_view(groups@)[k] == groups@[k]@);
        }
    }
    let mut shifts: Vec<(i64, i64)> = Vec::new();
    let mut k: usize = 0;
    while k < groups.len()
        invariant
            layout == registry@,
            registry.wf(),
            spec_groups == layout_index_groups(layout),
            spec_groups.len() == groups@.len(),
            splits(layout, all_indices(layout.len()), spec_groups),
            forall|g: int| 0 <= g < groups@.len() ==> #[trigger] groups@[g]@ == spec_groups[g],
            forall|g: int, t: int|
                0 <= g < spec_groups.len() && 0 <= t < spec_groups[g].len() ==> (
                #[trigger] spec_groups[g][t]) < layout.len(),
            k <= groups@.len(),
            shifts@.len() == k,
            forall|g: int|
                1 <= g < k ==> (#[trigger] shifts@[g].0 as int, shifts@[g].1 as int)
                    == group_shift(layout, groups@[0]@, groups@[g]@),
            forall|g: int|
                0 <= g < k ==> -0x1_0000_0001 <= (#[trigger] shifts@[g]).0 <= 0x1_0000_0001
                    && -0x1_0000_0001 <= shifts@[g].1 <= 0x1_0000_0001,
        decreases groups@.len() - k,
    {
        if k == 0 {
            shifts.push((0, 0));
        } else {
            proof {
                assert(groups@[0]@ == spec_groups[0]);
                assert(groups@[k as int]@ == spec_groups[k as int]);
                assert(super::groups::is_group(layout, all_indices(layout.len()), spec_groups[0]));
                assert(super::groups::is_group(
                    layout,
                    all_indices(layout.len()),
                    spec_groups[k as int],
                ));
                assert forall|s: int| 0 <= s < groups@[0]@.len() implies groups@[0]@[s]
                    < layout.len() by {
                    assert(spec_groups[0][s] < layout.len());
                }
                assert forall|t: int| 0 <= t < groups@[k as int]@.len() implies groups@[k as int]@[t]
                    < layout.len() by {
                    assert(spec_groups[k as int][t] < layout.len());
                }
            }
            let shift = shift_of_group(registry, &groups[0], &groups[k]);
            shifts.push(shift);
        }
        k += 1;
    }
    shifts
}

/// Moves the groups by the moves computed for them and reports the moves.
fn align(registry: &mut Registry, groups: &Vec<Vec<usize>>, shifts: &Vec<(i64, i64)>) -> (events:
    Vec<PhysicalOutputEvent>)
    requires
        old(registry).wf(),
        nested_view(groups@) == layout_index_groups(old(registry)@),
        shifts@.len() == groups@.len(),
        forall|k: int|
            1 <= k < groups@.len() ==> (#[trigger] shifts@[k].0 as int, shifts@[k].1 as int)
                == group_shift(old(registry)@, groups@[0]@, groups@[k]@),
    ensures
        final(registry).wf(),
        (final(registry)@, events@) == repair_pass(old(registry)@),
{
    let ghost layout = registry@;
    let ghost spec_groups = layout_index_groups(layout);
    let ghost pool = all_indices(layout.len());
    proof {
        registry.lemma_len_fits();
        lemma_layout_groups(layout);
        assert forall|k: int| 0 <= k < groups@.len() implies #[trigger] groups@[k]@
            == spec_groups[k] by {
            assert(nested_view(groups@)[k] == groups@[k]@);
        }
        assert(registry@ =~= moved_layout(layout, spec_groups, 1)) by {
            assert forall|i: int| 0 <= i < layout.len() implies layout[i] == moved_layout(
                layout,
                spec_groups,
                1,
            )[i] by {
                lemma_moved_by_nothing(layout[i]);
            }
        }
    }
    let mut events: Vec<PhysicalOutputEvent> = Vec::new();
    if groups.len() == 0 {
        proof {
            assert(layout.len() == 0) by {
                if layout.len() > 0 {
                    assert(pool.len() > 0);
                    lemma_groups_split(layout, pool);
                }
            }
            assert(registry@ =~= moved_layout(layout, spec_groups, 0));
            assert(events@ =~= events_upto(layout, spec_groups, 0));
        }
        return events;
    }
    let mut k: usize = 1;
    while k < groups.len()
        invariant
            layout_wf(layout),
            groups@.len() >= 1,
            layout.len() <= usize::MAX,
            spec_groups == layout_index_groups(layout),
            pool == all_indices(layout.len()),
            spec_groups.len() == groups@.len(),
            shifts@.len() == groups@.len(),
            splits(layout, pool, spec_groups),
            forall|g: int| 0 <= g < groups@.len() ==> #[trigger] groups@[g]@ == spec_groups[g],
            forall|g: int, t: int|
                0 <= g < spec_groups.len() && 0 <= t < spec_groups[g].len() ==> (
                #[trigger] spec_groups[g][t]) < layout.len(),
            forall|m: usize|
                m < layout.len() ==> 0 <= #[trigger] group_holding(spec_groups, m) < spec_groups.len(),
            forall|g: int|
                1 <= g < groups@.len() ==> (#[trigger] shifts@[g].0 as int, shifts@[g].1 as int)
                    == group_shift(layout, spec_groups[0], spec_groups[g]),
            1 <= k,
            groups@.len() >= 1 ==> k <= groups@.len(),
            registry@ == moved_layout(layout, spec_groups, k as int),
            events@ == events_upto(layout, spec_groups, k as int),
        decreases groups@.len() - k,
    {
        let shift = shifts[k];
        let ghost move_by = (shift.0 as int, shift.1 as int);
        let ghost group = spec_groups[k as int];
        proof {
            assert(groups@[k as int]@ == group);
            assert(move_by == group_shift(layout, spec_groups[0], group));
            assert(super::groups::is_group(layout, pool, group));
            assert(registry@ =~= partly_moved(layout, spec_groups, k as int, 0)) by {
                assert(group.take(0) =~= Seq::<usize>::empty());
                assert forall|i: int| 0 <= i < layout.len() implies registry@[i] == partly_moved(
                    layout,
                    spec_groups,
                    k as int,
                    0,
                )[i] by {
                    lemma_moved_by_nothing(layout[i]);
                }
            }
        }
        if shift.0 != 0 || shift.1 != 0 {
            let members = &groups[k];
            let ghost before = events@;
            let mut t: usize = 0;
            while t < members.len()
                invariant
                    layout_wf(layout),
                    layout.len() <= usize::MAX,
                    1 <= k < spec_groups.len(),
                    members@ == group,
                    group == spec_groups[k as int],
                    splits(layout, pool, spec_groups),
                    super::groups::is_group(layout, pool, group),
                    forall|i: int| 0 <= i < group.len() ==> (#[trigger] group[i]) < layout.len(),
                    forall|m: usize|
                        m < layout.len() ==> 0 <= #[trigger] group_holding(spec_groups, m)
                            < spec_groups.len(),
                    move_by == (shift.0 as int, shift.1 as int),
                    move_by == group_shift(layout, spec_groups[0], group),
                    move_by != (0int, 0int),
                    t <= group.len(),
                    registry@ == partly_moved(layout, spec_groups, k as int, t as int),
                    events@ == before + group.take(t as int).map_values(
                        |m: usize| moved_event(layout, move_by, m),
                    ),
                decreases group.len() - t,
            {
                let member = members[t];
                let entry = registry.entry(member);
                proof {
                    assert(group.contains(member));
                    lemma_group_holding(layout, pool, spec_groups, k as int, member);
                    assert(!group.take(t as int).contains(member)) by {
                        if group.take(t as int).contains(member) {
                            let i = choose|i: int|
                                0 <= i < t && group.take(t as int)[i] == member;
                            assert(group[i] == group[t as int]);
                        }
                    }
                    assert(entry == layout[member as int]);
                    assert(super::align::group_fits(layout, group, move_by));
                    assert(layout[group[t as int] as int].output.fits_translated(
                        move_by.0,
                        move_by.1,
                    ));
                }
                let x: i64 = entry.output.position.x as i64 + shift.0;
                let y: i64 = entry.output.position.y as i64 + shift.1;
                let position = Position2D { x: x as u32, y: y as u32 };
                registry.set_position(member, position);
                events.push(PhysicalOutputEvent::Moved { id: entry.id, position });
                proof {
                    let next = t + 1;
                    assert(group.take(next) =~= group.take(t as int).push(member));
                    assert(registry@ =~= partly_moved(layout, spec_groups, k as int, next)) by {
                        assert forall|i: int| 0 <= i < layout.len() implies registry@[i]
                            == partly_moved(layout, spec_groups, k as int, next)[i] by {
                            if i == member {
                                assert(group.take(next).contains(member)) by {
                                    assert(group.take(next)[t as int] == member);
                                }
                            } else {
                                assert(group.take(next).contains(i as usize)
                                    == group.take(t as int).contains(i as usize)) by {
                                    if group.take(next).contains(i as usize) {
                                        let j = choose|j: int|
                                            0 <= j < next && group.take(next)[j] == i as usize;
                                        assert(group.take(t as int)[j] == i as usize);
                                    }
                                    if group.take(t as int).contains(i as usize) {
                                        let j = choose|j: int|
                                            0 <= j < t && group.take(t as int)[j] == i as usize;
                                        assert(group.take(next)[j] == i as usize);
                                    }
                                }
                            }
                        }
                    }
                    assert(events@ =~= before + group.take(next).map_values(
                        |m: usize| moved_event(layout, move_by, m),
                    ));
                }
                t += 1;
            }
            proof {
                assert(group.take(t as int) =~= group);
            }
        }
        proof {
            let next = k + 1;
            assert(events@ =~= events_upto(layout, spec_groups, next)) by {
                if move_by == (0int, 0int) {
                    assert(group_events(layout, group, move_by) =~= Seq::empty());
                } else {
                    assert(group.take(group.len() as int) =~= group);
                }
            }
            assert(registry@ =~= moved_layout(layout, spec_groups, next)) by {
                assert forall|i: int| 0 <= i < layout.len() implies registry@[i] == moved_layout(
                    layout,
                    spec_groups,
                    next,
                )[i] by {
                    let g = group_holding(spec_groups, i as usize);
                    assert(group.take(group.len() as int) =~= group);
                    if g == k {
                        if move_by == (0int, 0int) {
                            lemma_moved_by_nothing(layout[i]);
                        } else {
                            lemma_layout_groups(layout);
                        }
                    } else {
                        lemma_moved_by_nothing(layout[i]);
                    }
                }
            }
        }
        k += 1;
    }
    proof {
        lemma_moved_layout_wf(layout, spec_groups.len() as int);
    }
    events
}

/// Aligning keeps a layout well-formed: the handles stay, and a group moves
/// only where all of its members stay valid.
pub proof fn lemma_moved_layout_wf(layout: Seq<RegistryEntry>, upto: int)
    requires
        layout_wf(layout),
        layout.len() <= usize::MAX,
    ensures
        layout_wf(moved_layout(layout, layout_index_groups(layout), upto)),
        moved_layout(layout, layout_index_groups(layout), upto).len() == layout.len(),
        forall|i: int|
            0 <= i < layout.len() ==> (#[trigger] moved_layout(
                layout,
                layout_index_groups(layout),
                upto,
            )[i]).id == layout[i].id,
{
    let groups = layout_index_groups(layout);
    let moved = moved_layout(layout, groups, upto);
    lemma_layout_groups(layout);
    assert forall|i: int| 0 <= i < moved.len() implies #[trigger] moved[i].output.valid() by {
        let k = group_holding(groups, i as usize);
        assert(layout[i].output.valid());
        if 1 <= k < upto {
            let shift = group_shift(layout, groups[0], groups[k]);
            if shift != (0int, 0int) {
                assert(super::align::group_fits(layout, groups[k], shift));
                assert(groups[k].contains(i as usize));
                let t = choose|t: int| 0 <= t < groups[k].len() && groups[k][t] == i as usize;
                assert(layout[groups[k][t] as int].output.fits_translated(shift.0, shift.1));
            }
        }
    }
    assert forall|i: int, j: int| 0 <= i < j < moved.len() implies #[trigger] moved[i].id
        != #[trigger] moved[j].id by {
        assert(layout[i].id != layout[j].id);
    }
}

/// Moving outputs keeps the set of registered outputs.
pub proof fn lemma_same_ids_same_nodes(before: Seq<RegistryEntry>, after: Seq<RegistryEntry>)
    requires
        before.len() == after.len(),
        forall|i: int| 0 <= i < before.len() ==> (#[trigger] after[i]).id == before[i].id,
    ensures
        layout_nodes(after) =~= layout_nodes(before),
        forall|edges: Set<(usize, usize)>|
            edges_closed(edges, before) ==> #[trigger] edges_closed(edges, after),
{
    assert forall|id: OutputId| layout_has(before, id) <==> layout_has(after, id) by {
        if layout_has(before, id) {
            let i = choose|i: int| 0 <= i < before.len() && #[trigger] before[i].id == id;
            assert(after[i].id == id);
        }
        if layout_has(after, id) {
            let i = choose|i: int| 0 <= i < after.len() && #[trigger] after[i].id == id;
            assert(before[i].id == id);
        }
    }
    assert forall|n: usize| layout_nodes(after).contains(n) <==> layout_nodes(before).contains(
        n,
    ) by {
        assert(layout_has(before, OutputId(n)) <==> layout_has(after, OutputId(n)));
    }
    assert forall|edges: Set<(usize, usize)>| edges_closed(edges, before) implies #[trigger] edges_closed(
        edges,
        after,
    ) by {
        assert forall|a: usize, b: usize| #[trigger] edges.contains((a, b)) implies a != b
            && layout_has(after, OutputId(a)) && layout_has(after, OutputId(b)) by {
            assert(layout_has(before, OutputId(a)) <==> layout_has(after, OutputId(a)));
            assert(layout_has(before, OutputId(b)) <==> layout_has(after, OutputId(b)));
        }
    }
}

/// Repairs the layout: while it falls apart into groups, every group but the
/// first is moved towards the first, and the edges are set anew. It ends when
/// a pass moves nothing, and after as many passes as there are outputs at the
/// latest.
pub(crate) fn merge_groups(
    graph: &mut GraphMap<usize, (), Undirected, RandomState>,
    registry: &mut Registry,
) -> (events: Vec<PhysicalOutputEvent>)
    requires
        old(registry).wf(),
        graph_tracks(*old(graph), old(registry)@),
    ensures
        final(registry).wf(),
        graph_tracks(*final(graph), final(registry)@),
        (final(registry)@, events@) == repair(old(registry)@, old(registry)@.len()),
        final(registry)@.len() == old(registry)@.len(),
        forall|i: int|
            0 <= i < old(registry)@.len() ==> (#[trigger] final(registry)@[i]).id == old(
                registry,
            )@[i].id,
{
    let ghost start = registry@;
    let mut events: Vec<PhysicalOutputEvent> = Vec::new();
    let mut budget: usize = registry.len();
    loop
        invariant
            registry.wf(),
            graph_tracks(*graph, registry@),
            registry@.len() == start.len(),
            start.len() <= usize::MAX,
            forall|i: int| 0 <= i < start.len() ==> (#[trigger] registry@[i]).id == start[i].id,
            repair(start, start.len()) == ({
                let rest = repair(registry@, budget as nat);
                (rest.0, events@ + rest.1)
            }),
        ensures
            registry.wf(),
            graph_tracks(*graph, registry@),
            registry@.len() == start.len(),
            forall|i: int| 0 <= i < start.len() ==> (#[trigger] registry@[i]).id == start[i].id,
            repair(start, start.len()) == (registry@, events@),
        decreases budget,
    {
        if budget == 0 {
            assert(events@ + Seq::<PhysicalOutputEvent>::empty() =~= events@);
            break ;
        }
        let groups = index_groups(graph, registry);
        let shifts = shifts_of_groups(registry, &groups);
        let ghost before = registry@;
        let mut moves = align(registry, &groups, &shifts);
        if moves.len() == 0 {
            proof {
                assert(repair_pass(before).1.len() == 0);
                assert(registry@ == repair_pass(before).0);
                lemma_idle_pass(before);
                assert(events@ + Seq::<PhysicalOutputEvent>::empty() =~= events@);
            }
            break ;
        }
        proof {
            lemma_moved_layout_wf(before, layout_index_groups(before).len() as int);
            lemma_agreement_from_edges(before);
            lemma_same_ids_same_nodes(before, registry@);
            assert(edges_closed(graph_edges(*graph), registry@));
            let rest = repair(registry@, (budget - 1) as nat);
            assert((events@ + moves@) + rest.1 =~= events@ + (moves@ + rest.1));
        }
        events.append(&mut moves);
        rebuild_edges(graph, registry);
        budget -= 1;
    }
    events
}

/// A pass that reports no move has moved nothing.
pub proof fn lemma_idle_pass(layout: Seq<RegistryEntry>)
    requires
        layout.len() <= usize::MAX,
        repair_pass(layout).1.len() == 0,
    ensures
        repair_pass(layout).0 == layout,
{
    let groups = layout_index_groups(layout);
    lemma_layout_groups(layout);
    lemma_no_events_no_shift(layout, groups, groups.len() as int);
    assert(repair_pass(layout).0 =~= layout) by {
        assert forall|i: int| 0 <= i < layout.len() implies moved_layout(
            layout,
            groups,
            groups.len() as int,
        )[i] == layout[i] by {
            let k = group_holding(groups, i as usize);
            lemma_moved_by_nothing(layout[i]);
        }
    }
}

/// Where the groups before `upto` give rise to no notice, none of them moves.
pub proof fn lemma_no_events_no_shift(layout: Seq<RegistryEntry>, groups: Seq<Seq<usize>>, upto: int)
    requires
        upto <= groups.len(),
        forall|k: int| 0 <= k < groups.len() ==> (#[trigger] groups[k]).len() > 0,
        events_upto(layout, groups, upto).len() == 0,
    ensures
        forall|k: int|
            1 <= k < upto ==> #[trigger] group_shift(layout, groups[0], groups[k]) == (0int, 0int),
    decreases upto,
{
    if upto > 1 {
        let last = group_events(
            layout,
            groups[upto - 1],
            group_shift(layout, groups[0], groups[upto - 1]),
        );
        assert(events_upto(layout, groups, upto) == events_upto(layout, groups, upto - 1) + last);
        assert(last.len() == 0);
        assert(groups[upto - 1].len() > 0);
        lemma_no_events_no_shift(layout, groups, upto - 1);
    }
}

} // verus!
