use super::align::{
    closest_pair, correction, group_fits, group_holding, group_shift, is_closest,
    is_closest_before, lemma_closest_unique, lemma_correction_touches, lemma_move_keeps_apart,
    pair_before, pair_distance, shift_for, within_one,
};
use super::groups::{
    all_indices, component_of, groups_from, index_connects, is_group, layout_connected,
    layout_groups, layout_index_groups, lemma_all_indices, lemma_component_head,
    lemma_filter_members, lemma_groups_split, lemma_index_connects_equivalence,
    lemma_outside_shorter, outside_of,
};
use super::keeper::{apply_event_spec, layout_index};
use super::output_manager::PhysicalOutputEvent;
use super::physical_output::lemma_translation_keeps_distance;
use super::reach::{
    connects, lemma_connects_monotone, lemma_connects_symmetric, lemma_connects_transitive,
    lemma_edge_connects,
};
use super::registry::{
    joined, layout_edge, layout_edges, layout_wf, lemma_layout_edges_symmetric, RegistryEntry,
};
use super::repair::{
    lemma_group_holding, lemma_layout_groups, lemma_moved_by_nothing, lemma_moved_layout_wf,
    repair, repair_pass,
};
use crate::definitions::event::output_event::OutputId;
use vstd::prelude::*;

verus! {

/// The member from which the group `k` was grown.
pub open spec fn first_of(groups: Seq<Seq<usize>>, k: int) -> usize {
    groups[k][0]
}

/// No group reaches into a later one.
pub open spec fn apart(layout: Seq<RegistryEntry>, groups: Seq<Seq<usize>>) -> bool {
    forall|k: int, n: int, m: usize|
        #![trigger groups[n].contains(m), first_of(groups, k)]
        0 <= k < n < groups.len() && groups[n].contains(m) ==> !index_connects(
            layout,
            first_of(groups, k),
            m,
        )
}

/// The repair gives up on the group `other` and leaves it where it is. That
/// happens in two cases, told from the layout as it stands before the repair.
/// In the first, no axis of the nearest pair is to be moved, because both of
/// its offsets are one at most: the pair meets at a corner, or it overlaps
/// and a way out of one unit at most is open. In the second, the move that is
/// computed for the nearest pair would take some member of the group out of
/// the coordinate space.
pub open spec fn gives_up(layout: Seq<RegistryEntry>, main: Seq<usize>, other: Seq<usize>) -> bool {
    let (p, q) = closest_pair(layout, main, other);
    let a = layout[main[p] as int].output;
    let b = layout[other[q] as int].output;
    within_one(a, b) || !group_fits(layout, other, correction(a, b))
}

/// The repair gives up on no group of the layout.
pub open spec fn every_group_moves(layout: Seq<RegistryEntry>) -> bool {
    forall|k: int|
        1 <= k < layout_index_groups(layout).len() ==> !gives_up(
            layout,
            layout_index_groups(layout)[0],
            #[trigger] layout_index_groups(layout)[k],
        )
}

/// When the repair gives up: a group stays where it is exactly in the two
/// cases that `gives_up` names, and in every other case it is moved so that
/// its nearest output touches the nearest output of the first group.
pub proof fn lemma_gives_up(layout: Seq<RegistryEntry>, main: Seq<usize>, other: Seq<usize>)
    requires
        layout_wf(layout),
        main.len() > 0,
        other.len() > 0,
        forall|s: int| 0 <= s < main.len() ==> (#[trigger] main[s]) < layout.len(),
        forall|t: int| 0 <= t < other.len() ==> (#[trigger] other[t]) < layout.len(),
    ensures
        group_shift(layout, main, other) == (0int, 0int) <==> gives_up(layout, main, other),
        !gives_up(layout, main, other) ==> {
            let (p, q) = closest_pair(layout, main, other);
            let shift = group_shift(layout, main, other);
            layout[main[p] as int].output.spec_is_adjacent(
                layout[other[q] as int].output.translated(shift.0, shift.1),
            )
        },
{
    lemma_closest_exists(layout, main, other);
    let (p, q) = closest_pair(layout, main, other);
    let a = layout[main[p] as int].output;
    let b = layout[other[q] as int].output;
    assert(layout[main[p] as int].output.valid());
    assert(layout[other[q] as int].output.valid());
    if !gives_up(layout, main, other) {
        let shift = correction(a, b);
        assert(layout[other[q] as int].output.fits_translated(shift.0, shift.1));
        lemma_correction_touches(a, b);
    }
}

/// The squared distance between a member of `main` and a member of `other`
/// once the group `other` has made its move.
pub open spec fn landed_distance(
    layout: Seq<RegistryEntry>,
    main: Seq<usize>,
    other: Seq<usize>,
    s: int,
    t: int,
) -> int {
    let shift = group_shift(layout, main, other);
    layout[main[s] as int].output.spec_distance_squared(
        layout[other[t] as int].output.translated(shift.0, shift.1),
    )
}

/// What aligning does to a group that is apart from the first: after its
/// move the two groups are at distance exactly one. The nearest pair touches,
/// and no output of the group overlaps an output of the first group.
pub proof fn lemma_group_lands(layout: Seq<RegistryEntry>, main: Seq<usize>, other: Seq<usize>)
    requires
        layout_wf(layout),
        main.len() > 0,
        other.len() > 0,
        forall|s: int| 0 <= s < main.len() ==> (#[trigger] main[s]) < layout.len(),
        forall|t: int| 0 <= t < other.len() ==> (#[trigger] other[t]) < layout.len(),
        !gives_up(layout, main, other),
        pair_distance(
            layout,
            main,
            other,
            closest_pair(layout, main, other).0,
            closest_pair(layout, main, other).1,
        ) > 0,
    ensures
        landed_distance(
            layout,
            main,
            other,
            closest_pair(layout, main, other).0,
            closest_pair(layout, main, other).1,
        ) == 1,
        forall|s: int, t: int|
            0 <= s < main.len() && 0 <= t < other.len() ==> #[trigger] landed_distance(
                layout,
                main,
                other,
                s,
                t,
            ) >= 1,
{
    lemma_closest_exists(layout, main, other);
    lemma_gives_up(layout, main, other);
    let (p, q) = closest_pair(layout, main, other);
    let a = layout[main[p] as int].output;
    let b = layout[other[q] as int].output;
    let shift = group_shift(layout, main, other);
    assert(shift == correction(a, b));
    assert(layout[main[p] as int].output.valid());
    assert(layout[other[q] as int].output.valid());
    assert forall|s: int, t: int|
        0 <= s < main.len() && 0 <= t < other.len() implies #[trigger] landed_distance(
        layout,
        main,
        other,
        s,
        t,
    ) >= 1 by {
        let c = layout[main[s] as int].output;
        let d = layout[other[t] as int].output;
        assert(layout[main[s] as int].output.valid());
        assert(layout[other[t] as int].output.valid());
        assert(pair_distance(layout, main, other, s, t) >= pair_distance(
            layout,
            main,
            other,
            p,
            q,
        ));
        assert(layout[other[t] as int].output.fits_translated(shift.0, shift.1));
        lemma_move_keeps_apart(a, b, c, d);
    }
}

/// The groups of a pool do not reach into one another.
pub proof fn lemma_groups_apart(layout: Seq<RegistryEntry>, pool: Seq<usize>)
    requires
        pool.no_duplicates(),
    ensures
        apart(layout, groups_from(layout, pool)),
    decreases pool.len(),
{
    if pool.len() > 0 {
        let first = pool[0];
        let inside = component_of(layout, pool, first);
        let outside = outside_of(layout, pool, first);
        let later = groups_from(layout, outside);
        let groups = groups_from(layout, pool);
        lemma_outside_shorter(layout, pool);
        lemma_filter_members(pool, |k: usize| !index_connects(layout, first, k));
        lemma_groups_split(layout, outside);
        lemma_groups_apart(layout, outside);
        lemma_component_head(layout, pool);
        assert(groups =~= seq![inside] + later);
        assert forall|k: int, n: int, m: usize|
            #![trigger groups[n].contains(m), first_of(groups, k)]
            0 <= k < n < groups.len() && groups[n].contains(m) implies !index_connects(
            layout,
            first_of(groups, k),
            m,
        ) by {
            assert(groups[n] == later[n - 1]);
            assert(later[n - 1].contains(m));
            if k == 0 {
                assert(is_group(layout, outside, later[n - 1]));
                assert(outside.contains(m));
                assert(first_of(groups, 0) == first);
            } else {
                assert(groups[k] == later[k - 1]);
                assert(first_of(groups, k) == first_of(later, k - 1));
            }
        }
    }
}

/// Two outputs of which one reaches the other lie in the same group.
pub proof fn lemma_same_group(layout: Seq<RegistryEntry>, i: usize, j: usize)
    requires
        layout.len() <= usize::MAX,
        i < layout.len(),
        j < layout.len(),
        index_connects(layout, i, j),
    ensures
        group_holding(layout_index_groups(layout), i) == group_holding(
            layout_index_groups(layout),
            j,
        ),
{
    let pool = all_indices(layout.len());
    let groups = layout_index_groups(layout);
    lemma_layout_groups(layout);
    lemma_all_indices(layout.len());
    lemma_groups_apart(layout, pool);
    let ki = group_holding(groups, i);
    let kj = group_holding(groups, j);
    assert(groups[ki].contains(i));
    assert(groups[kj].contains(j));
    assert(is_group(layout, pool, groups[ki]));
    assert(is_group(layout, pool, groups[kj]));
    let fi = first_of(groups, ki);
    let fj = first_of(groups, kj);
    lemma_index_connects_equivalence(layout, fi, i, j);
    lemma_index_connects_equivalence(layout, i, j, i);
    lemma_index_connects_equivalence(layout, fj, j, i);
    if ki < kj {
        assert(index_connects(layout, first_of(groups, ki), j));
    } else if kj < ki {
        assert(index_connects(layout, first_of(groups, kj), i));
    }
}

/// A layout in which the first output reaches every output has one group.
pub proof fn lemma_single_group(layout: Seq<RegistryEntry>)
    requires
        layout.len() <= usize::MAX,
        layout.len() > 0,
        forall|i: usize| i < layout.len() ==> #[trigger] index_connects(layout, 0, i),
    ensures
        layout_index_groups(layout).len() == 1,
        layout_connected(layout),
{
    let pool = all_indices(layout.len());
    lemma_all_indices(layout.len());
    assert(pool[0] == 0);
    let outside = outside_of(layout, pool, 0);
    lemma_filter_members(pool, |k: usize| !index_connects(layout, 0, k));
    if outside.len() > 0 {
        assert(outside.contains(outside[0]));
        assert(pool.contains(outside[0]));
    }
    assert(groups_from(layout, outside) =~= Seq::<Seq<usize>>::empty());
    assert(layout_index_groups(layout) =~= seq![component_of(layout, pool, 0)]);
}

/// Among the pairs before a given place there is a nearest one.
pub proof fn lemma_closest_before_exists(
    layout: Seq<RegistryEntry>,
    main: Seq<usize>,
    other: Seq<usize>,
    s_end: int,
    t_end: int,
) -> (best: (int, int))
    requires
        main.len() > 0,
        other.len() > 0,
        0 <= s_end <= main.len(),
        0 <= t_end <= other.len(),
        s_end == main.len() ==> t_end == 0,
        s_end > 0 || t_end > 0,
    ensures
        is_closest_before(layout, main, other, best.0, best.1, s_end, t_end),
    decreases s_end, t_end,
{
    if t_end == 0 {
        let best = lemma_closest_before_exists(
            layout,
            main,
            other,
            s_end - 1,
            other.len() as int,
        );
        assert forall|s: int, t: int|
            0 <= s < main.len() && 0 <= t < other.len() && pair_before(
                s,
                t,
                s_end,
                t_end,
            ) implies pair_before(s, t, s_end - 1, other.len() as int) by {}
        best
    } else if s_end == 0 && t_end == 1 {
        (0, 0)
    } else {
        let best = lemma_closest_before_exists(layout, main, other, s_end, t_end - 1);
        let distance = pair_distance(layout, main, other, s_end, t_end - 1);
        let least = pair_distance(layout, main, other, best.0, best.1);
        if distance < least {
            (s_end, t_end - 1)
        } else {
            best
        }
    }
}

/// Between two groups with members there is a nearest pair, and it names a
/// member of each.
pub proof fn lemma_closest_exists(layout: Seq<RegistryEntry>, main: Seq<usize>, other: Seq<usize>)
    requires
        main.len() > 0,
        other.len() > 0,
    ensures
        is_closest(
            layout,
            main,
            other,
            closest_pair(layout, main, other).0,
            closest_pair(layout, main, other).1,
        ),
{
    let best = lemma_closest_before_exists(layout, main, other, main.len() as int, 0);
    lemma_closest_unique(layout, main, other, best.0, best.1);
}

/// Aligning moves the members of a group all by the same amount, and so
/// keeps every edge that the layout had.
pub proof fn lemma_pass_keeps_edges(layout: Seq<RegistryEntry>)
    requires
        layout_wf(layout),
        layout.len() <= usize::MAX,
    ensures
        layout_edges(layout).subset_of(layout_edges(repair_pass(layout).0)),
{
    let groups = layout_index_groups(layout);
    let moved = repair_pass(layout).0;
    lemma_layout_groups(layout);
    lemma_moved_layout_wf(layout, groups.len() as int);
    assert forall|pair: (usize, usize)| layout_edges(layout).contains(pair) implies layout_edges(
        moved,
    ).contains(pair) by {
        let (i, j) = choose|i: int, j: int| #[trigger]
            joined(layout, i, j) && layout[i].id.0 == pair.0 && layout[j].id.0 == pair.1;
        lemma_edge_connects(layout_edges(layout), pair.0, pair.1);
        assert(index_connects(layout, i as usize, j as usize));
        lemma_same_group(layout, i as usize, j as usize);
        let k = group_holding(groups, i as usize);
        let shift = shift_for(layout, groups, groups.len() as int, i as usize);
        assert(shift == shift_for(layout, groups, groups.len() as int, j as usize));
        assert(moved[i].output == layout[i].output.translated(shift.0, shift.1));
        assert(moved[j].output == layout[j].output.translated(shift.0, shift.1));
        if shift == (0int, 0int) {
            lemma_moved_by_nothing(layout[i]);
            lemma_moved_by_nothing(layout[j]);
        } else {
            assert(group_fits(layout, groups[k], shift));
            assert(groups[k].contains(i as usize));
            assert(groups[k].contains(j as usize));
            let ti = choose|t: int| 0 <= t < groups[k].len() && groups[k][t] == i as usize;
            let tj = choose|t: int| 0 <= t < groups[k].len() && groups[k][t] == j as usize;
            assert(layout[groups[k][ti] as int].output.fits_translated(shift.0, shift.1));
            assert(layout[groups[k][tj] as int].output.fits_translated(shift.0, shift.1));
            lemma_translation_keeps_distance(
                layout[i].output,
                layout[j].output,
                shift.0,
                shift.1,
            );
        }
        assert(joined(moved, i, j));
        assert(moved[i].id == layout[i].id);
        assert(moved[j].id == layout[j].id);
        assert(layout_edge(moved, pair.0, pair.1));
    }
}

/// Self-healing, for one pass: where the repair gives up on no group, the
/// layout is in one piece after the pass.
pub proof fn lemma_repair_pass_heals(layout: Seq<RegistryEntry>)
    requires
        layout_wf(layout),
        layout.len() <= usize::MAX,
        every_group_moves(layout),
    ensures
        layout_connected(repair_pass(layout).0),
{
    let groups = layout_index_groups(layout);
    let moved = repair_pass(layout).0;
    let pool = all_indices(layout.len());
    lemma_layout_groups(layout);
    lemma_all_indices(layout.len());
    lemma_groups_split(layout, pool);
    lemma_moved_layout_wf(layout, groups.len() as int);
    if layout.len() == 0 {
        assert(layout_index_groups(moved) =~= Seq::<Seq<usize>>::empty());
    } else {
        let edges = layout_edges(layout);
        let after = layout_edges(moved);
        lemma_pass_keeps_edges(layout);
        lemma_layout_edges_symmetric(layout);
        lemma_component_head(layout, pool);
        assert(pool[0] == 0);
        assert(first_of(groups, 0) == 0);
        assert forall|i: usize| i < moved.len() implies #[trigger] index_connects(moved, 0, i) by {
            let k = group_holding(groups, i);
            assert(groups[k].contains(i));
            assert(is_group(layout, pool, groups[k]));
            assert(moved[0].id == layout[0].id);
            assert(moved[i as int].id == layout[i as int].id);
            let root = layout[0].id.0;
            let target = layout[i as int].id.0;
            if k == 0 {
                lemma_connects_monotone(edges, after, root, target);
            } else {
                let main = groups[0];
                let other = groups[k];
                assert(is_group(layout, pool, main));
                lemma_closest_exists(layout, main, other);
                let (p, q) = closest_pair(layout, main, other);
                let a = main[p];
                let b = other[q];
                assert(main.contains(a));
                assert(other.contains(b));
                lemma_group_holding(layout, pool, groups, 0, a);
                lemma_group_holding(layout, pool, groups, k, b);
                assert(!gives_up(layout, main, other));
                lemma_gives_up(layout, main, other);
                let shift = correction(layout[a as int].output, layout[b as int].output);
                assert(group_shift(layout, main, other) == shift);
                lemma_moved_by_nothing(layout[a as int]);
                assert(moved[a as int] == layout[a as int]);
                assert(moved[b as int].output == layout[b as int].output.translated(
                    shift.0,
                    shift.1,
                ));
                assert(joined(moved, a as int, b as int));
                assert(moved[a as int].id == layout[a as int].id);
                assert(moved[b as int].id == layout[b as int].id);
                let near = layout[a as int].id.0;
                let far = layout[b as int].id.0;
                assert(layout_edge(moved, near, far));
                lemma_edge_connects(after, near, far);
                let head = layout[first_of(groups, k) as int].id.0;
                assert(connects(edges, root, near));
                assert(connects(edges, head, far));
                assert(connects(edges, head, target));
                lemma_connects_symmetric(edges, head, far);
                lemma_connects_transitive(edges, far, head, target);
                lemma_connects_monotone(edges, after, root, near);
                lemma_connects_monotone(edges, after, far, target);
                lemma_connects_transitive(after, root, near, far);
                lemma_connects_transitive(after, root, far, target);
            }
        }
        lemma_single_group(moved);
    }
}

/// A layout in one piece is left alone by the repair.
pub proof fn lemma_repair_of_connected(layout: Seq<RegistryEntry>, budget: nat)
    requires
        layout_connected(layout),
    ensures
        repair(layout, budget) == (layout, Seq::<PhysicalOutputEvent>::empty()),
{
    let groups = layout_index_groups(layout);
    assert(groups.len() <= 1);
    assert(repair_pass(layout).1 =~= Seq::<PhysicalOutputEvent>::empty());
}

/// Self-healing: where the repair gives up on no group, it leaves the layout
/// in one piece.
pub proof fn lemma_repair_heals(layout: Seq<RegistryEntry>, budget: nat)
    requires
        layout_wf(layout),
        layout.len() <= usize::MAX,
        every_group_moves(layout),
        budget > 0,
    ensures
        layout_connected(repair(layout, budget).0),
{
    let pass = repair_pass(layout);
    lemma_repair_pass_heals(layout);
    if pass.1.len() == 0 {
        super::repair::lemma_idle_pass(layout);
    } else {
        lemma_repair_of_connected(pass.0, (budget - 1) as nat);
    }
}

/// Self-healing, for the keeper: after a move or a removal that is carried
/// out, the layout is in one piece. Left out are the layouts in which, as the
/// change leaves them and before anything is repaired, the repair gives up on
/// a group: the nearest pair meets at a corner or overlaps with a way out of
/// one unit at most, or the move would take a member of the group out of the
/// coordinate space.
pub proof fn lemma_change_heals(layout: Seq<RegistryEntry>, event: PhysicalOutputEvent)
    requires
        layout_wf(layout),
        layout.len() <= usize::MAX,
        !(event is Added),
        apply_event_spec(layout, event) is Ok,
        every_group_moves(changed_layout(layout, event)),
    ensures
        layout_connected(apply_event_spec(layout, event)->Ok_0.0),
{
    let changed = changed_layout(layout, event);
    match event {
        PhysicalOutputEvent::Moved { id, position } => {
            let index = layout_index(layout, id);
            assert forall|i: int, j: int| 0 <= i < j < changed.len() implies #[trigger] changed[i].id
                != #[trigger] changed[j].id by {
                assert(layout[i].id != layout[j].id);
            }
            assert forall|i: int| 0 <= i < changed.len() implies #[trigger] changed[i].output.valid() by {
                if i != index {
                    assert(layout[i].output.valid());
                }
            }
        },
        PhysicalOutputEvent::Removed { id } => {
            super::adjacency::lemma_remove_layout(layout, layout_index(layout, id));
        },
        PhysicalOutputEvent::Added { .. } => {},
    }
    if changed.len() > 0 {
        lemma_repair_heals(changed, changed.len());
    } else {
        assert(layout_index_groups(changed) =~= Seq::<Seq<usize>>::empty());
    }
}

/// The number of passes that the repair makes before it ends.
pub open spec fn repair_passes(layout: Seq<RegistryEntry>, budget: nat) -> nat
    decreases budget,
{
    if budget == 0 || repair_pass(layout).1.len() == 0 {
        0
    } else {
        1 + repair_passes(repair_pass(layout).0, (budget - 1) as nat)
    }
}

/// Where the repair ends before its budget is spent, it ends at a layout that
/// a further pass leaves alone: the layout is in one piece, or the repair
/// gives up on every group but the first.
pub proof fn lemma_repair_settles(layout: Seq<RegistryEntry>, budget: nat)
    requires
        layout_wf(layout),
        layout.len() <= usize::MAX,
        repair_passes(layout, budget) < budget,
    ensures
        layout_wf(repair(layout, budget).0),
        repair_pass(repair(layout, budget).0).1.len() == 0,
        forall|k: int|
            1 <= k < layout_index_groups(repair(layout, budget).0).len() ==> gives_up(
                repair(layout, budget).0,
                layout_index_groups(repair(layout, budget).0)[0],
                #[trigger] layout_index_groups(repair(layout, budget).0)[k],
            ),
    decreases budget,
{
    let pass = repair_pass(layout);
    let groups = layout_index_groups(layout);
    lemma_layout_groups(layout);
    if budget > 0 && pass.1.len() > 0 {
        lemma_moved_layout_wf(layout, groups.len() as int);
        lemma_repair_settles(pass.0, (budget - 1) as nat);
    } else {
        lemma_all_indices(layout.len());
        lemma_groups_split(layout, all_indices(layout.len()));
        assert forall|k: int| 0 <= k < groups.len() implies (#[trigger] groups[k]).len() > 0 by {
            assert(is_group(layout, all_indices(layout.len()), groups[k]));
        }
        super::repair::lemma_no_events_no_shift(layout, groups, groups.len() as int);
        assert forall|k: int| 1 <= k < groups.len() implies gives_up(
            layout,
            groups[0],
            #[trigger] groups[k],
        ) by {
            assert(group_shift(layout, groups[0], groups[k]) == (0int, 0int));
            lemma_gives_up(layout, groups[0], groups[k]);
        }
    }
}

/// Two outputs lie in the same group exactly when one reaches the other.
pub proof fn lemma_groups_are_classes(layout: Seq<RegistryEntry>, i: usize, j: usize)
    requires
        layout.len() <= usize::MAX,
        i < layout.len(),
        j < layout.len(),
    ensures
        group_holding(layout_index_groups(layout), i) == group_holding(
            layout_index_groups(layout),
            j,
        ) <==> index_connects(layout, i, j),
{
    let pool = all_indices(layout.len());
    let groups = layout_index_groups(layout);
    lemma_layout_groups(layout);
    if index_connects(layout, i, j) {
        lemma_same_group(layout, i, j);
    }
    let k = group_holding(groups, i);
    if k == group_holding(groups, j) {
        assert(groups[k].contains(i));
        assert(groups[k].contains(j));
        assert(is_group(layout, pool, groups[k]));
        let first = first_of(groups, k);
        lemma_index_connects_equivalence(layout, first, i, first);
        lemma_index_connects_equivalence(layout, i, first, j);
    }
}

/// The partition that a list of groups stands for: the set of the groups,
/// each taken as the set of its members.
pub open spec fn partition_of(groups: Seq<Seq<OutputId>>) -> Set<Set<OutputId>> {
    groups.map_values(|group: Seq<OutputId>| group.to_set()).to_set()
}

/// Idempotence: two answers of `groups` for one layout are the same list of
/// groups, and so the same partition.
pub proof fn lemma_groups_idempotent(
    layout: Seq<RegistryEntry>,
    first: Seq<Vec<OutputId>>,
    second: Seq<Vec<OutputId>>,
)
    requires
        super::groups::nested_view(first) == layout_groups(layout),
        super::groups::nested_view(second) == layout_groups(layout),
    ensures
        super::groups::nested_view(first) == super::groups::nested_view(second),
        partition_of(super::groups::nested_view(first)) == partition_of(
            super::groups::nested_view(second),
        ),
{
}

/// The layout as a change leaves it, before any repair.
pub open spec fn changed_layout(layout: Seq<RegistryEntry>, event: PhysicalOutputEvent) -> Seq<
    RegistryEntry,
> {
    match event {
        PhysicalOutputEvent::Added { id, output } => layout.push(RegistryEntry { id, output }),
        PhysicalOutputEvent::Moved { id, position } => {
            let index = layout_index(layout, id);
            layout.update(
                index,
                RegistryEntry {
                    id,
                    output: super::physical_output::PhysicalOutput {
                        position,
                        size: layout[index].output.size,
                    },
                },
            )
        },
        PhysicalOutputEvent::Removed { id } => layout.remove(layout_index(layout, id)),
    }
}

} // verus!
