use super::adjacency::{graph_reachable, graph_tracks};
use super::reach::{
    connects, lemma_connects_reflexive, lemma_connects_symmetric, lemma_connects_transitive,
};
use super::registry::{layout_edges, lemma_layout_edges_symmetric, Registry, RegistryEntry};
use crate::definitions::event::output_event::OutputId;
use petgraph::graphmap::GraphMap;
use petgraph::Undirected;
use std::hash::RandomState;
use vstd::prelude::*;

verus! {

/// The entry at index `j` can be reached from the entry at index `i`.
pub open spec fn index_connects(layout: Seq<RegistryEntry>, i: usize, j: usize) -> bool {
    connects(layout_edges(layout), layout[i as int].id.0, layout[j as int].id.0)
}

/// The members of `pool` that `first` reaches, in the order of `pool`.
pub open spec fn component_of(layout: Seq<RegistryEntry>, pool: Seq<usize>, first: usize) -> Seq<
    usize,
> {
    pool.filter(|k: usize| index_connects(layout, first, k))
}

/// The members of `pool` that `first` does not reach, in the order of `pool`.
pub open spec fn outside_of(layout: Seq<RegistryEntry>, pool: Seq<usize>, first: usize) -> Seq<
    usize,
> {
    pool.filter(|k: usize| !index_connects(layout, first, k))
}

/// The groups of `pool`: the first group is what the first member reaches, the
/// next group is what the first member left over reaches, and so on.
pub open spec fn groups_from(layout: Seq<RegistryEntry>, pool: Seq<usize>) -> Seq<Seq<usize>>
    decreases pool.len(),
    via groups_from_decreases
{
    if pool.len() == 0 {
        Seq::empty()
    } else {
        seq![component_of(layout, pool, pool[0])] + groups_from(
            layout,
            outside_of(layout, pool, pool[0]),
        )
    }
}

#[via_fn]
proof fn groups_from_decreases(layout: Seq<RegistryEntry>, pool: Seq<usize>) {
    if pool.len() > 0 {
        lemma_outside_shorter(layout, pool);
    }
}

/// The indices `0, 1, ..` below `len`.
pub open spec fn all_indices(len: nat) -> Seq<usize> {
    Seq::new(len, |i: int| i as usize)
}

/// The groups of a layout, each output named by its index in the layout. The
/// groups come in the order of their first members, the members of a group in
/// the order of registration.
pub open spec fn layout_index_groups(layout: Seq<RegistryEntry>) -> Seq<Seq<usize>> {
    groups_from(layout, all_indices(layout.len()))
}

/// The handles of the entries at the given indices.
pub open spec fn ids_at(layout: Seq<RegistryEntry>, indices: Seq<usize>) -> Seq<OutputId> {
    indices.map_values(|i: usize| layout[i as int].id)
}

/// The groups of a layout: its outputs, split into the sets within which every
/// output reaches every other. The groups come in the order of their first
/// members, the members of a group in the order of registration.
pub open spec fn layout_groups(layout: Seq<RegistryEntry>) -> Seq<Seq<OutputId>> {
    layout_index_groups(layout).map_values(|group: Seq<usize>| ids_at(layout, group))
}

/// The layout does not fall apart: it has one group at most.
pub open spec fn layout_connected(layout: Seq<RegistryEntry>) -> bool {
    layout_groups(layout).len() <= 1
}

/// The views of the inner vectors.
pub open spec fn nested_view<T>(lists: Seq<Vec<T>>) -> Seq<Seq<T>> {
    lists.map_values(|list: Vec<T>| list@)
}

/// The first member of a pool never stays outside of its own component.
pub proof fn lemma_outside_shorter(layout: Seq<RegistryEntry>, pool: Seq<usize>)
    requires
        pool.len() > 0,
    ensures
        outside_of(layout, pool, pool[0]).len() < pool.len(),
{
    let stays = |k: usize| !index_connects(layout, pool[0], k);
    let head = seq![pool[0]];
    let tail = pool.subrange(1, pool.len() as int);
    assert(pool =~= head + tail);
    Seq::filter_distributes_over_add(head, tail, stays);
    lemma_connects_reflexive(layout_edges(layout), layout[pool[0] as int].id.0);
    assert(head.filter(stays).len() == 0) by {
        reveal_with_fuel(Seq::filter, 2);
        assert(head.drop_last() =~= Seq::<usize>::empty());
    }
    tail.lemma_filter_len(stays);
}

/// What a filter keeps: the members that pass it.
pub proof fn lemma_filter_members(pool: Seq<usize>, keep: spec_fn(usize) -> bool)
    ensures
        forall|m: usize| #[trigger] pool.filter(keep).contains(m) <==> pool.contains(m) && keep(m),
        pool.no_duplicates() ==> pool.filter(keep).no_duplicates(),
    decreases pool.len(),
{
    reveal(Seq::filter);
    if pool.len() > 0 {
        let front = pool.drop_last();
        lemma_filter_members(front, keep);
        let kept = front.filter(keep);
        assert forall|m: usize| #[trigger] pool.filter(keep).contains(m) <==> pool.contains(m)
            && keep(m) by {
            if pool.filter(keep).contains(m) {
                let i = choose|i: int| 0 <= i < pool.filter(keep).len() && pool.filter(keep)[i] == m;
                if keep(pool.last()) && i == kept.len() {
                    assert(pool[pool.len() - 1] == m);
                } else {
                    assert(kept[i] == m);
                    assert(kept.contains(m));
                    let j = choose|j: int| 0 <= j < front.len() && front[j] == m;
                    assert(pool[j] == m);
                }
            }
            if pool.contains(m) && keep(m) {
                let j = choose|j: int| 0 <= j < pool.len() && pool[j] == m;
                if j == pool.len() - 1 {
                    assert(pool.filter(keep)[kept.len() as int] == m);
                } else {
                    assert(front[j] == m);
                    assert(front.contains(m));
                    assert(kept.contains(m));
                    let i = choose|i: int| 0 <= i < kept.len() && kept[i] == m;
                    assert(pool.filter(keep)[i] == m);
                }
            }
        }
        if pool.no_duplicates() {
            assert(front.no_duplicates());
            if keep(pool.last()) {
                assert(!front.contains(pool.last())) by {
                    if front.contains(pool.last()) {
                        let j = choose|j: int| 0 <= j < front.len() && front[j] == pool.last();
                        assert(pool[j] == pool[pool.len() - 1]);
                    }
                }
                assert(!kept.contains(pool.last()));
                assert forall|i: int, j: int|
                    0 <= i < j < kept.len() + 1 implies kept.push(pool.last())[i] != kept.push(
                    pool.last(),
                )[j] by {
                    if j == kept.len() {
                        assert(kept[i] == kept.push(pool.last())[i]);
                        assert(kept.contains(kept[i]));
                    }
                }
            }
        }
    }
}

/// The first member of a pool is the first member of its own component.
pub proof fn lemma_component_head(layout: Seq<RegistryEntry>, pool: Seq<usize>)
    requires
        pool.len() > 0,
    ensures
        component_of(layout, pool, pool[0]).len() > 0,
        component_of(layout, pool, pool[0])[0] == pool[0],
{
    let keep = |k: usize| index_connects(layout, pool[0], k);
    let head = seq![pool[0]];
    let tail = pool.subrange(1, pool.len() as int);
    assert(pool =~= head + tail);
    Seq::filter_distributes_over_add(head, tail, keep);
    lemma_connects_reflexive(layout_edges(layout), layout[pool[0] as int].id.0);
    assert(head.filter(keep) =~= head) by {
        reveal_with_fuel(Seq::filter, 2);
        assert(head.drop_last() =~= Seq::<usize>::empty());
    }
}

/// A group of the pool: it is not empty, names no index twice, and holds only
/// members of the pool that its first member reaches.
pub open spec fn is_group(layout: Seq<RegistryEntry>, pool: Seq<usize>, group: Seq<usize>) -> bool {
    &&& group.len() > 0
    &&& group.no_duplicates()
    &&& forall|m: usize| #[trigger]
        group.contains(m) ==> pool.contains(m) && index_connects(layout, group[0], m)
}

/// The groups split the pool: each is a group of the pool, every member of the
/// pool lies in one of them, and none lies in two.
pub open spec fn splits(layout: Seq<RegistryEntry>, pool: Seq<usize>, groups: Seq<Seq<usize>>)
    -> bool {
    &&& forall|k: int| 0 <= k < groups.len() ==> is_group(layout, pool, #[trigger] groups[k])
    &&& forall|m: usize|
        pool.contains(m) ==> exists|k: int| 0 <= k < groups.len() && #[trigger] groups[k].contains(m)
    &&& forall|k: int, n: int, m: usize|
        0 <= k < groups.len() && 0 <= n < groups.len() && #[trigger] groups[k].contains(m)
            && #[trigger] groups[n].contains(m) ==> k == n
}

/// Putting what the first member reaches in front of a split of the rest
/// splits the whole pool.
proof fn lemma_split_step(layout: Seq<RegistryEntry>, pool: Seq<usize>, later: Seq<Seq<usize>>)
    requires
        pool.len() > 0,
        pool.no_duplicates(),
        splits(layout, outside_of(layout, pool, pool[0]), later),
    ensures
        splits(layout, pool, seq![component_of(layout, pool, pool[0])] + later),
{
    let first = pool[0];
    let inside = component_of(layout, pool, first);
    let outside = outside_of(layout, pool, first);
    let groups = seq![inside] + later;
    lemma_component_head(layout, pool);
    lemma_filter_members(pool, |k: usize| index_connects(layout, first, k));
    lemma_filter_members(pool, |k: usize| !index_connects(layout, first, k));
    assert(groups[0] == inside);
    assert(is_group(layout, pool, inside));
    assert forall|k: int| 0 <= k < groups.len() implies is_group(layout, pool, #[trigger] groups[k]) by {
        if k > 0 {
            assert(groups[k] == later[k - 1]);
            assert(is_group(layout, outside, later[k - 1]));
            assert forall|m: usize| #[trigger] groups[k].contains(m) implies pool.contains(m) by {
                assert(outside.contains(m));
            }
        }
    }
    assert forall|m: usize| pool.contains(m) implies exists|k: int|
        0 <= k < groups.len() && #[trigger] groups[k].contains(m) by {
        if index_connects(layout, first, m) {
            assert(inside.contains(m));
            assert(groups[0].contains(m));
        } else {
            assert(outside.contains(m));
            let k = choose|k: int| 0 <= k < later.len() && #[trigger] later[k].contains(m);
            assert(groups[k + 1] == later[k]);
            assert(groups[k + 1].contains(m));
        }
    }
    assert forall|k: int, n: int, m: usize|
        0 <= k < groups.len() && 0 <= n < groups.len() && #[trigger] groups[k].contains(m)
            && #[trigger] groups[n].contains(m) implies k == n by {
        if k > 0 {
            assert(groups[k] == later[k - 1]);
            assert(is_group(layout, outside, later[k - 1]));
            assert(later[k - 1].contains(m));
            assert(outside.contains(m));
        } else {
            assert(inside.contains(m));
        }
        if n > 0 {
            assert(groups[n] == later[n - 1]);
            assert(is_group(layout, outside, later[n - 1]));
            assert(later[n - 1].contains(m));
            assert(outside.contains(m));
        } else {
            assert(inside.contains(m));
        }
        if k > 0 && n > 0 {
            assert(k - 1 == n - 1);
        }
    }
}

/// The groups of a pool that names no index twice split the pool, and the
/// first group is what the first member of the pool reaches.
pub proof fn lemma_groups_split(layout: Seq<RegistryEntry>, pool: Seq<usize>)
    requires
        pool.no_duplicates(),
    ensures
        splits(layout, pool, groups_from(layout, pool)),
        pool.len() > 0 ==> groups_from(layout, pool).len() > 0 && groups_from(layout, pool)[0]
            == component_of(layout, pool, pool[0]),
    decreases pool.len(),
{
    if pool.len() > 0 {
        let outside = outside_of(layout, pool, pool[0]);
        lemma_outside_shorter(layout, pool);
        lemma_filter_members(pool, |k: usize| !index_connects(layout, pool[0], k));
        lemma_groups_split(layout, outside);
        lemma_split_step(layout, pool, groups_from(layout, outside));
    }
}

/// The indices below `len` name every entry once.
pub proof fn lemma_all_indices(len: nat)
    requires
        len <= usize::MAX,
    ensures
        all_indices(len).no_duplicates(),
        forall|m: usize| all_indices(len).contains(m) <==> m < len,
{
    assert forall|m: usize| m < len implies all_indices(len).contains(m) by {
        assert(all_indices(len)[m as int] == m);
    }
}

/// Tells whether the list holds the value.
pub(crate) fn list_contains(list: &Vec<usize>, value: usize) -> (found: bool)
    ensures
        found == list@.contains(value),
{
    let mut index: usize = 0;
    while index < list.len()
        invariant
            index <= list.len(),
            forall|k: int| 0 <= k < index ==> list@[k] != value,
        decreases list.len() - index,
    {
        if list[index] == value {
            return true;
        }
        index += 1;
    }
    false
}

/// Splits the layout into its groups, each output named by its index.
pub(crate) fn index_groups(
    graph: &GraphMap<usize, (), Undirected, RandomState>,
    registry: &Registry,
) -> (groups: Vec<Vec<usize>>)
    requires
        graph_tracks(*graph, registry@),
    ensures
        nested_view(groups@) == layout_index_groups(registry@),
{
    let ghost layout = registry@;
    let mut groups: Vec<Vec<usize>> = Vec::new();
    let mut pool: Vec<usize> = Vec::new();
    let mut index: usize = 0;
    while index < registry.len()
        invariant
            index <= registry@.len(),
            pool@ == all_indices(index as nat),
        decreases registry@.len() - index,
    {
        pool.push(index);
        index += 1;
        assert(pool@ =~= all_indices(index as nat));
    }
    while pool.len() > 0
        invariant
            layout == registry@,
            graph_tracks(*graph, layout),
            forall|k: int| 0 <= k < pool@.len() ==> pool@[k] < layout.len(),
            nested_view(groups@) + groups_from(layout, pool@) == layout_index_groups(layout),
        decreases pool@.len(),
    {
        let first = pool[0];
        let found = graph_reachable(graph, registry.entry(first).id.0);
        let ghost inside = |k: usize| index_connects(layout, first, k);
        let ghost outside = |k: usize| !index_connects(layout, first, k);
        let mut group: Vec<usize> = Vec::new();
        let mut rest: Vec<usize> = Vec::new();
        let mut at: usize = 0;
        while at < pool.len()
            invariant
                layout == registry@,
                at <= pool@.len(),
                first < layout.len(),
                forall|k: int| 0 <= k < pool@.len() ==> pool@[k] < layout.len(),
                forall|k: int| 0 <= k < rest@.len() ==> rest@[k] < layout.len(),
                inside == |k: usize| index_connects(layout, first, k),
                outside == |k: usize| !index_connects(layout, first, k),
                forall|node: usize|
                    found@.contains(node) <==> connects(
                        layout_edges(layout),
                        layout[first as int].id.0,
                        node,
                    ),
                group@ == pool@.take(at as int).filter(inside),
                rest@ == pool@.take(at as int).filter(outside),
            decreases pool@.len() - at,
        {
            let member = pool[at];
            let reached = list_contains(&found, registry.entry(member).id.0);
            proof {
                reveal(Seq::filter);
                assert(pool@.take(at + 1).drop_last() =~= pool@.take(at as int));
                assert(pool@.take(at + 1).last() == member);
                assert(reached == inside(member));
                assert(!reached == outside(member));
            }
            if reached {
                group.push(member);
            } else {
                rest.push(member);
                proof {
                    pool@.take(at + 1).lemma_filter_pred(outside, rest@.len() - 1);
                }
            }
            at += 1;
        }
        proof {
            assert(pool@.take(at as int) =~= pool@);
            assert(group@ == component_of(layout, pool@, first));
            assert(rest@ == outside_of(layout, pool@, first));
            lemma_outside_shorter(layout, pool@);
            assert(nested_view(groups@.push(group)) =~= nested_view(groups@) + seq![group@]);
            assert(nested_view(groups@.push(group)) + groups_from(layout, rest@) =~= nested_view(
                groups@,
            ) + groups_from(layout, pool@));
        }
        groups.push(group);
        pool = rest;
    }
    assert(nested_view(groups@) + groups_from(layout, pool@) =~= nested_view(groups@));
    groups
}

/// Reaching is an equivalence among the outputs of a layout: it is mutual, and
/// it carries on from one output to the next.
pub proof fn lemma_index_connects_equivalence(
    layout: Seq<RegistryEntry>,
    i: usize,
    j: usize,
    k: usize,
)
    ensures
        index_connects(layout, i, i),
        index_connects(layout, i, j) ==> index_connects(layout, j, i),
        index_connects(layout, i, j) && index_connects(layout, j, k) ==> index_connects(
            layout,
            i,
            k,
        ),
{
    let edges = layout_edges(layout);
    lemma_layout_edges_symmetric(layout);
    lemma_connects_reflexive(edges, layout[i as int].id.0);
    if index_connects(layout, i, j) {
        lemma_connects_symmetric(edges, layout[i as int].id.0, layout[j as int].id.0);
        if index_connects(layout, j, k) {
            lemma_connects_transitive(
                edges,
                layout[i as int].id.0,
                layout[j as int].id.0,
                layout[k as int].id.0,
            );
        }
    }
}

} // verus!
