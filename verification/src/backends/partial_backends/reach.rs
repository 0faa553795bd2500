use vstd::prelude::*;

verus! {

/// The walk takes the edge from its `i`-th node to the next one.
pub open spec fn takes_edge(edges: Set<(usize, usize)>, walk: Seq<usize>, i: int) -> bool {
    edges.contains((walk[i], walk[i + 1]))
}

/// A walk: at least one node, and an edge between each node and the next.
pub open spec fn is_walk(edges: Set<(usize, usize)>, walk: Seq<usize>) -> bool {
    &&& walk.len() > 0
    &&& forall|i: int| 0 <= i < walk.len() - 1 ==> #[trigger] takes_edge(edges, walk, i)
}

/// A walk from `a` to `b`.
pub open spec fn walks_between(edges: Set<(usize, usize)>, walk: Seq<usize>, a: usize, b: usize)
    -> bool {
    is_walk(edges, walk) && walk[0] == a && walk.last() == b
}

/// `b` can be reached from `a`: some walk leads from `a` to `b`. Every node
/// reaches itself, whether any edge touches it or not.
pub open spec fn connects(edges: Set<(usize, usize)>, a: usize, b: usize) -> bool {
    exists|walk: Seq<usize>| walks_between(edges, walk, a, b)
}

/// Each edge has its mirror image.
pub open spec fn symmetric(edges: Set<(usize, usize)>) -> bool {
    forall|a: usize, b: usize| edges.contains((a, b)) ==> edges.contains((b, a))
}

/// Every node reaches itself.
pub proof fn lemma_connects_reflexive(edges: Set<(usize, usize)>, a: usize)
    ensures
        connects(edges, a, a),
{
    assert(walks_between(edges, seq![a], a, a));
}

/// An edge joins its two ends.
pub proof fn lemma_edge_connects(edges: Set<(usize, usize)>, a: usize, b: usize)
    requires
        edges.contains((a, b)),
    ensures
        connects(edges, a, b),
{
    let walk = seq![a, b];
    assert(takes_edge(edges, walk, 0));
    assert(walks_between(edges, walk, a, b));
}

/// Two walks that meet make one walk.
pub proof fn lemma_connects_transitive(edges: Set<(usize, usize)>, a: usize, b: usize, c: usize)
    requires
        connects(edges, a, b),
        connects(edges, b, c),
    ensures
        connects(edges, a, c),
{
    let first = choose|walk: Seq<usize>| walks_between(edges, walk, a, b);
    let second = choose|walk: Seq<usize>| walks_between(edges, walk, b, c);
    let walk = first + second.subrange(1, second.len() as int);
    assert forall|i: int| 0 <= i < walk.len() - 1 implies #[trigger] takes_edge(edges, walk, i) by {
        if i < first.len() - 1 {
            assert(takes_edge(edges, first, i));
        } else if i == first.len() - 1 {
            assert(takes_edge(edges, second, 0));
        } else {
            assert(takes_edge(edges, second, i - first.len() + 1));
        }
    }
    assert(walks_between(edges, walk, a, c));
}

/// Where each edge has its mirror image, a walk can be taken backwards.
pub proof fn lemma_connects_symmetric(edges: Set<(usize, usize)>, a: usize, b: usize)
    requires
        symmetric(edges),
        connects(edges, a, b),
    ensures
        connects(edges, b, a),
{
    let walk = choose|walk: Seq<usize>| walks_between(edges, walk, a, b);
    let back = walk.reverse();
    assert forall|i: int| 0 <= i < back.len() - 1 implies #[trigger] takes_edge(edges, back, i) by {
        assert(takes_edge(edges, walk, walk.len() - 2 - i));
    }
    assert(walks_between(edges, back, b, a));
}

/// A walk stays a walk when edges are added.
pub proof fn lemma_connects_monotone(
    edges: Set<(usize, usize)>,
    more: Set<(usize, usize)>,
    a: usize,
    b: usize,
)
    requires
        edges.subset_of(more),
        connects(edges, a, b),
    ensures
        connects(more, a, b),
{
    let walk = choose|walk: Seq<usize>| walks_between(edges, walk, a, b);
    assert forall|i: int| 0 <= i < walk.len() - 1 implies #[trigger] takes_edge(more, walk, i) by {
        assert(takes_edge(edges, walk, i));
    }
    assert(walks_between(more, walk, a, b));
}

} // verus!
