//! Paths and reachability in a directed graph given by its edge function.

use vstd::prelude::*;

verus! {

/// Whether the step of `path` at index `i` follows an edge.
pub open spec fn follows_edge<Id>(edges: spec_fn(Id) -> Seq<Id>, path: Seq<Id>, i: int) -> bool {
    edges(path[i]).contains(path[i + 1])
}

/// A walk along edges: at least one node, each the target of an edge from the one before.
pub open spec fn is_path<Id>(edges: spec_fn(Id) -> Seq<Id>, path: Seq<Id>) -> bool {
    &&& path.len() > 0
    &&& forall|i: int| 0 <= i < path.len() - 1 ==> #[trigger] follows_edge(edges, path, i)
}

/// Whether `path` leads from one of `from` to `id`.
pub open spec fn leads_to<Id>(
    from: Set<Id>,
    edges: spec_fn(Id) -> Seq<Id>,
    path: Seq<Id>,
    id: Id,
) -> bool {
    is_path(edges, path) && from.contains(path[0]) && path.last() == id
}

/// Whether some path leads from one of `from` to `id`.
pub open spec fn reachable<Id>(from: Set<Id>, edges: spec_fn(Id) -> Seq<Id>, id: Id) -> bool {
    exists|path: Seq<Id>| leads_to(from, edges, path, id)
}

/// All that can be reached from `from`.
pub open spec fn reach_set<Id>(from: Set<Id>, edges: spec_fn(Id) -> Seq<Id>) -> Set<Id> {
    Set::new(|id: Id| reachable(from, edges, id))
}

/// Whether no edge leaves `set`.
pub open spec fn closed_under<Id>(set: Set<Id>, edges: spec_fn(Id) -> Seq<Id>) -> bool {
    forall|x: Id, y: Id|
        set.contains(x) && #[trigger] edges(x).contains(y) ==> #[trigger] set.contains(y)
}

/// Every start node is reachable.
pub proof fn start_is_reachable<Id>(from: Set<Id>, edges: spec_fn(Id) -> Seq<Id>, id: Id)
    requires
        from.contains(id),
    ensures
        reachable(from, edges, id),
{
    assert(leads_to(from, edges, seq![id], id));
}

/// The target of an edge from a reachable node is reachable.
pub proof fn edge_extends_reach<Id>(from: Set<Id>, edges: spec_fn(Id) -> Seq<Id>, x: Id, y: Id)
    requires
        reachable(from, edges, x),
        edges(x).contains(y),
    ensures
        reachable(from, edges, y),
{
    let path = choose|path: Seq<Id>| leads_to(from, edges, path, x);
    let longer = path.push(y);
    assert forall|i: int| 0 <= i < longer.len() - 1 implies #[trigger] follows_edge(
        edges,
        longer,
        i,
    ) by {
        if i < path.len() - 1 {
            assert(follows_edge(edges, path, i));
        }
    }
    assert(leads_to(from, edges, longer, y));
}

/// A set that holds every start node and that no edge leaves holds all that is reachable.
pub proof fn closed_set_holds_reach<Id>(
    from: Set<Id>,
    edges: spec_fn(Id) -> Seq<Id>,
    set: Set<Id>,
    id: Id,
)
    requires
        from.subset_of(set),
        closed_under(set, edges),
        reachable(from, edges, id),
    ensures
        set.contains(id),
{
    let path = choose|path: Seq<Id>| leads_to(from, edges, path, id);
    closed_set_holds_path(from, edges, set, path, path.len() - 1);
}

proof fn closed_set_holds_path<Id>(
    from: Set<Id>,
    edges: spec_fn(Id) -> Seq<Id>,
    set: Set<Id>,
    path: Seq<Id>,
    i: int,
)
    requires
        from.subset_of(set),
        closed_under(set, edges),
        is_path(edges, path),
        from.contains(path[0]),
        0 <= i < path.len(),
    ensures
        set.contains(path[i]),
    decreases i,
{
    if i > 0 {
        closed_set_holds_path(from, edges, set, path, i - 1);
        assert(follows_edge(edges, path, i - 1));
    }
}

/// More start nodes reach no less.
pub proof fn reach_is_monotone<Id>(
    from: Set<Id>,
    more: Set<Id>,
    edges: spec_fn(Id) -> Seq<Id>,
    id: Id,
)
    requires
        from.subset_of(more),
        reachable(from, edges, id),
    ensures
        reachable(more, edges, id),
{
    let path = choose|path: Seq<Id>| leads_to(from, edges, path, id);
    assert(leads_to(more, edges, path, id));
}

/// A set of 32-bit ids is finite, so whatever such ids reach is too.
pub proof fn ids_of_32_bits_are_finite(set: Set<u32>)
    ensures
        set.finite(),
{
    let all = vstd::set_lib::set_int_range(0, u32::MAX + 1);
    vstd::set_lib::lemma_int_range(0, u32::MAX + 1);
    let back = |i: int| i as u32;
    all.lemma_map_finite(back);
    assert forall|id: u32| set.contains(id) implies all.map(back).contains(id) by {
        assert(all.contains(id as int));
        assert(back(id as int) == id);
    }
    vstd::set_lib::lemma_set_subset_finite(all.map(back), set);
}

} // verus!
