//! Tri-color abstract marker (Dijkstra et al., 1978).
//!
//! The garbage-collection literature is built on three colors:
//!
//! - **White**: unreached so far. Provisionally garbage.
//! - **Grey**: reached, but its outgoing references not yet scanned.
//! - **Black**: reached and fully scanned.
//!
//! Mark phase invariant (the *tri-color invariant*): no black object holds
//! a reference to a white object. When the grey set is empty, every
//! still-white object is unreachable from the roots and may be reclaimed.
//!
//! This module is generic over any [`ObjectGraph`] and stops the world.

#[allow(unused_imports)]
use crate::reach::{closed_set_holds_reach, edge_extends_reach, reach_set, start_is_reachable};
use std::collections::{HashMap, HashSet, VecDeque};
use std::hash::Hash;
use vstd::prelude::*;
#[allow(unused_imports)]
use vstd::std_specs::hash::obeys_key_model;

verus! {

#[derive(Copy, Clone, Debug, PartialEq, Eq, Structural)]
pub enum Color {
    White,
    Grey,
    Black,
}

/// An abstract object graph. The marker uses only [`roots`] (entry points)
/// and [`refs_of`] (outgoing edges per node) - no notion of allocation,
/// type, or layout leaks in.
///
/// An implementation answers the same question the same way each time it is
/// asked: the graph stands still while it is marked.
///
/// [`roots`]: ObjectGraph::roots
/// [`refs_of`]: ObjectGraph::refs_of
pub trait ObjectGraph {
    type Id: Copy + Eq + Hash;

    /// The entry points.
    open spec fn root_ids(&self) -> Seq<Self::Id> {
        Seq::empty()
    }

    /// The targets of the references that `id` holds.
    open spec fn targets(&self, id: Self::Id) -> Seq<Self::Id> {
        Seq::empty()
    }

    /// The objects of the graph.
    open spec fn object_ids(&self) -> Seq<Self::Id> {
        Seq::empty()
    }

    fn roots(&self) -> (ids: Vec<Self::Id>)
        ensures
            ids@ == self.root_ids(),
    ;

    fn refs_of(&self, id: Self::Id) -> (ids: Vec<Self::Id>)
        ensures
            ids@ == self.targets(id),
    ;

    fn all_ids(&self) -> (ids: Vec<Self::Id>)
        ensures
            ids@ == self.object_ids(),
    ;
}

/// The edge function of a graph.
pub open spec fn edges_of<G: ObjectGraph>(graph: &G) -> spec_fn(G::Id) -> Seq<G::Id> {
    |id: G::Id| graph.targets(id)
}

/// The objects that the roots of a graph reach.
pub open spec fn live_set<G: ObjectGraph>(graph: &G) -> Set<G::Id> {
    reach_set(graph.root_ids().to_set(), edges_of(graph))
}

/// The coloring that a finished mark phase leaves: every reachable object is black, every
/// other object of the graph is white, and nothing else is colored.
pub open spec fn is_final_coloring<G: ObjectGraph>(
    graph: &G,
    coloring: Map<G::Id, Color>,
) -> bool {
    &&& coloring.dom() == graph.object_ids().to_set().union(live_set(graph))
    &&& forall|id: G::Id|
        #![trigger coloring.dom().contains(id)]
        #![trigger coloring[id]]
        coloring.dom().contains(id) ==> coloring[id] == (if live_set(graph).contains(id) {
            Color::Black
        } else {
            Color::White
        })
}

/// The tri-color invariant: whatever a black object refers to has a color, and it is not
/// white.
pub open spec fn tri_color_invariant<Id>(
    edges: spec_fn(Id) -> Seq<Id>,
    coloring: Map<Id, Color>,
) -> bool {
    forall|x: Id, y: Id|
        #![trigger edges(x).contains(y), coloring.dom().contains(x)]
        coloring.dom().contains(x) && coloring[x] == Color::Black && edges(x).contains(y)
            ==> coloring.dom().contains(y) && coloring[y] != Color::White
}

/// The state in the middle of a mark phase. Grey is what waits in the queue, and the one
/// object in `busy` that is being scanned; black is what was seen and is no longer grey;
/// white was never seen.
spec fn phase_agrees<Id>(
    coloring: Map<Id, Color>,
    objects: Set<Id>,
    seen: Set<Id>,
    grey: Seq<Id>,
    busy: Option<Id>,
) -> bool {
    &&& coloring.dom() == objects.union(seen)
    &&& forall|id: Id| #[trigger]
        coloring.dom().contains(id) ==> coloring[id] == (if !seen.contains(id) {
            Color::White
        } else if grey.contains(id) || busy == Some(id) {
            Color::Grey
        } else {
            Color::Black
        })
    &&& grey.no_duplicates()
    &&& forall|i: int| 0 <= i < grey.len() ==> seen.contains(#[trigger] grey[i])
    &&& busy matches Some(id) ==> seen.contains(id) && !grey.contains(id)
}

/// Whether everything that the black objects refer to has been seen.
spec fn black_is_scanned<Id>(
    edges: spec_fn(Id) -> Seq<Id>,
    seen: Set<Id>,
    grey: Seq<Id>,
    busy: Option<Id>,
) -> bool {
    forall|x: Id, y: Id|
        seen.contains(x) && !grey.contains(x) && busy != Some(x) && #[trigger] edges(x).contains(y)
            ==> #[trigger] seen.contains(y)
}

/// Whether `order` lists the black objects, each once.
spec fn order_agrees<Id>(order: Seq<Id>, seen: Set<Id>, grey: Seq<Id>, busy: Option<Id>) -> bool {
    &&& order.no_duplicates()
    &&& forall|x: Id| #[trigger]
        order.contains(x) <==> seen.contains(x) && !grey.contains(x) && busy != Some(x)
}

/// An object that is seen for the first time is grey.
proof fn queued_is_not_scanned<Id>(
    order: Seq<Id>,
    seen: Set<Id>,
    grey: Seq<Id>,
    busy: Option<Id>,
    id: Id,
)
    requires
        order_agrees(order, seen, grey, busy),
        !seen.contains(id),
        busy != Some(id),
    ensures
        order_agrees(order, seen.insert(id), grey.push(id), busy),
{
    let longer = grey.push(id);
    assert forall|x: Id| #[trigger] longer.contains(x) <==> grey.contains(x) || x == id by {
        if grey.contains(x) {
            assert(longer[grey.index_of(x)] == x);
        }
        assert(longer.last() == id);
    }
}

/// An object that is scanned turns black.
proof fn order_goes_on<Id>(order: Seq<Id>, seen: Set<Id>, grey: Seq<Id>, id: Id)
    requires
        order_agrees(order, seen, grey, Some(id)),
        seen.contains(id),
        !grey.contains(id),
    ensures
        order_agrees(order.push(id), seen, grey, None),
{
    let longer = order.push(id);
    assert(!order.contains(id));
    assert forall|x: Id| #[trigger] longer.contains(x) <==> order.contains(x) || x == id by {
        if order.contains(x) {
            assert(longer[order.index_of(x)] == x);
        }
        assert(longer.last() == id);
    }
}

/// A mark phase that has scanned its black objects keeps the tri-color invariant.
proof fn scanned_keeps_invariant<Id>(
    edges: spec_fn(Id) -> Seq<Id>,
    coloring: Map<Id, Color>,
    objects: Set<Id>,
    seen: Set<Id>,
    grey: Seq<Id>,
    busy: Option<Id>,
)
    requires
        phase_agrees(coloring, objects, seen, grey, busy),
        black_is_scanned(edges, seen, grey, busy),
    ensures
        tri_color_invariant(edges, coloring),
{
    assert forall|x: Id, y: Id|
        #![trigger edges(x).contains(y), coloring.dom().contains(x)]
        coloring.dom().contains(x) && coloring[x] == Color::Black && edges(x).contains(
            y,
        ) implies coloring.dom().contains(y) && coloring[y] != Color::White by {
        assert(seen.contains(y));
        assert(coloring.dom().contains(y));
    }
}

/// Colors `id` grey and queues it, unless it was seen before.
fn shade<Id: Copy + Eq + Hash>(
    coloring: &mut HashMap<Id, Color>,
    grey: &mut VecDeque<Id>,
    seen: &mut HashSet<Id>,
    id: Id,
    Ghost(objects): Ghost<Set<Id>>,
    Ghost(busy): Ghost<Option<Id>>,
)
    requires
        obeys_key_model::<Id>(),
        phase_agrees(old(coloring)@, objects, old(seen)@, old(grey)@, busy),
    ensures
        phase_agrees(final(coloring)@, objects, final(seen)@, final(grey)@, busy),
        final(seen)@ == old(seen)@.insert(id),
        final(grey)@ == (if old(seen)@.contains(id) {
            old(grey)@
        } else {
            old(grey)@.push(id)
        }),
{
    if seen.insert(id) {
        coloring.insert(id, Color::Grey);
        grey.push_back(id);
        proof {
            assert forall|x: Id| grey@.contains(x) <==> old(grey)@.contains(x) || x == id by {
                if old(grey)@.contains(x) {
                    assert(grey@[old(grey)@.index_of(x)] == x);
                }
                assert(grey@[old(grey)@.len() as int] == id);
            }
            assert(coloring@.dom() =~= objects.union(seen@));
        }
    } else {
        assert(seen@ =~= old(seen)@);
    }
}

/// Whether `order` lists the reachable objects of a graph, each once.
pub open spec fn is_scan_order<G: ObjectGraph>(graph: &G, order: Seq<G::Id>) -> bool {
    order.no_duplicates() && order.to_set() == live_set(graph)
}

/// How many references the objects in `order` hold.
pub open spec fn reference_count<Id>(edges: spec_fn(Id) -> Seq<Id>, order: Seq<Id>) -> nat
    decreases order.len(),
{
    if order.len() == 0 {
        0
    } else {
        reference_count(edges, order.drop_last()) + edges(order.last()).len()
    }
}

/// Stop-the-world tri-color marking. Returns a coloring map where every
/// reachable object is `Black` and every unreachable object is `White`.
///
/// Termination: the grey set strictly shrinks each iteration that does not
/// discover a new node, and grows only by nodes never seen before - so the
/// algorithm terminates after at most `|V| + |E|` operations on a finite
/// graph.
pub fn mark<G: ObjectGraph>(graph: &G) -> (coloring: HashMap<G::Id, Color>)
    requires
        obeys_key_model::<G::Id>(),
        live_set(graph).finite(),
    ensures
        is_final_coloring(graph, coloring@),
{
    mark_in_order(graph).0
}

/// [`mark`], with the order in which the objects were taken off the grey queue, and their
/// references looked at, one after the other.
pub fn mark_in_order<G: ObjectGraph>(graph: &G) -> (marked: (
    HashMap<G::Id, Color>,
    Ghost<Seq<G::Id>>,
))
    requires
        obeys_key_model::<G::Id>(),
        live_set(graph).finite(),
    ensures
        is_final_coloring(graph, marked.0@),
        is_scan_order(graph, marked.1@),
{
    let ghost objects = graph.object_ids().to_set();
    let ghost start = graph.root_ids().to_set();
    let ghost edges = edges_of(graph);
    let ghost live = live_set(graph);

    let mut color: HashMap<G::Id, Color> = HashMap::new();
    let mut grey: VecDeque<G::Id> = VecDeque::new();
    let mut seen: HashSet<G::Id> = HashSet::new();
    let ghost mut order: Seq<G::Id> = Seq::empty();

    let ids = graph.all_ids();
    let mut i: usize = 0;
    assert(color@.dom() =~= ids@.take(0).to_set().union(seen@));
    while i < ids.len()
        invariant
            obeys_key_model::<G::Id>(),
            i <= ids@.len(),
            seen@ == Set::<G::Id>::empty(),
            grey@ == Seq::<G::Id>::empty(),
            phase_agrees(color@, ids@.take(i as int).to_set(), seen@, grey@, None),
        decreases ids@.len() - i,
    {
        color.insert(ids[i], Color::White);
        i = i + 1;
        proof {
            let before = ids@.take(i - 1);
            assert(ids@.take(i as int) =~= before.push(ids@[i - 1]));
            before.lemma_push_to_set_commute(ids@[i - 1]);
            assert(color@.dom() =~= before.push(ids@[i - 1]).to_set().union(seen@));
        }
    }
    assert(ids@.take(i as int) =~= ids@);

    let roots = graph.roots();
    let mut i: usize = 0;
    while i < roots.len()
        invariant
            obeys_key_model::<G::Id>(),
            roots@ == graph.root_ids(),
            start == roots@.to_set(),
            live == reach_set(start, edges),
            i <= roots@.len(),
            phase_agrees(color@, objects, seen@, grey@, None),
            seen@.subset_of(live),
            forall|id: G::Id| seen@.contains(id) ==> grey@.contains(id),
            forall|k: int| 0 <= k < i ==> seen@.contains(#[trigger] roots@[k]),
        decreases roots@.len() - i,
    {
        let r = roots[i];
        proof {
            assert(start.contains(r));
            start_is_reachable(start, edges, r);
        }
        let ghost grey0 = grey@;
        shade(&mut color, &mut grey, &mut seen, r, Ghost(objects), Ghost(None));
        i = i + 1;
        proof {
            assert forall|id: G::Id| seen@.contains(id) implies grey@.contains(id) by {
                if grey0.contains(id) {
                    assert(grey@[grey0.index_of(id)] == id);
                } else {
                    assert(grey@.last() == id);
                }
            }
        }
    }
    proof {
        assert forall|id: G::Id| start.contains(id) implies seen@.contains(id) by {
            assert(roots@[roots@.index_of(id)] == id);
        }
    }

    loop
        invariant
            obeys_key_model::<G::Id>(),
            objects == graph.object_ids().to_set(),
            edges == edges_of(graph),
            live == live_set(graph),
            live == reach_set(start, edges),
            live.finite(),
            phase_agrees(color@, objects, seen@, grey@, None),
            start.subset_of(seen@),
            seen@.subset_of(live),
            black_is_scanned(edges, seen@, grey@, None),
            tri_color_invariant(edges, color@),
            order_agrees(order, seen@, grey@, None),
        decreases live.difference(seen@).len(), grey@.len(),
    {
        let ghost seen0 = seen@;
        let ghost grey0 = grey@;
        let id = match grey.pop_front() {
            Some(id) => id,
            None => {
                proof {
                    assert forall|x: G::Id| live.contains(x) implies seen@.contains(x) by {
                        closed_set_holds_reach(start, edges, seen@, x);
                    }
                    assert(seen@ =~= live);
                    assert(order.to_set() =~= live);
                }
                return (color, Ghost(order));
            },
        };
        proof {
            assert(grey0 =~= seq![id] + grey@);
            assert forall|x: G::Id| grey0.contains(x) <==> grey@.contains(x) || x == id by {
                if grey@.contains(x) {
                    assert(grey0[grey@.index_of(x) + 1] == x);
                }
                if grey0.contains(x) && x != id {
                    assert(grey@[grey0.index_of(x) - 1] == x);
                }
                assert(grey0[0] == id);
            }
            assert(phase_agrees(color@, objects, seen@, grey@, Some(id)));
            assert(order_agrees(order, seen@, grey@, Some(id)));
        }
        let children = graph.refs_of(id);
        let mut j: usize = 0;
        while j < children.len()
            invariant
                obeys_key_model::<G::Id>(),
                edges == edges_of(graph),
                live == reach_set(start, edges),
                live.contains(id),
                children@ == edges(id),
                j <= children@.len(),
                phase_agrees(color@, objects, seen@, grey@, Some(id)),
                start.subset_of(seen@),
                seen@.subset_of(live),
                seen0.subset_of(seen@),
                black_is_scanned(edges, seen@, grey@, Some(id)),
                tri_color_invariant(edges, color@),
                order_agrees(order, seen@, grey@, Some(id)),
                forall|k: int| 0 <= k < j ==> seen@.contains(#[trigger] children@[k]),
                seen@ != seen0 || grey@.len() < grey0.len(),
            decreases children@.len() - j,
        {
            let child = children[j];
            proof {
                assert(edges(id).contains(child));
                edge_extends_reach(start, edges, id, child);
            }
            let ghost grey1 = grey@;
            let ghost seen1 = seen@;
            shade(&mut color, &mut grey, &mut seen, child, Ghost(objects), Ghost(Some(id)));
            j = j + 1;
            proof {
                if seen1.contains(child) {
                    assert(seen@ =~= seen1);
                } else {
                    assert(order_agrees(order, seen@, grey@, Some(id))) by {
                        queued_is_not_scanned(order, seen1, grey1, Some(id), child);
                        assert(seen@ =~= seen1.insert(child));
                    }
                    assert(seen@.contains(child) && !seen0.contains(child));
                    assert forall|x: G::Id, y: G::Id|
                        seen@.contains(x) && !grey@.contains(x) && Some(id) != Some(x)
                            && #[trigger] edges(x).contains(y) implies #[trigger] seen@.contains(
                        y,
                    ) by {
                        assert(grey@.last() == child);
                        if grey1.contains(x) {
                            assert(grey@[grey1.index_of(x)] == x);
                        }
                        assert(seen1.contains(y));
                    }
                }
                scanned_keeps_invariant(edges, color@, objects, seen@, grey@, Some(id));
            }
        }
        color.insert(id, Color::Black);
        proof {
            order_goes_on(order, seen@, grey@, id);
            order = order.push(id);
            assert(color@.dom() =~= objects.union(seen@));
            assert forall|y: G::Id| edges(id).contains(y) implies seen@.contains(y) by {
                assert(children@[children@.index_of(y)] == y);
            }
            scanned_keeps_invariant(edges, color@, objects, seen@, grey@, None);
            let todo0 = live.difference(seen0);
            let todo = live.difference(seen@);
            vstd::set_lib::lemma_len_subset(todo, todo0);
            if seen@ != seen0 {
                assert(exists|x: G::Id| seen@.contains(x) && !seen0.contains(x)) by {
                    if forall|x: G::Id| seen@.contains(x) ==> seen0.contains(x) {
                        assert(seen@ =~= seen0);
                    }
                }
                let x = choose|x: G::Id| seen@.contains(x) && !seen0.contains(x);
                todo.lemma_subset_not_in_lt(todo0, x);
            }
        }
    }
}

/// The work of a mark phase, one operation for each object taken off the queue and one for each
/// reference looked at, is at most the number of objects of the graph and of the references that
/// they hold. `objects` lists the objects of the graph, each once.
pub proof fn marking_work_is_bounded<G: ObjectGraph>(
    graph: &G,
    order: Seq<G::Id>,
    objects: Seq<G::Id>,
)
    requires
        is_scan_order(graph, order),
        objects.no_duplicates(),
        forall|id: G::Id| #[trigger] live_set(graph).contains(id) ==> objects.contains(id),
    ensures
        order.len() + reference_count(edges_of(graph), order) <= objects.len() + reference_count(
            edges_of(graph),
            objects,
        ),
{
    assert forall|id: G::Id| order.contains(id) implies objects.contains(id) by {
        assert(order.to_set().contains(id));
    }
    fewer_objects_hold_fewer_references(edges_of(graph), order, objects);
}

proof fn fewer_objects_hold_fewer_references<Id>(
    edges: spec_fn(Id) -> Seq<Id>,
    few: Seq<Id>,
    many: Seq<Id>,
)
    requires
        few.no_duplicates(),
        many.no_duplicates(),
        forall|id: Id| few.contains(id) ==> many.contains(id),
    ensures
        few.len() <= many.len(),
        reference_count(edges, few) <= reference_count(edges, many),
    decreases few.len(),
{
    if few.len() > 0 {
        let id = few.last();
        let rest = few.drop_last();
        assert(few.contains(id));
        let i = many.index_of(id);
        let others = many.remove(i);
        assert forall|x: Id| rest.contains(x) implies others.contains(x) by {
            assert(few[rest.index_of(x)] == x);
            assert(few.contains(x));
            assert(x != id);
            let k = many.index_of(x);
            assert(others[if k < i {
                k
            } else {
                k - 1
            }] == x);
        }
        assert(others.no_duplicates()) by {
            assert forall|a: int, b: int|
                0 <= a < others.len() && 0 <= b < others.len() && a != b implies others[a]
                != others[b] by {
                let j = if a < i {
                    a
                } else {
                    a + 1
                };
                let k = if b < i {
                    b
                } else {
                    b + 1
                };
                assert(many[j] != many[k]);
            }
        }
        fewer_objects_hold_fewer_references(edges, rest, others);
        removing_takes_references(edges, many, i);
    }
}

proof fn removing_takes_references<Id>(edges: spec_fn(Id) -> Seq<Id>, objects: Seq<Id>, i: int)
    requires
        0 <= i < objects.len(),
    ensures
        reference_count(edges, objects) == reference_count(edges, objects.remove(i)) + edges(
            objects[i],
        ).len(),
    decreases objects.len(),
{
    let rest = objects.remove(i);
    if i == objects.len() - 1 {
        assert(rest =~= objects.drop_last());
    } else {
        removing_takes_references(edges, objects.drop_last(), i);
        assert(rest.drop_last() =~= objects.drop_last().remove(i));
        assert(rest.last() == objects.last());
    }
}

/// When marking is over no object is grey.
pub proof fn marking_leaves_no_grey<G: ObjectGraph>(
    graph: &G,
    coloring: Map<G::Id, Color>,
    id: G::Id,
)
    requires
        is_final_coloring(graph, coloring),
        coloring.dom().contains(id),
    ensures
        coloring[id] != Color::Grey,
{
}

/// When marking is over no black object refers to a white one.
pub proof fn marking_keeps_tri_color_invariant<G: ObjectGraph>(
    graph: &G,
    coloring: Map<G::Id, Color>,
)
    requires
        is_final_coloring(graph, coloring),
    ensures
        tri_color_invariant(edges_of(graph), coloring),
{
    let start = graph.root_ids().to_set();
    let edges = edges_of(graph);
    assert forall|x: G::Id, y: G::Id|
        #![trigger edges(x).contains(y), coloring.dom().contains(x)]
        coloring.dom().contains(x) && coloring[x] == Color::Black && edges(x).contains(
            y,
        ) implies coloring.dom().contains(y) && coloring[y] != Color::White by {
        assert(live_set(graph).contains(x));
        edge_extends_reach(start, edges, x, y);
        assert(live_set(graph).contains(y));
        assert(coloring.dom().contains(y));
    }
}

/// Why white objects may be reclaimed: in any coloring that keeps the tri-color invariant,
/// has no grey object left and no white root, every white object is unreachable.
pub proof fn white_is_unreachable<G: ObjectGraph>(
    graph: &G,
    coloring: Map<G::Id, Color>,
    id: G::Id,
)
    requires
        tri_color_invariant(edges_of(graph), coloring),
        forall|x: G::Id| #[trigger] coloring.dom().contains(x) ==> coloring[x] != Color::Grey,
        forall|r: G::Id| #[trigger]
            graph.root_ids().contains(r) ==> coloring.dom().contains(r) && coloring[r]
                != Color::White,
        coloring.dom().contains(id),
        coloring[id] == Color::White,
    ensures
        !live_set(graph).contains(id),
{
    let start = graph.root_ids().to_set();
    let edges = edges_of(graph);
    let black = Set::new(|x: G::Id| coloring.dom().contains(x) && coloring[x] == Color::Black);
    if live_set(graph).contains(id) {
        assert forall|r: G::Id| start.contains(r) implies black.contains(r) by {
            assert(graph.root_ids().contains(r));
        }
        assert forall|x: G::Id, y: G::Id|
            black.contains(x) && #[trigger] edges(x).contains(y) implies #[trigger] black.contains(
            y,
        ) by {
            assert(coloring.dom().contains(x));
            assert(coloring.dom().contains(y));
        }
        closed_set_holds_reach(start, edges, black, id);
    }
}

/// What a finished coloring says, in terms of the graph alone: the roots are black, whatever a
/// black object refers to is black, and black is no more than it must be, as every set that holds
/// the roots and the targets of its members holds every black object. All other objects of the
/// graph are white, and nothing else has a color.
pub proof fn final_coloring_is_the_least_closed_one<G: ObjectGraph>(
    graph: &G,
    coloring: Map<G::Id, Color>,
    kept: Set<G::Id>,
    x: G::Id,
    y: G::Id,
)
    requires
        is_final_coloring(graph, coloring),
    ensures
        graph.root_ids().contains(x) ==> coloring.dom().contains(x) && coloring[x] == Color::Black,
        coloring.dom().contains(x) && coloring[x] == Color::Black && graph.targets(x).contains(y)
            ==> coloring.dom().contains(y) && coloring[y] == Color::Black,
        graph.object_ids().contains(x) ==> coloring.dom().contains(x),
        coloring.dom().contains(x) && coloring[x] != Color::Black ==> coloring[x] == Color::White
            && graph.object_ids().contains(x),
        ({
            &&& forall|r: G::Id| #[trigger] graph.root_ids().contains(r) ==> kept.contains(r)
            &&& forall|a: G::Id, b: G::Id|
                kept.contains(a) && #[trigger] graph.targets(a).contains(b)
                    ==> #[trigger] kept.contains(b)
        }) && coloring.dom().contains(x) && coloring[x] == Color::Black ==> kept.contains(x),
{
    let start = graph.root_ids().to_set();
    let edges = edges_of(graph);
    if graph.root_ids().contains(x) {
        assert(start.contains(x));
        start_is_reachable(start, edges, x);
        assert(live_set(graph).contains(x));
        assert(coloring.dom().contains(x));
    }
    if coloring.dom().contains(x) && coloring[x] == Color::Black && graph.targets(x).contains(y) {
        assert(live_set(graph).contains(x));
        edge_extends_reach(start, edges, x, y);
        assert(live_set(graph).contains(y));
        assert(coloring.dom().contains(y));
    }
    if coloring.dom().contains(x) && coloring[x] == Color::Black && (forall|r: G::Id| #[trigger]
        graph.root_ids().contains(r) ==> kept.contains(r)) && (forall|a: G::Id, b: G::Id|
        kept.contains(a) && #[trigger] graph.targets(a).contains(b) ==> #[trigger] kept.contains(
            b,
        )) {
        assert(live_set(graph).contains(x));
        assert forall|r: G::Id| start.contains(r) implies kept.contains(r) by {
            assert(graph.root_ids().contains(r));
        }
        assert forall|a: G::Id, b: G::Id|
            kept.contains(a) && #[trigger] edges(a).contains(b) implies #[trigger] kept.contains(
            b,
        ) by {
            assert(graph.targets(a).contains(b));
        }
        closed_set_holds_reach(start, edges, kept, x);
    }
}

} // verus!
