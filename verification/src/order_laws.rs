//! What holds of the execution order on well-formed graphs: every emitted
//! node comes after the nodes it depends on, an acyclic graph is emitted in
//! full, and the nodes of a cycle are never emitted.

use vstd::prelude::*;
use crate::graph::{lemma_targets_of_are_edges, targets_of};
use crate::planner::{
    advance, count_incoming, degree, drain, initial_degrees, kahn_order, lemma_advance_decreases,
    ready_nodes, release, waiting_edges, Frontier,
};

verus! {

/// A graph as the data model asks for it: no node id occurs twice, and both
/// ends of every edge are node ids.
pub open spec fn well_formed<K>(nodes: Seq<K>, edges: Seq<(K, K)>) -> bool {
    &&& nodes.no_duplicates()
    &&& forall|j: int|
        0 <= j < edges.len() ==> nodes.contains((#[trigger] edges[j]).0) && nodes.contains(
            edges[j].1,
        )
}

/// Whether an edge joins the id at place `i` of a walk to the next one.
pub open spec fn is_step<K>(edges: Seq<(K, K)>, walk: Seq<K>, i: int) -> bool {
    edges.contains((walk[i], walk[i + 1]))
}

/// A walk along edges: each id is joined to the next by an edge.
pub open spec fn is_walk<K>(edges: Seq<(K, K)>, walk: Seq<K>) -> bool {
    &&& walk.len() >= 1
    &&& forall|i: int| 0 <= i < walk.len() - 1 ==> #[trigger] is_step(edges, walk, i)
}

/// Whether `node` lies on a cycle: some walk of at least one edge leads from
/// it back to itself.
pub open spec fn on_cycle<K>(edges: Seq<(K, K)>, node: K) -> bool {
    exists|walk: Seq<K>|
        #![trigger is_walk(edges, walk)]
        is_walk(edges, walk) && walk.len() >= 2 && walk.first() == node && walk.last() == node
}

/// Whether the graph has no cycle.
pub open spec fn acyclic<K>(edges: Seq<(K, K)>) -> bool {
    forall|node: K| !#[trigger] on_cycle(edges, node)
}

/// Whether every id in `order` stands after the source of each edge that
/// leads to it.
pub open spec fn after_dependencies<K>(order: Seq<K>, edges: Seq<(K, K)>) -> bool {
    forall|p: int, j: int|
        #![trigger order[p], edges[j]]
        0 <= p < order.len() && 0 <= j < edges.len() && edges[j].1 == order[p] ==> exists|q: int|
            0 <= q < p && #[trigger] order[q] == edges[j].0
}

/// Whether for every edge the source stands strictly before the target.
pub open spec fn respects_edges<K>(order: Seq<K>, edges: Seq<(K, K)>) -> bool {
    forall|j: int|
        #![trigger edges[j]]
        0 <= j < edges.len() ==> exists|a: int, b: int|
            #![trigger order[a], order[b]]
            0 <= a < b < order.len() && order[a] == edges[j].0 && order[b] == edges[j].1
}

/// How often `key` occurs in `items`.
spec fn occurrences<K>(items: Seq<K>, key: K) -> nat
    decreases items.len(),
{
    if items.len() == 0 {
        0
    } else if items.last() == key {
        occurrences(items.drop_last(), key) + 1
    } else {
        occurrences(items.drop_last(), key)
    }
}

/// The number of edges that lead to `key` from an id in `done`.
spec fn covered<K>(edges: Seq<(K, K)>, done: Seq<K>, key: K) -> nat
    decreases edges.len(),
{
    if edges.len() == 0 {
        0
    } else if edges.last().1 == key && done.contains(edges.last().0) {
        covered(edges.drop_last(), done, key) + 1
    } else {
        covered(edges.drop_last(), done, key)
    }
}

proof fn lemma_occurrences_contains<K>(items: Seq<K>, key: K)
    ensures
        occurrences(items, key) > 0 <==> items.contains(key),
    decreases items.len(),
{
    if items.len() > 0 {
        let init = items.drop_last();
        lemma_occurrences_contains(init, key);
        if init.contains(key) {
            let i = choose|i: int| 0 <= i < init.len() && init[i] == key;
            assert(items[i] == key);
        }
        if items.last() == key {
            assert(items[items.len() - 1] == key);
        }
        if items.contains(key) && items.last() != key {
            let i = choose|i: int| 0 <= i < items.len() && items[i] == key;
            assert(init[i] == key);
        }
    }
}

proof fn lemma_push_no_duplicates<K>(items: Seq<K>, last: K)
    requires
        items.no_duplicates(),
        !items.contains(last),
    ensures
        items.push(last).no_duplicates(),
{
    let longer = items.push(last);
    assert forall|i: int, j: int|
        0 <= i < longer.len() && 0 <= j < longer.len() && i != j implies longer[i] != longer[j] by {
        if i < items.len() {
            assert(items[i] == longer[i]);
        }
        if j < items.len() {
            assert(items[j] == longer[j]);
        }
    }
}

/// Once `node` is done, the edges that lead from it to `key` are covered too.
proof fn lemma_covered_push<K>(edges: Seq<(K, K)>, done: Seq<K>, node: K, key: K)
    requires
        !done.contains(node),
    ensures
        covered(edges, done.push(node), key) == covered(edges, done, key) + occurrences(
            targets_of(edges, node),
            key,
        ),
    decreases edges.len(),
{
    if edges.len() > 0 {
        lemma_covered_push(edges.drop_last(), done, node, key);
        vstd::seq_lib::lemma_seq_contains_after_push(done, node, edges.last().0);
        let prior = targets_of(edges.drop_last(), node);
        if edges.last().0 == node {
            assert(prior.push(edges.last().1).drop_last() =~= prior);
        }
    }
}

/// Nothing is covered before anything is done.
proof fn lemma_covered_empty<K>(edges: Seq<(K, K)>, key: K)
    ensures
        covered(edges, Seq::<K>::empty(), key) == 0,
    decreases edges.len(),
{
    if edges.len() > 0 {
        lemma_covered_empty(edges.drop_last(), key);
    }
}

/// What is done within `nodes` covers no more than `nodes` cover. Where it
/// covers as much, the source of every edge that leads to `key` from a node
/// is done; where it covers less, some such source is not.
proof fn lemma_covered_within<K>(edges: Seq<(K, K)>, nodes: Seq<K>, done: Seq<K>, key: K)
    requires
        forall|x: K| done.contains(x) ==> nodes.contains(x),
    ensures
        covered(edges, done, key) <= covered(edges, nodes, key),
        covered(edges, done, key) == covered(edges, nodes, key) ==> forall|j: int|
            0 <= j < edges.len() && (#[trigger] edges[j]).1 == key && nodes.contains(edges[j].0)
                ==> done.contains(edges[j].0),
        covered(edges, done, key) < covered(edges, nodes, key) ==> exists|j: int|
            0 <= j < edges.len() && (#[trigger] edges[j]).1 == key && nodes.contains(edges[j].0)
                && !done.contains(edges[j].0),
    decreases edges.len(),
{
    if edges.len() > 0 {
        let init = edges.drop_last();
        lemma_covered_within(init, nodes, done, key);
        if covered(edges, done, key) == covered(edges, nodes, key) {
            assert forall|j: int|
                0 <= j < edges.len() && (#[trigger] edges[j]).1 == key && nodes.contains(
                    edges[j].0,
                ) implies done.contains(edges[j].0) by {
                if j < init.len() {
                    assert(init[j] == edges[j]);
                }
            }
        }
        if covered(edges, done, key) < covered(edges, nodes, key) {
            if covered(init, done, key) < covered(init, nodes, key) {
                let j = choose|j: int|
                    0 <= j < init.len() && (#[trigger] init[j]).1 == key && nodes.contains(
                        init[j].0,
                    ) && !done.contains(init[j].0);
                assert(edges[j] == init[j]);
            } else {
                assert(edges[edges.len() - 1] == edges.last());
            }
        }
    }
}

/// Counting incoming edges raises each in-degree by the number of times its
/// id is listed, and drops no entry.
proof fn lemma_count_incoming_degree<K>(table: Map<K, int>, targets: Seq<K>, key: K)
    ensures
        degree(count_incoming(table, targets), key) == degree(table, key) + occurrences(
            targets,
            key,
        ),
        table.contains_key(key) ==> count_incoming(table, targets).contains_key(key),
    decreases targets.len(),
{
    if targets.len() > 0 {
        lemma_count_incoming_degree(table, targets.drop_last(), key);
    }
}

/// Before anything is released, a node's in-degree is the number of edges
/// that lead to it from nodes, and every node has an entry.
proof fn lemma_initial_degrees<K>(nodes: Seq<K>, edges: Seq<(K, K)>, key: K)
    requires
        nodes.no_duplicates(),
    ensures
        degree(initial_degrees(nodes, edges), key) == covered(edges, nodes, key),
        nodes.contains(key) ==> initial_degrees(nodes, edges).contains_key(key),
    decreases nodes.len(),
{
    if nodes.len() == 0 {
        lemma_covered_empty(edges, key);
        assert(nodes =~= Seq::<K>::empty());
    } else {
        let init = nodes.drop_last();
        let node = nodes.last();
        lemma_initial_degrees(init, edges, key);
        let prior = initial_degrees(init, edges);
        let listed = if prior.contains_key(node) {
            prior
        } else {
            prior.insert(node, 0)
        };
        lemma_count_incoming_degree(listed, targets_of(edges, node), key);
        assert(!init.contains(node)) by {
            if init.contains(node) {
                let i = choose|i: int| 0 <= i < init.len() && init[i] == node;
                assert(nodes[i] == nodes[nodes.len() - 1]);
            }
        }
        lemma_covered_push(edges, init, node, key);
        assert(init.push(node) =~= nodes);
        vstd::seq_lib::lemma_seq_contains_after_push(init, node, key);
    }
}

/// The nodes that are ready at the start are those with an entry of zero,
/// each once.
proof fn lemma_ready_nodes<K>(nodes: Seq<K>, table: Map<K, int>)
    requires
        nodes.no_duplicates(),
    ensures
        ready_nodes(nodes, table).no_duplicates(),
        forall|key: K|
            ready_nodes(nodes, table).contains(key) <==> nodes.contains(key) && table.contains_key(
                key,
            ) && table[key] == 0,
    decreases nodes.len(),
{
    if nodes.len() > 0 {
        let init = nodes.drop_last();
        let node = nodes.last();
        lemma_ready_nodes(init, table);
        let prior = ready_nodes(init, table);
        assert(!init.contains(node)) by {
            if init.contains(node) {
                let i = choose|i: int| 0 <= i < init.len() && init[i] == node;
                assert(nodes[i] == nodes[nodes.len() - 1]);
            }
        }
        assert(init.push(node) =~= nodes);
        assert forall|key: K|
            ready_nodes(nodes, table).contains(key) <==> nodes.contains(key) && table.contains_key(
                key,
            ) && table[key] == 0 by {
            vstd::seq_lib::lemma_seq_contains_after_push(init, node, key);
            vstd::seq_lib::lemma_seq_contains_after_push(prior, node, key);
        }
    } else {
        assert forall|key: K| !nodes.contains(key) by {}
    }
}

/// The ids that join the queue while `targets` are released from `table`, in
/// the order in which they join.
spec fn released<K>(table: Map<K, int>, targets: Seq<K>) -> Seq<K>
    decreases targets.len(),
{
    if targets.len() == 0 {
        Seq::empty()
    } else {
        let prior = released(table, targets.drop_last());
        let target = targets.last();
        if degree(table, target) - occurrences(targets, target) == 0 {
            prior.push(target)
        } else {
            prior
        }
    }
}

/// Releasing targets lowers each in-degree by the number of times its id is
/// listed, and appends to the queue the ids that reach zero on the way.
proof fn lemma_release<K>(state: Frontier<K>, targets: Seq<K>)
    ensures
        forall|key: K|
            degree(release(state, targets).table, key) == degree(state.table, key) - occurrences(
                targets,
                key,
            ),
        release(state, targets).queue == state.queue + released(state.table, targets),
    decreases targets.len(),
{
    if targets.len() > 0 {
        lemma_release(state, targets.drop_last());
        let prior = release(state, targets.drop_last());
        let target = targets.last();
        assert forall|key: K|
            degree(release(state, targets).table, key) == degree(state.table, key) - occurrences(
                targets,
                key,
            ) by {
            assert(degree(prior.table, key) == degree(state.table, key) - occurrences(
                targets.drop_last(),
                key,
            ));
        }
    } else {
    }
}

/// An id joins the queue during a release exactly when it waits for at least
/// one and at most as many edges as are released to it, and it joins once.
proof fn lemma_released<K>(table: Map<K, int>, targets: Seq<K>)
    ensures
        released(table, targets).no_duplicates(),
        forall|key: K|
            released(table, targets).contains(key) <==> 1 <= degree(table, key) <= occurrences(
                targets,
                key,
            ),
    decreases targets.len(),
{
    if targets.len() > 0 {
        let init = targets.drop_last();
        let target = targets.last();
        lemma_released(table, init);
        let prior = released(table, init);
        assert forall|key: K|
            released(table, targets).contains(key) <==> 1 <= degree(table, key) <= occurrences(
                targets,
                key,
            ) by {
            vstd::seq_lib::lemma_seq_contains_after_push(prior, target, key);
        }
        if degree(table, target) - occurrences(targets, target) == 0 {
            lemma_push_no_duplicates(prior, target);
        }
    } else {
        assert forall|key: K| !released(table, targets).contains(key) by {}
    }
}

/// What holds between two releases on a well-formed graph. No id is done or
/// queued twice. The ids that are done or queued are the nodes whose
/// in-degree is zero. An in-degree is the number of edges that lead to the id
/// from nodes that are not done. Every id that is done stands after its
/// dependencies.
spec fn steady<K>(
    nodes: Seq<K>,
    edges: Seq<(K, K)>,
    done: Seq<K>,
    state: Frontier<K>,
) -> bool {
    &&& well_formed(nodes, edges)
    &&& (done + state.queue).no_duplicates()
    &&& forall|x: K|
        #![trigger (done + state.queue).contains(x)]
        #![trigger nodes.contains(x)]
        (done + state.queue).contains(x) <==> nodes.contains(x) && degree(state.table, x) == 0
    &&& forall|x: K| #[trigger]
        degree(state.table, x) == covered(edges, nodes, x) - covered(edges, done, x)
    &&& after_dependencies(done, edges)
}

/// What holds of the finished order of a well-formed graph. Every emitted id
/// is a node, is emitted once and stands after its dependencies. A node that
/// was not emitted depends on a node that was not emitted either.
pub open spec fn settled<K>(nodes: Seq<K>, edges: Seq<(K, K)>, order: Seq<K>) -> bool {
    &&& order.no_duplicates()
    &&& forall|x: K| #[trigger] order.contains(x) ==> nodes.contains(x)
    &&& after_dependencies(order, edges)
    &&& forall|x: K|
        #![trigger nodes.contains(x)]
        nodes.contains(x) && !order.contains(x) ==> exists|j: int|
            0 <= j < edges.len() && (#[trigger] edges[j]).1 == x && !order.contains(edges[j].0)
}

proof fn lemma_start_is_steady<K>(nodes: Seq<K>, edges: Seq<(K, K)>)
    requires
        well_formed(nodes, edges),
    ensures
        steady(
            nodes,
            edges,
            Seq::<K>::empty(),
            Frontier {
                table: initial_degrees(nodes, edges),
                queue: ready_nodes(nodes, initial_degrees(nodes, edges)),
            },
        ),
{
    let table = initial_degrees(nodes, edges);
    let queue = ready_nodes(nodes, table);
    let done = Seq::<K>::empty();
    lemma_ready_nodes(nodes, table);
    assert forall|x: K| #[trigger]
        degree(table, x) == covered(edges, nodes, x) - covered(edges, done, x) by {
        lemma_initial_degrees(nodes, edges, x);
        lemma_covered_empty(edges, x);
    }
    assert forall|x: K|
        (done + queue).contains(x) <==> nodes.contains(x) && degree(table, x) == 0 by {
        lemma_initial_degrees(nodes, edges, x);
    }
}

proof fn lemma_step_is_steady<K>(
    nodes: Seq<K>,
    edges: Seq<(K, K)>,
    done: Seq<K>,
    state: Frontier<K>,
)
    requires
        steady(nodes, edges, done, state),
        state.queue.len() > 0,
    ensures
        steady(nodes, edges, done.push(state.queue.first()), advance(edges, state)),
{
    let node = state.queue.first();
    let rest = state.queue.drop_first();
    let targets = targets_of(edges, node);
    let next = advance(edges, state);
    let all = done + state.queue;
    let fresh = released(state.table, targets);
    let longer = done.push(node);
    lemma_release(Frontier { table: state.table, queue: rest }, targets);
    lemma_released(state.table, targets);
    assert(longer + next.queue =~= all + fresh);
    assert(longer + rest =~= all);

    assert(all[done.len() as int] == node);
    assert(all.contains(node));
    assert(nodes.contains(node) && degree(state.table, node) == 0);
    assert(!done.contains(node)) by {
        if done.contains(node) {
            let i = choose|i: int| 0 <= i < done.len() && done[i] == node;
            assert(all[i] == all[done.len() as int]);
        }
    }
    assert forall|x: K| longer.contains(x) implies nodes.contains(x) by {
        vstd::seq_lib::lemma_seq_contains_after_push(done, node, x);
        vstd::seq_lib::lemma_seq_concat_contains_all_elements(done, state.queue, x);
    }
    assert forall|x: K| done.contains(x) implies nodes.contains(x) by {
        vstd::seq_lib::lemma_seq_concat_contains_all_elements(done, state.queue, x);
    }

    // The in-degrees count the edges from nodes that are not done.
    assert forall|x: K| #[trigger]
        degree(next.table, x) == covered(edges, nodes, x) - covered(edges, longer, x) by {
        lemma_covered_push(edges, done, node, x);
        assert(degree(state.table, x) == covered(edges, nodes, x) - covered(edges, done, x));
    }

    // The ids that are done or queued are the nodes without pending edges.
    assert forall|x: K|
        (longer + next.queue).contains(x) <==> nodes.contains(x) && degree(next.table, x)
            == 0 by {
        vstd::seq_lib::lemma_seq_concat_contains_all_elements(all, fresh, x);
        lemma_covered_within(edges, nodes, longer, x);
        assert(degree(next.table, x) == covered(edges, nodes, x) - covered(edges, longer, x));
        assert(degree(next.table, x) == degree(state.table, x) - occurrences(targets, x));
        assert(all.contains(x) <==> nodes.contains(x) && degree(state.table, x) == 0);
        assert(fresh.contains(x) <==> 1 <= degree(state.table, x) <= occurrences(targets, x));
        if occurrences(targets, x) > 0 {
            lemma_occurrences_contains(targets, x);
            let i = choose|i: int| 0 <= i < targets.len() && targets[i] == x;
            lemma_targets_of_are_edges(edges, node, i);
            let j = choose|j: int| 0 <= j < edges.len() && edges[j] == (node, x);
            assert(nodes.contains(edges[j].1));
        }
    }

    // Nothing is done or queued twice.
    assert((all + fresh).no_duplicates()) by {
        assert forall|i: int, j: int| 0 <= i < all.len() && 0 <= j < fresh.len() implies all[i]
            != fresh[j] by {
            assert(all.contains(all[i]));
            assert(fresh.contains(fresh[j]));
            assert(degree(state.table, all[i]) == 0);
            assert(1 <= degree(state.table, fresh[j]));
        }
        vstd::seq_lib::lemma_no_dup_in_concat(all, fresh);
    }

    // The node that was emitted stands after its dependencies.
    assert forall|p: int, j: int|
        #![trigger longer[p], edges[j]]
        0 <= p < longer.len() && 0 <= j < edges.len() && edges[j].1 == longer[p] implies exists|
        q: int,
    |
        0 <= q < p && #[trigger] longer[q] == edges[j].0 by {
        if p < done.len() {
            assert(done[p] == longer[p]);
            let q = choose|q: int| 0 <= q < p && #[trigger] done[q] == edges[j].0;
            assert(longer[q] == edges[j].0);
        } else {
            lemma_covered_within(edges, nodes, done, node);
            assert(degree(state.table, node) == covered(edges, nodes, node) - covered(
                edges,
                done,
                node,
            ));
            assert(nodes.contains(edges[j].0));
            assert(done.contains(edges[j].0));
            let q = choose|q: int| 0 <= q < done.len() && done[q] == edges[j].0;
            assert(longer[q] == edges[j].0);
        }
    }
}

/// From a steady state the planner finishes with a settled order.
proof fn lemma_drain_settles<K>(
    nodes: Seq<K>,
    edges: Seq<(K, K)>,
    done: Seq<K>,
    state: Frontier<K>,
)
    requires
        steady(nodes, edges, done, state),
    ensures
        settled(nodes, edges, done + drain(edges, state)),
    decreases state.queue.len() + waiting_edges(edges, state.table),
{
    if state.queue.len() == 0 {
        assert(done + drain(edges, state) =~= done);
        assert(done + state.queue =~= done);
        assert forall|x: K|
            #![trigger nodes.contains(x)]
            nodes.contains(x) && !done.contains(x) implies exists|j: int|
            0 <= j < edges.len() && (#[trigger] edges[j]).1 == x && !done.contains(
                edges[j].0,
            ) by {
            assert forall|y: K| done.contains(y) implies nodes.contains(y) by {
                assert((done + state.queue).contains(y));
            }
            lemma_covered_within(edges, nodes, done, x);
            assert(degree(state.table, x) == covered(edges, nodes, x) - covered(edges, done, x));
            assert((done + state.queue).contains(x) <==> nodes.contains(x) && degree(
                state.table,
                x,
            ) == 0);
        }
        assert forall|x: K| #[trigger] done.contains(x) implies nodes.contains(x) by {
            assert((done + state.queue).contains(x));
        }
    } else {
        let node = state.queue.first();
        lemma_step_is_steady(nodes, edges, done, state);
        lemma_advance_decreases(edges, state);
        lemma_drain_settles(nodes, edges, done.push(node), advance(edges, state));
        assert(done.push(node) + drain(edges, advance(edges, state)) =~= done + drain(
            edges,
            state,
        ));
    }
}

/// On a well-formed graph every emitted id is a node, is emitted once and
/// stands after the source of each edge that leads to it; a node that is
/// missing from the order depends on another node that is missing.
pub proof fn lemma_order_is_settled<K>(nodes: Seq<K>, edges: Seq<(K, K)>)
    requires
        well_formed(nodes, edges),
    ensures
        settled(nodes, edges, kahn_order(nodes, edges)),
{
    let table = initial_degrees(nodes, edges);
    let state = Frontier { table, queue: ready_nodes(nodes, table) };
    lemma_start_is_steady(nodes, edges);
    lemma_drain_settles(nodes, edges, Seq::<K>::empty(), state);
}

/// In an order that puts every id after its dependencies, the start of a
/// walk stands at least as many places before its end as the walk has edges.
proof fn lemma_walk_start_is_earlier<K>(
    order: Seq<K>,
    edges: Seq<(K, K)>,
    walk: Seq<K>,
    p: int,
) -> (q: int)
    requires
        after_dependencies(order, edges),
        is_walk(edges, walk),
        0 <= p < order.len(),
        order[p] == walk.last(),
    ensures
        0 <= q,
        q + walk.len() - 1 <= p,
        order[q] == walk.first(),
    decreases walk.len(),
{
    if walk.len() == 1 {
        p
    } else {
        let init = walk.drop_last();
        let last = walk.len() - 1;
        assert(is_step(edges, walk, last - 1));
        let j = choose|j: int| 0 <= j < edges.len() && edges[j] == (walk[last - 1], walk[last]);
        let before = choose|q: int| 0 <= q < p && #[trigger] order[q] == edges[j].0;
        assert forall|i: int| 0 <= i < init.len() - 1 implies #[trigger] is_step(
            edges,
            init,
            i,
        ) by {
            assert(is_step(edges, walk, i));
        }
        lemma_walk_start_is_earlier(order, edges, init, before)
    }
}

/// An id on a cycle stands nowhere in an order that puts every id after its
/// dependencies.
proof fn lemma_cycle_has_no_place<K>(order: Seq<K>, edges: Seq<(K, K)>, walk: Seq<K>, p: int)
    requires
        after_dependencies(order, edges),
        is_walk(edges, walk),
        walk.len() >= 2,
        walk.first() == walk.last(),
        0 <= p < order.len(),
    ensures
        order[p] != walk.last(),
    decreases p,
{
    if order[p] == walk.last() {
        let q = lemma_walk_start_is_earlier(order, edges, walk, p);
        lemma_cycle_has_no_place(order, edges, walk, q);
    }
}

/// A node that is missing from a settled order depends on a node that is
/// missing too.
proof fn lemma_missing_dependency<K>(nodes: Seq<K>, edges: Seq<(K, K)>, order: Seq<K>, node: K) -> (
    source: K
)
    requires
        well_formed(nodes, edges),
        settled(nodes, edges, order),
        nodes.contains(node),
        !order.contains(node),
    ensures
        edges.contains((source, node)),
        nodes.contains(source),
        !order.contains(source),
{
    let j = choose|j: int|
        0 <= j < edges.len() && (#[trigger] edges[j]).1 == node && !order.contains(edges[j].0);
    assert(edges[j] == (edges[j].0, node));
    edges[j].0
}

/// A node that is missing from a settled order ends a walk of any length
/// through nodes that are all missing.
proof fn lemma_missing_walk<K>(
    nodes: Seq<K>,
    edges: Seq<(K, K)>,
    order: Seq<K>,
    node: K,
    len: nat,
) -> (walk: Seq<K>)
    requires
        well_formed(nodes, edges),
        settled(nodes, edges, order),
        nodes.contains(node),
        !order.contains(node),
        len >= 1,
    ensures
        is_walk(edges, walk),
        walk.len() == len,
        forall|i: int|
            0 <= i < walk.len() ==> nodes.contains(#[trigger] walk[i]) && !order.contains(walk[i]),
    decreases len,
{
    if len == 1 {
        seq![node]
    } else {
        let tail = lemma_missing_walk(nodes, edges, order, node, (len - 1) as nat);
        let source = lemma_missing_dependency(nodes, edges, order, tail[0]);
        lemma_walk_extends(edges, source, tail);
        let walk = seq![source] + tail;
        assert forall|i: int| 0 <= i < walk.len() implies nodes.contains(#[trigger] walk[i])
            && !order.contains(walk[i]) by {
            if i > 0 {
                assert(walk[i] == tail[i - 1]);
            }
        }
        walk
    }
}

/// A walk with one more id in front of it, joined to its start by an edge,
/// is a walk.
proof fn lemma_walk_extends<K>(edges: Seq<(K, K)>, source: K, tail: Seq<K>)
    requires
        is_walk(edges, tail),
        edges.contains((source, tail[0])),
    ensures
        is_walk(edges, seq![source] + tail),
{
    let walk = seq![source] + tail;
    assert forall|i: int| 0 <= i < walk.len() - 1 implies #[trigger] is_step(edges, walk, i) by {
        if i == 0 {
            assert(walk[0] == source && walk[1] == tail[0]);
        } else {
            assert(is_step(edges, tail, i - 1));
            assert(walk[i] == tail[i - 1] && walk[i + 1] == tail[i]);
        }
    }
}

/// A sequence of nodes that is longer than the list of nodes holds some node
/// at two places.
proof fn lemma_repeated_place<K>(nodes: Seq<K>, walk: Seq<K>) -> (places: (int, int))
    requires
        nodes.no_duplicates(),
        walk.len() > nodes.len(),
        forall|i: int| 0 <= i < walk.len() ==> nodes.contains(#[trigger] walk[i]),
    ensures
        0 <= places.0 < places.1 < walk.len(),
        walk[places.0] == walk[places.1],
{
    assert(!walk.no_duplicates()) by {
        if walk.no_duplicates() {
            walk.unique_seq_to_set();
            nodes.unique_seq_to_set();
            vstd::seq_lib::seq_to_set_is_finite(nodes);
            assert forall|x: K| walk.to_set().contains(x) implies nodes.to_set().contains(x) by {
                let i = choose|i: int| 0 <= i < walk.len() && walk[i] == x;
                assert(nodes.contains(walk[i]));
            }
            vstd::set_lib::lemma_len_subset(walk.to_set(), nodes.to_set());
        }
    }
    let (a, b) = choose|a: int, b: int|
        0 <= a < walk.len() && 0 <= b < walk.len() && a != b && walk[a] == walk[b];
    if a < b {
        (a, b)
    } else {
        (b, a)
    }
}

/// The part of a walk between two places that hold the same id is a cycle.
proof fn lemma_repeat_is_cycle<K>(edges: Seq<(K, K)>, walk: Seq<K>, i: int, j: int)
    requires
        is_walk(edges, walk),
        0 <= i < j < walk.len(),
        walk[i] == walk[j],
    ensures
        on_cycle(edges, walk[i]),
{
    let cycle = walk.subrange(i, j + 1);
    assert forall|k: int| 0 <= k < cycle.len() - 1 implies #[trigger] is_step(
        edges,
        cycle,
        k,
    ) by {
        assert(is_step(edges, walk, i + k));
        assert(cycle[k] == walk[i + k] && cycle[k + 1] == walk[i + k + 1]);
    }
    assert(is_walk(edges, cycle));
    assert(cycle.first() == walk[i] && cycle.last() == walk[j]);
}

/// A node that lies on a cycle is never emitted.
///
/// For every graph whose node ids are distinct and whose edges join nodes:
/// an id from which a walk of at least one edge leads back to itself does not
/// occur in the execution order.
pub proof fn lemma_cycle_is_left_out<K>(nodes: Seq<K>, edges: Seq<(K, K)>, node: K)
    requires
        well_formed(nodes, edges),
        on_cycle(edges, node),
    ensures
        !kahn_order(nodes, edges).contains(node),
{
    let order = kahn_order(nodes, edges);
    lemma_order_is_settled(nodes, edges);
    if order.contains(node) {
        let p = choose|p: int| 0 <= p < order.len() && order[p] == node;
        let walk = choose|walk: Seq<K>|
            #![trigger is_walk(edges, walk)]
            is_walk(edges, walk) && walk.len() >= 2 && walk.first() == node && walk.last()
                == node;
        lemma_cycle_has_no_place(order, edges, walk, p);
    }
}

/// Whatever can be reached from a cycle is never emitted.
///
/// For every graph whose node ids are distinct and whose edges join nodes:
/// an id at the end of a walk that starts on a cycle does not occur in the
/// execution order.
pub proof fn lemma_behind_cycle_is_left_out<K>(nodes: Seq<K>, edges: Seq<(K, K)>, walk: Seq<K>)
    requires
        well_formed(nodes, edges),
        is_walk(edges, walk),
        on_cycle(edges, walk.first()),
    ensures
        !kahn_order(nodes, edges).contains(walk.last()),
{
    let order = kahn_order(nodes, edges);
    lemma_order_is_settled(nodes, edges);
    lemma_cycle_is_left_out(nodes, edges, walk.first());
    if order.contains(walk.last()) {
        let p = choose|p: int| 0 <= p < order.len() && order[p] == walk.last();
        let q = lemma_walk_start_is_earlier(order, edges, walk, p);
        assert(order.contains(order[q]));
    }
}

/// An acyclic graph is emitted in full and in dependency order.
///
/// For every graph whose node ids are distinct, whose edges join nodes and
/// which has no cycle: the execution order holds every node id exactly once
/// and nothing else, and for every edge the source stands strictly before the
/// target.
pub proof fn lemma_acyclic_order_is_topological<K>(nodes: Seq<K>, edges: Seq<(K, K)>)
    requires
        well_formed(nodes, edges),
        acyclic(edges),
    ensures
        kahn_order(nodes, edges).no_duplicates(),
        kahn_order(nodes, edges).len() == nodes.len(),
        forall|x: K| kahn_order(nodes, edges).contains(x) <==> nodes.contains(x),
        respects_edges(kahn_order(nodes, edges), edges),
{
    let order = kahn_order(nodes, edges);
    lemma_order_is_settled(nodes, edges);
    assert forall|x: K| nodes.contains(x) implies order.contains(x) by {
        if !order.contains(x) {
            let walk = lemma_missing_walk(nodes, edges, order, x, nodes.len() + 1);
            let (i, j) = lemma_repeated_place(nodes, walk);
            lemma_repeat_is_cycle(edges, walk, i, j);
            assert(!on_cycle(edges, walk[i]));
        }
    }
    assert forall|j: int|
        #![trigger edges[j]]
        0 <= j < edges.len() implies exists|a: int, b: int|
        #![trigger order[a], order[b]]
        0 <= a < b < order.len() && order[a] == edges[j].0 && order[b] == edges[j].1 by {
        assert(nodes.contains(edges[j].1));
        assert(order.contains(edges[j].1));
        let b = choose|b: int| 0 <= b < order.len() && order[b] == edges[j].1;
        let a = choose|a: int| 0 <= a < b && #[trigger] order[a] == edges[j].0;
        assert(order[a] == edges[j].0 && order[b] == edges[j].1);
    }
    assert(order.len() == nodes.len()) by {
        order.unique_seq_to_set();
        nodes.unique_seq_to_set();
        assert(order.to_set() =~= nodes.to_set());
    }
}

/// A request without nodes has an empty execution order, whatever its edges.
pub proof fn lemma_no_nodes_no_order<K>(nodes: Seq<K>, edges: Seq<(K, K)>)
    requires
        nodes.len() == 0,
    ensures
        kahn_order(nodes, edges) == Seq::<K>::empty(),
{
}

} // verus!
