//! The execution order of a pipeline: Kahn's algorithm over the request's
//! nodes and edges, with ties resolved first in, first out.
//!
//! The order is defined for every request. A request whose node ids are
//! distinct, whose edges join existing nodes and which has no cycle gets every
//! node exactly once, each after the nodes it depends on. Nodes on a cycle are
//! left out, as is everything that can only be reached through them.

use std::collections::VecDeque;
use vstd::prelude::*;
use vstd::hash_map::StringHashMap;
use crate::graph::{adjacency, lemma_targets_of_sources, targets_of};
use crate::model::{texts, PreviewRequest};

verus! {

/// The in-degree recorded for `key`; an id without an entry counts as zero.
pub open spec fn degree<K>(table: Map<K, int>, key: K) -> int {
    if table.contains_key(key) {
        table[key]
    } else {
        0
    }
}

/// The table after one more incoming edge was counted for each of `targets`.
pub open spec fn count_incoming<K>(table: Map<K, int>, targets: Seq<K>) -> Map<K, int>
    decreases targets.len(),
{
    if targets.len() == 0 {
        table
    } else {
        let prior = count_incoming(table, targets.drop_last());
        prior.insert(targets.last(), degree(prior, targets.last()) + 1)
    }
}

/// The in-degree table before any node is released. Every node gets an entry,
/// and each node counts one incoming edge for every target in its adjacency
/// list. Edges that leave an id which is not a node are not counted.
pub open spec fn initial_degrees<K>(nodes: Seq<K>, edges: Seq<(K, K)>) -> Map<K, int>
    decreases nodes.len(),
{
    if nodes.len() == 0 {
        Map::empty()
    } else {
        let prior = initial_degrees(nodes.drop_last(), edges);
        let node = nodes.last();
        let listed = if prior.contains_key(node) {
            prior
        } else {
            prior.insert(node, 0)
        };
        count_incoming(listed, targets_of(edges, node))
    }
}

/// The nodes that start without incoming edges, in the order of the request.
pub open spec fn ready_nodes<K>(nodes: Seq<K>, table: Map<K, int>) -> Seq<K>
    decreases nodes.len(),
{
    if nodes.len() == 0 {
        Seq::empty()
    } else if table.contains_key(nodes.last()) && table[nodes.last()] == 0 {
        ready_nodes(nodes.drop_last(), table).push(nodes.last())
    } else {
        ready_nodes(nodes.drop_last(), table)
    }
}

/// The planner's working state: the in-degree table and the queue of ids
/// that are ready to be emitted.
#[verifier::reject_recursive_types(K)]
pub struct Frontier<K> {
    pub table: Map<K, int>,
    pub queue: Seq<K>,
}

/// The state after an emitted node released its `targets`, left to right:
/// each loses one incoming edge, and one that reaches zero joins the queue.
pub open spec fn release<K>(state: Frontier<K>, targets: Seq<K>) -> Frontier<K>
    decreases targets.len(),
{
    if targets.len() == 0 {
        state
    } else {
        let prior = release(state, targets.drop_last());
        let target = targets.last();
        let left = degree(prior.table, target) - 1;
        Frontier {
            table: prior.table.insert(target, left),
            queue: if left == 0 {
                prior.queue.push(target)
            } else {
                prior.queue
            },
        }
    }
}

/// The number of edges whose target still waits for an incoming edge.
pub open spec fn waiting_edges<K>(edges: Seq<(K, K)>, table: Map<K, int>) -> nat
    decreases edges.len(),
{
    if edges.len() == 0 {
        0
    } else {
        let rest = waiting_edges(edges.drop_last(), table);
        if degree(table, edges.last().1) > 0 {
            rest + 1
        } else {
            rest
        }
    }
}

/// The state after the front of the queue was taken and its targets released.
pub open spec fn advance<K>(edges: Seq<(K, K)>, state: Frontier<K>) -> Frontier<K> {
    release(
        Frontier { table: state.table, queue: state.queue.drop_first() },
        targets_of(edges, state.queue.first()),
    )
}

/// The ids emitted from `state` on: the front of the queue, then whatever the
/// state after it emits, until the queue is empty.
pub open spec fn drain<K>(edges: Seq<(K, K)>, state: Frontier<K>) -> Seq<K>
    decreases state.queue.len() + waiting_edges(edges, state.table),
    via drain_terminates::<K>
{
    if state.queue.len() == 0 {
        Seq::empty()
    } else {
        seq![state.queue.first()] + drain(edges, advance(edges, state))
    }
}

/// The execution order of a graph.
pub open spec fn kahn_order<K>(nodes: Seq<K>, edges: Seq<(K, K)>) -> Seq<K> {
    let table = initial_degrees(nodes, edges);
    drain(edges, Frontier { table, queue: ready_nodes(nodes, table) })
}

/// Whether `key` is the target of some edge.
pub open spec fn is_target<K>(edges: Seq<(K, K)>, key: K) -> bool {
    exists|j: int| 0 <= j < edges.len() && (#[trigger] edges[j]).1 == key
}

/// Lowering one entry of the table never lets more edges wait, and lets
/// fewer wait when the entry of an edge target drops from above zero to zero
/// or below.
pub proof fn lemma_waiting_edges_lowered<K>(
    edges: Seq<(K, K)>,
    table: Map<K, int>,
    key: K,
    value: int,
)
    requires
        value <= degree(table, key),
    ensures
        waiting_edges(edges, table.insert(key, value)) <= waiting_edges(edges, table),
        is_target(edges, key) && degree(table, key) > 0 && value <= 0 ==> waiting_edges(
            edges,
            table.insert(key, value),
        ) < waiting_edges(edges, table),
    decreases edges.len(),
{
    if edges.len() > 0 {
        let init = edges.drop_last();
        lemma_waiting_edges_lowered(init, table, key, value);
        if is_target(edges, key) && edges.last().1 != key {
            let j = choose|j: int| 0 <= j < edges.len() && (#[trigger] edges[j]).1 == key;
            assert(init[j] == edges[j]);
        }
    }
}

/// While targets are released, the queue grows by no more than the number
/// of edges that stop waiting.
pub proof fn lemma_release_bounded<K>(edges: Seq<(K, K)>, state: Frontier<K>, targets: Seq<K>)
    requires
        forall|i: int| 0 <= i < targets.len() ==> is_target(edges, #[trigger] targets[i]),
    ensures
        release(state, targets).queue.len() + waiting_edges(edges, release(state, targets).table)
            <= state.queue.len() + waiting_edges(edges, state.table),
    decreases targets.len(),
{
    if targets.len() > 0 {
        let prior = release(state, targets.drop_last());
        assert forall|i: int| 0 <= i < targets.drop_last().len() implies is_target(
            edges,
            #[trigger] targets.drop_last()[i],
        ) by {
            assert(targets.drop_last()[i] == targets[i]);
        }
        lemma_release_bounded(edges, state, targets.drop_last());
        let target = targets.last();
        assert(is_target(edges, targets[targets.len() - 1]));
        lemma_waiting_edges_lowered(edges, prior.table, target, degree(prior.table, target) - 1);
    }
}

/// Every target listed for a source is an edge target.
pub proof fn lemma_targets_of_are_targets<K>(edges: Seq<(K, K)>, source: K)
    ensures
        forall|i: int|
            0 <= i < targets_of(edges, source).len() ==> is_target(
                edges,
                #[trigger] targets_of(edges, source)[i],
            ),
{
    assert forall|i: int| 0 <= i < targets_of(edges, source).len() implies is_target(
        edges,
        #[trigger] targets_of(edges, source)[i],
    ) by {
        crate::graph::lemma_targets_of_are_edges(edges, source, i);
        let pair = (source, targets_of(edges, source)[i]);
        let j = choose|j: int| 0 <= j < edges.len() && edges[j] == pair;
        assert(edges[j].1 == targets_of(edges, source)[i]);
    }
}

/// Taking the front of a non-empty queue and releasing its targets brings the
/// planner strictly closer to an empty queue.
pub proof fn lemma_advance_decreases<K>(edges: Seq<(K, K)>, state: Frontier<K>)
    requires
        state.queue.len() > 0,
    ensures
        advance(edges, state).queue.len() + waiting_edges(edges, advance(edges, state).table)
            < state.queue.len() + waiting_edges(edges, state.table),
{
    lemma_targets_of_are_targets(edges, state.queue.first());
    lemma_release_bounded(
        edges,
        Frontier { table: state.table, queue: state.queue.drop_first() },
        targets_of(edges, state.queue.first()),
    );
}

#[via_fn]
proof fn drain_terminates<K>(edges: Seq<(K, K)>, state: Frontier<K>) {
    if state.queue.len() > 0 {
        lemma_advance_decreases(edges, state);
    }
}

/// An in-degree as the planner holds it. A count that has dropped below zero
/// can never return to zero, so how far below it lies is not kept.
#[derive(Clone, Copy)]
enum Pending {
    Waiting(u128),
    Spent,
}

spec fn stands_for(held: Pending, value: int) -> bool {
    match held {
        Pending::Waiting(count) => value == count,
        Pending::Spent => value < 0,
    }
}

spec fn mirrors(held: Map<Seq<char>, Pending>, table: Map<Seq<char>, int>) -> bool {
    &&& held.dom() =~= table.dom()
    &&& forall|id: Seq<char>| #[trigger]
        held.contains_key(id) ==> stands_for(held[id], table[id])
}

spec fn within(table: Map<Seq<char>, int>, bound: int) -> bool {
    forall|id: Seq<char>| #[trigger] table.contains_key(id) ==> 0 <= table[id] <= bound
}

/// Counts one incoming edge for each of `targets`.
fn count_targets(
    held: &mut StringHashMap<Pending>,
    targets: &Vec<String>,
    Ghost(table): Ghost<Map<Seq<char>, int>>,
    Ghost(bound): Ghost<int>,
)
    requires
        mirrors(old(held)@, table),
        within(table, bound),
        0 <= bound,
        bound + targets.len() <= u128::MAX,
    ensures
        mirrors(final(held)@, count_incoming(table, texts(targets@))),
        within(count_incoming(table, texts(targets@)), bound + targets.len()),
{
    let ghost names = texts(targets@);
    let mut j: usize = 0;
    while j < targets.len()
        invariant
            j <= targets.len(),
            names == texts(targets@),
            mirrors(held@, count_incoming(table, names.take(j as int))),
            within(count_incoming(table, names.take(j as int)), bound + j),
            0 <= bound,
            bound + targets.len() <= u128::MAX,
        decreases targets.len() - j,
    {
        let key = &targets[j];
        proof {
            assert(names.take(j + 1).drop_last() =~= names.take(j as int));
        }
        let seen: u128 = match held.get(key.as_str()) {
            Some(entry) => match *entry {
                Pending::Waiting(count) => count,
                Pending::Spent => 0,
            },
            None => 0,
        };
        held.insert(key.clone(), Pending::Waiting(seen + 1));
        j += 1;
    }
    proof {
        assert(names.take(j as int) =~= names);
    }
}

/// Takes one incoming edge from each of `targets` and queues those that
/// reach zero.
fn release_targets(
    held: &mut StringHashMap<Pending>,
    queue: &mut VecDeque<String>,
    targets: &Vec<String>,
    Ghost(table): Ghost<Map<Seq<char>, int>>,
)
    requires
        mirrors(old(held)@, table),
    ensures
        mirrors(
            final(held)@,
            release(Frontier { table, queue: texts(old(queue)@) }, texts(targets@)).table,
        ),
        texts(final(queue)@) == release(
            Frontier { table, queue: texts(old(queue)@) },
            texts(targets@),
        ).queue,
{
    let ghost names = texts(targets@);
    let ghost start = Frontier { table, queue: texts(queue@) };
    let mut j: usize = 0;
    while j < targets.len()
        invariant
            j <= targets.len(),
            names == texts(targets@),
            mirrors(held@, release(start, names.take(j as int)).table),
            texts(queue@) == release(start, names.take(j as int)).queue,
        decreases targets.len() - j,
    {
        let key = &targets[j];
        proof {
            assert(names.take(j + 1).drop_last() =~= names.take(j as int));
        }
        let seen: Pending = match held.get(key.as_str()) {
            Some(entry) => *entry,
            None => Pending::Waiting(0),
        };
        match seen {
            Pending::Waiting(count) => {
                if count > 0 {
                    held.insert(key.clone(), Pending::Waiting(count - 1));
                    if count == 1 {
                        queue.push_back(key.clone());
                    }
                } else {
                    held.insert(key.clone(), Pending::Spent);
                }
            },
            Pending::Spent => {
                held.insert(key.clone(), Pending::Spent);
            },
        }
        j += 1;
    }
    proof {
        assert(names.take(j as int) =~= names);
    }
}

/// Orders the nodes of `g` for execution.
///
/// Every node starts with as many pending inputs as edges lead to it from
/// nodes of the request. The nodes without pending inputs are queued in
/// request order. The front of the queue is emitted, each target of its edges
/// loses one pending input in edge order, and a target that has none left
/// joins the back of the queue.
pub fn topological_sort(g: &PreviewRequest) -> (order: Vec<String>)
    ensures
        texts(order@) == kahn_order(g.node_ids(), g.links()),
{
    let graph = g.to_adjacency_list();
    let ghost ids = g.node_ids();
    let ghost links = g.links();
    let mut held: StringHashMap<Pending> = StringHashMap::new();
    let ghost mut table: Map<Seq<char>, int> = Map::empty();

    let mut i: usize = 0;
    while i < g.nodes.len()
        invariant
            i <= g.nodes.len(),
            ids == g.node_ids(),
            links == g.links(),
            graph@ == adjacency(links),
            mirrors(held@, table),
            table == initial_degrees(ids.take(i as int), links),
            within(table, i * links.len()),
        decreases g.nodes.len() - i,
    {
        let id = &g.nodes[i].id;
        proof {
            assert(ids.take(i + 1).drop_last() =~= ids.take(i as int));
            lemma_targets_of_sources(links, id@);
        }
        if !held.contains_key(id.as_str()) {
            held.insert(id.clone(), Pending::Waiting(0));
        }
        let ghost listed = if table.contains_key(id@) {
            table
        } else {
            table.insert(id@, 0)
        };
        assert(0 <= i * links.len()) by (nonlinear_arith)
            requires
                0 <= i,
                0 <= links.len(),
        ;
        match graph.get(id.as_str()) {
            Some(targets) => {
                assert(links.len() == g.edges.len());
                assert(i * links.len() + targets.len() <= u128::MAX) by (nonlinear_arith)
                    requires
                        0 <= i < 0x1_0000_0000_0000_0000,
                        0 <= targets.len() <= links.len() < 0x1_0000_0000_0000_0000,
                        u128::MAX == 0xffff_ffff_ffff_ffff_ffff_ffff_ffff_ffff,
                ;
                count_targets(&mut held, targets, Ghost(listed), Ghost(i * links.len()));
                proof {
                    table = count_incoming(listed, texts(targets@));
                    assert(i * links.len() + targets.len() <= (i + 1) * links.len())
                        by (nonlinear_arith)
                        requires
                            targets.len() <= links.len(),
                    ;
                }
            },
            None => {
                proof {
                    table = listed;
                    assert(i * links.len() <= (i + 1) * links.len()) by (nonlinear_arith)
                        requires
                            0 <= links.len(),
                    ;
                }
            },
        }
        i += 1;
    }

    let mut queue: VecDeque<String> = VecDeque::new();
    let mut i: usize = 0;
    while i < g.nodes.len()
        invariant
            i <= g.nodes.len(),
            ids == g.node_ids(),
            mirrors(held@, table),
            texts(queue@) == ready_nodes(ids.take(i as int), table),
        decreases g.nodes.len() - i,
    {
        let id = &g.nodes[i].id;
        proof {
            assert(ids.take(i + 1).drop_last() =~= ids.take(i as int));
        }
        let ready = match held.get(id.as_str()) {
            Some(entry) => match *entry {
                Pending::Waiting(count) => count == 0,
                Pending::Spent => false,
            },
            None => false,
        };
        if ready {
            queue.push_back(id.clone());
        }
        i += 1;
    }
    proof {
        assert(ids.take(i as int) =~= ids);
    }

    let mut order: Vec<String> = Vec::new();
    while queue.len() > 0
        invariant
            links == g.links(),
            graph@ == adjacency(links),
            mirrors(held@, table),
            texts(order@) + drain(links, Frontier { table, queue: texts(queue@) }) == kahn_order(
                ids,
                links,
            ),
        decreases queue.len() + waiting_edges(links, table),
    {
        let ghost state = Frontier { table, queue: texts(queue@) };
        let node = queue.pop_front().unwrap();
        proof {
            assert(texts(queue@) =~= state.queue.drop_first());
            lemma_targets_of_sources(links, node@);
            lemma_advance_decreases(links, state);
        }
        match graph.get(node.as_str()) {
            Some(targets) => {
                release_targets(&mut held, &mut queue, targets, Ghost(table));
            },
            None => {},
        }
        proof {
            table = advance(links, state).table;
        }
        order.push(node);
    }
    order
}

} // verus!
