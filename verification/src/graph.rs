//! The adjacency list of a request: for each node id that is the source of an
//! edge, the targets of its edges in the order of the request.

use vstd::prelude::*;
use vstd::hash_map::StringHashMap;
use crate::model::{texts, PreviewRequest};

verus! {

/// The targets of the edges that leave `source`, in edge order. An edge that
/// occurs twice contributes its target twice.
pub open spec fn targets_of<K>(edges: Seq<(K, K)>, source: K) -> Seq<K>
    decreases edges.len(),
{
    if edges.len() == 0 {
        Seq::empty()
    } else if edges.last().0 == source {
        targets_of(edges.drop_last(), source).push(edges.last().1)
    } else {
        targets_of(edges.drop_last(), source)
    }
}

/// Whether some edge leaves `source`.
pub open spec fn has_source<K>(edges: Seq<(K, K)>, source: K) -> bool {
    exists|j: int| 0 <= j < edges.len() && (#[trigger] edges[j]).0 == source
}

/// The adjacency mapping of an edge list. Its domain holds exactly the ids
/// that are the source of at least one edge; whether such an id names a node
/// is not looked at.
pub open spec fn adjacency<K>(edges: Seq<(K, K)>) -> Map<K, Seq<K>> {
    Map::new(|source: K| has_source(edges, source), |source: K| targets_of(edges, source))
}

/// Taking one more edge into account appends its target to the list of its
/// source and leaves every other list alone.
pub proof fn lemma_targets_of_push<K>(edges: Seq<(K, K)>, edge: (K, K), source: K)
    ensures
        targets_of(edges.push(edge), source) == if edge.0 == source {
            targets_of(edges, source).push(edge.1)
        } else {
            targets_of(edges, source)
        },
{
    assert(edges.push(edge).drop_last() =~= edges);
}

/// A source has at least one target, and an id that no edge leaves has none.
pub proof fn lemma_targets_of_sources<K>(edges: Seq<(K, K)>, source: K)
    ensures
        has_source(edges, source) <==> targets_of(edges, source).len() > 0,
        targets_of(edges, source).len() <= edges.len(),
    decreases edges.len(),
{
    if edges.len() > 0 {
        let init = edges.drop_last();
        lemma_targets_of_sources(init, source);
        if has_source(init, source) {
            let j = choose|j: int| 0 <= j < init.len() && (#[trigger] init[j]).0 == source;
            assert(edges[j] == init[j]);
        }
        if edges.last().0 == source {
            assert(edges[edges.len() - 1].0 == source);
        }
        if has_source(edges, source) && edges.last().0 != source {
            let j = choose|j: int| 0 <= j < edges.len() && (#[trigger] edges[j]).0 == source;
            assert(init[j] == edges[j]);
        }
    }
}

/// Every target listed for a source belongs to an edge that leaves it.
pub proof fn lemma_targets_of_are_edges<K>(edges: Seq<(K, K)>, source: K, i: int)
    requires
        0 <= i < targets_of(edges, source).len(),
    ensures
        edges.contains((source, targets_of(edges, source)[i])),
    decreases edges.len(),
{
    if edges.len() > 0 {
        let init = edges.drop_last();
        if edges.last().0 == source && i == targets_of(init, source).len() {
            assert(edges[edges.len() - 1] == (source, targets_of(edges, source)[i]));
        } else {
            lemma_targets_of_are_edges(init, source, i);
            let j = choose|j: int| 0 <= j < init.len() && init[j] == (
                source,
                targets_of(init, source)[i],
            );
            assert(edges[j] == init[j]);
        }
    }
}

/// An adjacency list held for lookup by node id.
pub struct AdjacencyList {
    slots: StringHashMap<usize>,
    lists: Vec<Vec<String>>,
}

impl View for AdjacencyList {
    type V = Map<Seq<char>, Seq<Seq<char>>>;

    closed spec fn view(&self) -> Map<Seq<char>, Seq<Seq<char>>> {
        Map::new(
            |id: Seq<char>| self.slots@.contains_key(id),
            |id: Seq<char>| texts(self.lists@[self.slots@[id] as int]@),
        )
    }
}

impl AdjacencyList {
    #[verifier::type_invariant]
    spec fn well_formed(&self) -> bool {
        forall|id: Seq<char>| #[trigger]
            self.slots@.contains_key(id) ==> self.slots@[id] < self.lists@.len()
    }

    /// The targets recorded for `id`, or `None` where no edge leaves it.
    pub fn get(&self, id: &str) -> (found: Option<&Vec<String>>)
        ensures
            match found {
                Some(targets) => self@.contains_key(id@) && texts(targets@) == self@[id@],
                None => !self@.contains_key(id@),
            },
    {
        proof {
            use_type_invariant(self);
        }
        match self.slots.get(id) {
            Some(slot) => Some(&self.lists[*slot]),
            None => None,
        }
    }
}

impl PreviewRequest {
    /// Builds the adjacency list of the request's edges. Edge order is kept
    /// within each list, and no endpoint is checked against the nodes.
    pub fn to_adjacency_list(&self) -> (graph: AdjacencyList)
        ensures
            graph@ == adjacency(self.links()),
    {
        let mut slots: StringHashMap<usize> = StringHashMap::new();
        let mut lists: Vec<Vec<String>> = Vec::new();
        let ghost links = self.links();
        let mut i: usize = 0;
        while i < self.edges.len()
            invariant
                i <= self.edges.len(),
                links == self.links(),
                forall|id: Seq<char>| #[trigger]
                    slots@.contains_key(id) ==> slots@[id] < lists@.len(),
                forall|a: Seq<char>, b: Seq<char>|
                    #![trigger slots@.contains_key(a), slots@.contains_key(b)]
                    slots@.contains_key(a) && slots@.contains_key(b) && slots@[a] == slots@[b]
                        ==> a == b,
                forall|id: Seq<char>| #[trigger]
                    slots@.contains_key(id) <==> has_source(links.take(i as int), id),
                forall|id: Seq<char>| #[trigger]
                    slots@.contains_key(id) ==> texts(lists@[slots@[id] as int]@) == targets_of(
                        links.take(i as int),
                        id,
                    ),
            decreases self.edges.len() - i,
        {
            let edge = &self.edges[i];
            let ghost before = links.take(i as int);
            let ghost after = links.take(i + 1);
            let ghost old_slots = slots@;
            let ghost old_lists = lists@;
            proof {
                assert(after =~= before.push(links[i as int]));
                assert(links[i as int] == (edge.source@, edge.target@));
                assert forall|id: Seq<char>| true implies has_source(after, id) == (has_source(
                    before,
                    id,
                ) || id == edge.source@) by {
                    lemma_targets_of_sources(before, id);
                    lemma_targets_of_sources(after, id);
                    lemma_targets_of_push(before, links[i as int], id);
                }
                assert forall|id: Seq<char>| true implies targets_of(after, id) == if id
                    == edge.source@ {
                    targets_of(before, id).push(edge.target@)
                } else {
                    targets_of(before, id)
                } by {
                    lemma_targets_of_push(before, links[i as int], id);
                }
                lemma_targets_of_sources(before, edge.source@);
            }
            match slots.get(edge.source.as_str()) {
                Some(slot) => {
                    let s = *slot;
                    lists[s].push(edge.target.clone());
                    proof {
                        assert(texts(lists@[s as int]@) =~= texts(old_lists[s as int]@).push(
                            edge.target@,
                        ));
                        assert forall|id: Seq<char>| #[trigger]
                            slots@.contains_key(id) implies texts(lists@[slots@[id] as int]@)
                            == targets_of(after, id) by {
                            if id != edge.source@ {
                                assert(slots@.contains_key(edge.source@));
                                assert(slots@[id] != s);
                                assert(lists@[slots@[id] as int] == old_lists[slots@[id] as int]);
                            }
                        }
                    }
                },
                None => {
                    slots.insert(edge.source.clone(), lists.len());
                    let mut fresh: Vec<String> = Vec::new();
                    fresh.push(edge.target.clone());
                    lists.push(fresh);
                    proof {
                        assert(targets_of(before, edge.source@).len() == 0);
                        assert(texts(fresh@) =~= Seq::<Seq<char>>::empty().push(edge.target@));
                        assert(targets_of(before, edge.source@) =~= Seq::<Seq<char>>::empty());
                        assert forall|id: Seq<char>| #[trigger]
                            slots@.contains_key(id) implies texts(lists@[slots@[id] as int]@)
                            == targets_of(after, id) by {
                            if id != edge.source@ {
                                assert(old_slots.contains_key(id));
                                assert(lists@[slots@[id] as int] == old_lists[slots@[id] as int]);
                            }
                        }
                    }
                },
            }
            i += 1;
        }
        let graph = AdjacencyList { slots, lists };
        proof {
            assert(links.take(i as int) =~= links);
            assert(graph@ =~= adjacency(links));
        }
        graph
    }
}

} // verus!
