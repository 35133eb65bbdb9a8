//! The influence graph: members, weighted influence edges and parties.

use crate::topology::{
    graph_add_edge, graph_add_node, graph_edges, graph_incoming, graph_new, graph_node_count,
    graph_nodes, incoming_of,
};
use petgraph::graph::Graph;
use petgraph::Directed;
use std::collections::HashMap;
use vstd::prelude::*;

verus! {

/// A member of the congress.
#[derive(Clone, Debug, PartialEq)]
pub struct Node<R> {
    /// Identity of the member.
    pub id: String,
    /// The member's ideal policy position.
    pub ideal: Vec<R>,
    /// Fixed personal lean towards or against any proposal.
    pub bias: R,
    /// How readily the member follows social pressure.
    pub swing: R,
}

/// A party: its members and how strongly it binds them.
#[derive(Clone, Debug, PartialEq)]
pub struct Party<R> {
    /// Identity of the party.
    pub id: String,
    /// How strongly the party line pulls a member.
    pub discipline: R,
    /// Handles of the members, in the order given.
    pub members: Vec<usize>,
}

/// The congress: members addressed by stable handles `0, 1, 2, ...`,
/// directed weighted influence edges between them, and parties.
pub struct CongressGraph<R> {
    /// Topology. Node `i` carries `i`, the slot of its member; edge `k`
    /// carries `k`, the slot of its weight.
    graph: Graph<usize, usize, Directed, u32>,
    members: Vec<Node<R>>,
    weights: Vec<R>,
    parties: Vec<Party<R>>,
    node_party_map: HashMap<usize, usize>,
}

/// The party of each member that has one: the index of the last party in
/// `parties` that lists the member.
pub open spec fn membership<R>(parties: Seq<Party<R>>) -> Map<usize, usize>
    decreases parties.len(),
{
    if parties.len() == 0 {
        Map::empty()
    } else {
        let earlier = membership(parties.drop_last());
        let newest = parties.last().members@;
        Map::new(
            |m: usize| newest.contains(m) || earlier.contains_key(m),
            |m: usize|
                if newest.contains(m) {
                    (parties.len() - 1) as usize
                } else {
                    earlier[m]
                },
        )
    }
}

/// The edges whose weight slot has been replaced by the weight itself.
pub open spec fn weighted<R>(links: Seq<(usize, usize, usize)>, weights: Seq<R>) -> Seq<
    (usize, usize, R),
> {
    Seq::new(links.len(), |k: int| (links[k].0, links[k].1, weights[links[k].2 as int]))
}

/// The ids of the members, by handle.
pub open spec fn node_ids<R>(nodes: Seq<Node<R>>) -> Seq<Seq<char>> {
    Seq::new(nodes.len(), |i: int| nodes[i].id@)
}

/// The handle that an id stands for among `ids`: the position of the last
/// member that carries it.
pub open spec fn resolve(ids: Seq<Seq<char>>, id: Seq<char>) -> Option<int>
    decreases ids.len(),
{
    if ids.len() == 0 {
        None
    } else if ids.last() == id {
        Some(ids.len() - 1)
    } else {
        resolve(ids.drop_last(), id)
    }
}

/// What `resolve` finds carries the id, and nothing after it does; where it
/// finds nothing, nothing carries the id.
pub proof fn lemma_resolve(ids: Seq<Seq<char>>, id: Seq<char>)
    ensures
        match resolve(ids, id) {
            Some(i) => 0 <= i < ids.len() && ids[i] == id && forall|j: int|
                i < j < ids.len() ==> ids[j] != id,
            None => forall|j: int| 0 <= j < ids.len() ==> ids[j] != id,
        },
    decreases ids.len(),
{
    if ids.len() > 0 {
        let earlier = ids.drop_last();
        lemma_resolve(earlier, id);
        assert forall|j: int| 0 <= j < earlier.len() implies earlier[j] == ids[j] by {}
        if ids.last() != id {
            match resolve(earlier, id) {
                Some(i) => {
                    assert(ids[i] == earlier[i]);
                    assert forall|j: int| i < j < ids.len() implies ids[j] != id by {
                        if j < earlier.len() {
                            assert(earlier[j] != id);
                        }
                    }
                },
                None => {
                    assert forall|j: int| 0 <= j < ids.len() implies ids[j] != id by {
                        if j < earlier.len() {
                            assert(earlier[j] != id);
                        }
                    }
                },
            }
        }
    }
}

impl<R> CongressGraph<R> {
    /// The members, by handle.
    pub closed spec fn nodes(&self) -> Seq<Node<R>> {
        self.members@
    }

    /// The influence edges in the order in which they were added: source,
    /// target and weight of each.
    pub closed spec fn edges(&self) -> Seq<(usize, usize, R)> {
        weighted(graph_edges(self.graph), self.weights@)
    }

    /// The parties, by party index.
    pub closed spec fn parties(&self) -> Seq<Party<R>> {
        self.parties@
    }

    /// Every member's ideal vector has the length `dimension`.
    pub open spec fn has_dimension(&self, dimension: usize) -> bool {
        forall|i: int|
            0 <= i < self.nodes().len() ==> (#[trigger] self.nodes()[i]).ideal@.len() == dimension
    }

    /// Every edge joins two members, and every party lists members only.
    pub open spec fn references_resolve(&self) -> bool {
        &&& forall|k: int|
            0 <= k < self.edges().len() ==> (#[trigger] self.edges()[k]).0 < self.nodes().len()
                && self.edges()[k].1 < self.nodes().len()
        &&& forall|p: int, j: int|
            0 <= p < self.parties().len() && 0 <= j < self.parties()[p].members@.len()
                ==> #[trigger] self.parties()[p].members@[j] < self.nodes().len()
    }

    /// The invariant of the graph: the topology has one node per member and
    /// one edge per weight, every edge joins two members, every party lists
    /// members only, and the party map is the one the parties induce.
    pub closed spec fn wf(&self) -> bool {
        &&& self.members@.len() <= u32::MAX
        &&& graph_nodes(self.graph) == Seq::new(self.members@.len(), |i: int| i as usize)
        &&& graph_edges(self.graph).len() == self.weights@.len()
        &&& self.weights@.len() <= u32::MAX
        &&& forall|k: int|
            0 <= k < self.weights@.len() ==> {
                let link = #[trigger] graph_edges(self.graph)[k];
                link.0 < self.members@.len() && link.1 < self.members@.len() && link.2 == k
            }
        &&& forall|p: int, j: int|
            0 <= p < self.parties@.len() && 0 <= j < self.parties@[p].members@.len()
                ==> #[trigger] self.parties@[p].members@[j] < self.members@.len()
        &&& self.node_party_map@ == membership(self.parties@)
    }

    /// In a well-formed graph all references resolve, and the graph stays
    /// within the range of its handles.
    pub proof fn lemma_wf(&self)
        requires
            self.wf(),
        ensures
            self.references_resolve(),
            self.nodes().len() <= u32::MAX,
            self.edges().len() <= u32::MAX,
            self.parties().len() <= usize::MAX,
    {
        assert(self.parties@.len() == self.parties.len());
        assert forall|k: int| 0 <= k < self.edges().len() implies (#[trigger] self.edges()[k]).0
            < self.nodes().len() && self.edges()[k].1 < self.nodes().len() by {
            let link = graph_edges(self.graph)[k];
            assert(link.0 < self.members@.len());
        }
    }

    /// Creates an empty congress.
    pub fn new() -> (congress: Self)
        ensures
            congress.wf(),
            congress.nodes().len() == 0,
            congress.edges().len() == 0,
            congress.parties().len() == 0,
    {
        broadcast use vstd::std_specs::hash::group_hash_axioms;

        let congress = CongressGraph {
            graph: graph_new(),
            members: Vec::new(),
            weights: Vec::new(),
            parties: Vec::new(),
            node_party_map: HashMap::new(),
        };
        proof {
            assert(graph_nodes(congress.graph) =~= Seq::new(0, |i: int| i as usize));
            assert(congress.node_party_map@ =~= membership(congress.parties@));
        }
        congress
    }

    /// Number of members.
    pub fn node_count(&self) -> (n: usize)
        requires
            self.wf(),
        ensures
            n == self.nodes().len(),
    {
        graph_node_count(&self.graph)
    }

    /// Adds a member and returns its handle.
    pub fn add_node(&mut self, node: Node<R>) -> (handle: usize)
        requires
            old(self).wf(),
            old(self).nodes().len() < u32::MAX,
        ensures
            final(self).wf(),
            handle == old(self).nodes().len(),
            final(self).nodes() == old(self).nodes().push(node),
            final(self).edges() == old(self).edges(),
            final(self).parties() == old(self).parties(),
    {
        let slot = self.members.len();
        self.members.push(node);
        let handle = graph_add_node(&mut self.graph, slot);
        proof {
            assert(graph_nodes(self.graph) =~= Seq::new(self.members@.len(), |i: int| i as usize));
            assert(self.edges() =~= old(self).edges());
        }
        handle
    }

    /// Number of influence edges.
    pub fn edge_count(&self) -> (n: usize)
        requires
            self.wf(),
        ensures
            n == self.edges().len(),
    {
        self.weights.len()
    }

    /// The member behind a handle.
    pub fn node(&self, node_idx: usize) -> (node: &Node<R>)
        requires
            self.wf(),
            node_idx < self.nodes().len(),
        ensures
            *node == self.nodes()[node_idx as int],
    {
        &self.members[node_idx]
    }

    /// The dimension of the policy space: the length of the first member's
    /// ideal vector. A congress without members has none.
    pub fn ideal_dimension(&self) -> (dimension: Option<usize>)
        requires
            self.wf(),
        ensures
            dimension == if self.nodes().len() == 0 {
                None
            } else {
                Some(self.nodes()[0].ideal@.len() as usize)
            },
    {
        if self.members.len() == 0 {
            None
        } else {
            Some(self.members[0].ideal.len())
        }
    }

    /// Adds an influence edge: the stance of `from` presses on `to` with
    /// the given weight. Parallel edges are kept apart.
    pub fn add_edge(&mut self, from: usize, to: usize, weight: R)
        requires
            old(self).wf(),
            from < old(self).nodes().len(),
            to < old(self).nodes().len(),
            old(self).edges().len() < u32::MAX,
        ensures
            final(self).wf(),
            final(self).nodes() == old(self).nodes(),
            final(self).edges() == old(self).edges().push((from, to, weight)),
            final(self).parties() == old(self).parties(),
    {
        let slot = self.weights.len();
        self.weights.push(weight);
        graph_add_edge(&mut self.graph, from, to, slot);
        proof {
            assert(self.edges() =~= old(self).edges().push((from, to, weight)));
        }
    }

    /// Adds a party and records it as the party of each of its members. A
    /// member that already had a party belongs to the new one from now on.
    pub fn add_party(&mut self, party: Party<R>)
        requires
            old(self).wf(),
            forall|j: int|
                0 <= j < party.members@.len() ==> party.members@[j] < old(self).nodes().len(),
        ensures
            final(self).wf(),
            final(self).nodes() == old(self).nodes(),
            final(self).edges() == old(self).edges(),
            final(self).parties() == old(self).parties().push(party),
    {
        broadcast use vstd::std_specs::hash::group_hash_axioms;

        let party_idx = self.parties.len();
        let ghost before = self.node_party_map@;
        let mut i: usize = 0;
        while i < party.members.len()
            invariant
                i <= party.members@.len(),
                party_idx == self.parties@.len(),
                self.graph == old(self).graph,
                self.members == old(self).members,
                self.weights == old(self).weights,
                self.parties == old(self).parties,
                self.node_party_map@ == Map::new(
                    |m: usize| party.members@.take(i as int).contains(m) || before.contains_key(m),
                    |m: usize|
                        if party.members@.take(i as int).contains(m) {
                            party_idx
                        } else {
                            before[m]
                        },
                ),
            decreases party.members@.len() - i,
        {
            let member = party.members[i];
            self.node_party_map.insert(member, party_idx);
            proof {
                let upto = party.members@.take(i as int);
                let next = party.members@.take(i + 1);
                assert(next == upto.push(member));
                assert forall|m: usize| next.contains(m) <==> (upto.contains(m) || m == member) by {
                    if upto.contains(m) {
                        let j = choose|j: int| 0 <= j < upto.len() && upto[j] == m;
                        assert(next[j] == m);
                    }
                    if m == member {
                        assert(next[i as int] == m);
                    }
                }
                assert(self.node_party_map@ =~= Map::new(
                    |m: usize| next.contains(m) || before.contains_key(m),
                    |m: usize|
                        if next.contains(m) {
                            party_idx
                        } else {
                            before[m]
                        },
                ));
            }
            i += 1;
        }
        self.parties.push(party);
        proof {
            assert(party.members@.take(party.members@.len() as int) == party.members@);
            assert(self.parties@.drop_last() == old(self).parties@);
            assert(self.parties@.last() == party);
            assert(self.node_party_map@ =~= membership(self.parties@));
            assert forall|p: int, j: int|
                0 <= p < self.parties@.len() && 0 <= j < self.parties@[p].members@.len()
                    implies #[trigger] self.parties@[p].members@[j] < self.members@.len() by {
                if p < old(self).parties@.len() {
                    assert(self.parties@[p] == old(self).parties@[p]);
                    assert(old(self).parties@[p].members@[j] < old(self).members@.len());
                } else {
                    assert(self.parties@[p] == party);
                }
            }
        }
    }

    /// The handle of the member with the given id. Where several members
    /// carry the id, the one added last is meant.
    pub fn find_node(&self, id: &String) -> (handle: Option<usize>)
        requires
            self.wf(),
        ensures
            handle == match resolve(node_ids(self.nodes()), id@) {
                Some(i) => Some(i as usize),
                None => None,
            },
    {
        let ghost ids = node_ids(self.members@);
        let mut i: usize = self.members.len();
        proof {
            assert(ids.take(i as int) == ids);
        }
        while i > 0
            invariant
                i <= self.members@.len(),
                ids == node_ids(self.members@),
                resolve(ids, id@) == resolve(ids.take(i as int), id@),
            decreases i,
        {
            i -= 1;
            proof {
                assert(ids.take(i + 1).drop_last() == ids.take(i as int));
                assert(ids.take(i + 1).last() == self.members@[i as int].id@);
            }
            if self.members[i].id == *id {
                return Some(i);
            }
        }
        None
    }

    /// Index of the party that a member belongs to, if it has one.
    pub fn get_party_index(&self, node_idx: usize) -> (party_idx: Option<usize>)
        requires
            self.wf(),
        ensures
            party_idx == if membership(self.parties()).contains_key(node_idx) {
                Some(membership(self.parties())[node_idx])
            } else {
                None
            },
    {
        broadcast use vstd::std_specs::hash::group_hash_axioms;

        match self.node_party_map.get(&node_idx) {
            Some(party_idx) => Some(*party_idx),
            None => None,
        }
    }

    /// The party at an index, if there is one.
    pub fn get_party(&self, party_idx: usize) -> (party: Option<&Party<R>>)
        requires
            self.wf(),
        ensures
            party == if party_idx < self.parties().len() {
                Some(&self.parties()[party_idx as int])
            } else {
                None
            },
    {
        if party_idx < self.parties.len() {
            Some(&self.parties[party_idx])
        } else {
            None
        }
    }
}

/// A member's party is one of the parties, lists the member, and is the
/// last party to do so.
pub proof fn lemma_membership<R>(parties: Seq<Party<R>>, member: usize)
    requires
        parties.len() <= usize::MAX,
    ensures
        membership(parties).contains_key(member) <==> exists|p: int|
            0 <= p < parties.len() && (#[trigger] parties[p]).members@.contains(member),
        membership(parties).contains_key(member) ==> {
            let own = membership(parties)[member] as int;
            &&& 0 <= own < parties.len()
            &&& parties[own].members@.contains(member)
            &&& forall|p: int|
                own < p < parties.len() ==> !(#[trigger] parties[p]).members@.contains(member)
        },
    decreases parties.len(),
{
    if parties.len() > 0 {
        let earlier = parties.drop_last();
        lemma_membership(earlier, member);
        assert forall|p: int| 0 <= p < earlier.len() implies earlier[p] == parties[p] by {}
        if parties.last().members@.contains(member) {
            assert(parties[parties.len() - 1].members@.contains(member));
        } else if membership(earlier).contains_key(member) {
            let p = choose|p: int|
                0 <= p < earlier.len() && (#[trigger] earlier[p]).members@.contains(member);
            assert(parties[p].members@.contains(member));
            let own = membership(earlier)[member] as int;
            assert(parties[own] == earlier[own]);
            assert forall|p: int| own < p < parties.len() implies !(#[trigger] parties[p]).members@.contains(
                member,
            ) by {
                if p < earlier.len() {
                    assert(earlier[p] == parties[p]);
                }
            }
        } else {
            assert forall|p: int| 0 <= p < parties.len() implies !(#[trigger] parties[p]).members@.contains(
                member,
            ) by {
                if p < earlier.len() {
                    assert(earlier[p] == parties[p]);
                }
            }
        }
    }
}

/// Every edge that points to a node is one of the edges: its source is the
/// source of an edge.
pub proof fn lemma_incoming_sources<E>(edges: Seq<(usize, usize, E)>, node: usize, bound: int)
    requires
        forall|k: int| 0 <= k < edges.len() ==> (#[trigger] edges[k]).0 < bound,
    ensures
        forall|j: int|
            0 <= j < incoming_of(edges, node).len() ==> (#[trigger] incoming_of(edges, node)[j]).0
                < bound,
    decreases edges.len(),
{
    if edges.len() > 0 {
        let earlier = edges.drop_last();
        assert forall|k: int| 0 <= k < earlier.len() implies (#[trigger] earlier[k]).0 < bound by {
            assert(0 <= k < edges.len());
            assert(earlier[k] == edges[k]);
        }
        lemma_incoming_sources(earlier, node, bound);
        let last = edges[edges.len() - 1];
        assert(last.0 < bound);
        let found = incoming_of(edges, node);
        let before = incoming_of(earlier, node);
        assert(found == if last.1 == node {
            seq![(last.0, last.2)] + before
        } else {
            before
        });
        assert forall|j: int| 0 <= j < found.len() implies (#[trigger] found[j]).0 < bound by {
            if last.1 == node && j > 0 {
                assert(found[j] == before[j - 1]);
            }
        }
    }
}

/// Replacing weight slots by weights commutes with picking the edges that
/// point to a node.
proof fn lemma_incoming_weighted<R>(links: Seq<(usize, usize, usize)>, weights: Seq<R>, node: usize)
    requires
        forall|k: int| 0 <= k < links.len() ==> (#[trigger] links[k]).2 < weights.len(),
    ensures
        incoming_of(weighted(links, weights), node).len() == incoming_of(links, node).len(),
        forall|j: int|
            0 <= j < incoming_of(links, node).len() ==> {
                let found = #[trigger] incoming_of(links, node)[j];
                &&& found.1 < weights.len()
                &&& incoming_of(weighted(links, weights), node)[j] == (
                    found.0,
                    weights[found.1 as int],
                )
            },
    decreases links.len(),
{
    if links.len() > 0 {
        lemma_incoming_weighted(links.drop_last(), weights, node);
        assert(weighted(links, weights).drop_last() =~= weighted(links.drop_last(), weights));
        assert(links.last() == links[links.len() - 1]);
    }
}

impl<R: Copy> CongressGraph<R> {
    /// Source and weight of every edge that points to a member, the edge
    /// added last first.
    pub fn incoming(&self, node_idx: usize) -> (found: Vec<(usize, R)>)
        requires
            self.wf(),
            node_idx < self.nodes().len(),
        ensures
            found@ == incoming_of(self.edges(), node_idx),
    {
        let links = graph_incoming(&self.graph, node_idx);
        proof {
            lemma_incoming_weighted(graph_edges(self.graph), self.weights@, node_idx);
        }
        let mut found: Vec<(usize, R)> = Vec::new();
        let mut i: usize = 0;
        while i < links.len()
            invariant
                i <= links@.len(),
                found@.len() == i,
                links@ == incoming_of(graph_edges(self.graph), node_idx),
                forall|j: int| 0 <= j < links@.len() ==> (#[trigger] links@[j]).1 < self.weights@.len(),
                forall|j: int|
                    0 <= j < i ==> #[trigger] found@[j] == (
                        links@[j].0,
                        self.weights@[links@[j].1 as int],
                    ),
            decreases links@.len() - i,
        {
            let link = links[i];
            found.push((link.0, self.weights[link.1]));
            i += 1;
        }
        proof {
            assert(found@ =~= incoming_of(self.edges(), node_idx));
        }
        found
    }
}

} // verus!
