//! Building a congress from a parsed configuration.
//!
//! A configuration names members by id. Building checks that every ideal
//! vector has the declared dimension and that every id used by an edge or a
//! party belongs to a member, and turns ids into handles.

use crate::graph::{node_ids, resolve, lemma_resolve, CongressGraph, Node, Party};
use vstd::prelude::*;

verus! {

/// A member as configured.
#[derive(Clone, Debug)]
pub struct RawMember<R> {
    pub id: String,
    pub ideal: Vec<R>,
    pub bias: R,
    pub swing: R,
}

/// A party as configured: its members are named by id.
#[derive(Clone, Debug)]
pub struct RawParty<R> {
    pub id: String,
    pub discipline: R,
    pub members: Vec<String>,
}

/// An influence edge as configured: its ends are named by id.
#[derive(Clone, Debug)]
pub struct RawEdge<R> {
    pub from: String,
    pub to: String,
    pub weight: R,
}

/// A whole configuration.
#[derive(Clone, Debug)]
pub struct RawConfig<R> {
    /// Length that every ideal vector must have.
    pub ideal_dimension: usize,
    pub congress_members: Vec<RawMember<R>>,
    pub parties: Vec<RawParty<R>>,
    pub edges: Option<Vec<RawEdge<R>>>,
}

/// Why a configuration was turned down.
#[derive(Clone, Debug, PartialEq, Eq)]
pub enum LoadError {
    /// A member's ideal vector does not have the declared dimension.
    DimensionMismatch { member: String, found: usize, expected: usize },
    /// An edge starts at an id that no member carries.
    UnknownEdgeSource { id: String },
    /// An edge ends at an id that no member carries.
    UnknownEdgeTarget { id: String },
    /// A party lists an id that no member carries.
    UnknownPartyMember { party: String, member: String },
}

/// Position of the first element of `s` of which `bad` holds.
pub open spec fn first_index<A>(s: Seq<A>, bad: spec_fn(A) -> bool) -> Option<int>
    decreases s.len(),
{
    if s.len() == 0 {
        None
    } else {
        match first_index(s.drop_last(), bad) {
            Some(i) => Some(i),
            None => if bad(s.last()) {
                Some(s.len() - 1)
            } else {
                None
            },
        }
    }
}

/// `first_index` finds an element of which `bad` holds and before which it
/// holds of none; it finds nothing only where `bad` holds of no element.
pub proof fn lemma_first_index<A>(s: Seq<A>, bad: spec_fn(A) -> bool)
    ensures
        match first_index(s, bad) {
            Some(i) => 0 <= i < s.len() && bad(s[i]) && forall|j: int| 0 <= j < i ==> !bad(s[j]),
            None => forall|j: int| 0 <= j < s.len() ==> !bad(s[j]),
        },
    decreases s.len(),
{
    if s.len() > 0 {
        let earlier = s.drop_last();
        lemma_first_index(earlier, bad);
        assert forall|j: int| 0 <= j < earlier.len() implies earlier[j] == s[j] by {}
        match first_index(earlier, bad) {
            Some(i) => {
                assert(bad(earlier[i]));
                assert forall|j: int| 0 <= j < i implies !bad(s[j]) by {
                    assert(!bad(earlier[j]));
                }
            },
            None => {
                assert forall|j: int| 0 <= j < s.len() - 1 implies !bad(s[j]) by {
                    assert(!bad(earlier[j]));
                }
            },
        }
    }
}

/// The ids of the configured members, in order.
pub open spec fn member_ids<R>(members: Seq<RawMember<R>>) -> Seq<Seq<char>> {
    Seq::new(members.len(), |i: int| members[i].id@)
}

/// The member that is built from a configured one.
pub open spec fn node_of<R>(member: RawMember<R>) -> Node<R> {
    Node { id: member.id, ideal: member.ideal, bias: member.bias, swing: member.swing }
}

/// An ideal vector whose length is not `dimension`.
pub open spec fn wrong_dimension<R>(dimension: usize) -> spec_fn(RawMember<R>) -> bool {
    |member: RawMember<R>| member.ideal@.len() != dimension
}

/// A name that no member carries.
pub open spec fn unknown_name(ids: Seq<Seq<char>>) -> spec_fn(String) -> bool {
    |name: String| resolve(ids, name@) is None
}

/// An edge with an end that no member carries.
pub open spec fn dangling_edge<R>(ids: Seq<Seq<char>>) -> spec_fn(RawEdge<R>) -> bool {
    |edge: RawEdge<R>| resolve(ids, edge.from@) is None || resolve(ids, edge.to@) is None
}

/// A party that lists an id that no member carries.
pub open spec fn dangling_party<R>(ids: Seq<Seq<char>>) -> spec_fn(RawParty<R>) -> bool {
    |party: RawParty<R>| first_index(party.members@, unknown_name(ids)) is Some
}

impl<R> RawConfig<R> {
    /// The configured edges; a configuration without an edge list has none.
    pub open spec fn edge_list(self) -> Seq<RawEdge<R>> {
        match self.edges {
            Some(edges) => edges@,
            None => Seq::empty(),
        }
    }

    /// The first fault of the configuration, if it has one. Members are
    /// examined first, then edges (the source before the target), then
    /// parties, each list in its order.
    pub open spec fn fault(self) -> Option<LoadError> {
        let members = self.congress_members@;
        let ids = member_ids(members);
        let edges = self.edge_list();
        let parties = self.parties@;
        match first_index(members, wrong_dimension(self.ideal_dimension)) {
            Some(i) => Some(
                LoadError::DimensionMismatch {
                    member: members[i].id,
                    found: members[i].ideal@.len() as usize,
                    expected: self.ideal_dimension,
                },
            ),
            None => match first_index(edges, dangling_edge(ids)) {
                Some(k) => if resolve(ids, edges[k].from@) is None {
                    Some(LoadError::UnknownEdgeSource { id: edges[k].from })
                } else {
                    Some(LoadError::UnknownEdgeTarget { id: edges[k].to })
                },
                None => match first_index(parties, dangling_party(ids)) {
                    Some(p) => {
                        let names = parties[p].members@;
                        let j = first_index(names, unknown_name(ids)).unwrap();
                        Some(
                            LoadError::UnknownPartyMember {
                                party: parties[p].id,
                                member: names[j],
                            },
                        )
                    },
                    None => None,
                },
            },
        }
    }

    /// Whether `congress` is what the configuration describes: its members
    /// in order, its edges in order with both ends resolved, and its parties
    /// in order with every listed member resolved.
    pub open spec fn describes(self, congress: CongressGraph<R>) -> bool {
        let members = self.congress_members@;
        let ids = member_ids(members);
        let edges = self.edge_list();
        let parties = self.parties@;
        &&& congress.nodes() == Seq::new(members.len(), |i: int| node_of(members[i]))
        &&& congress.edges() == Seq::new(
            edges.len(),
            |k: int|
                (
                    resolve(ids, edges[k].from@).unwrap() as usize,
                    resolve(ids, edges[k].to@).unwrap() as usize,
                    edges[k].weight,
                ),
        )
        &&& congress.parties().len() == parties.len()
        &&& forall|p: int|
            0 <= p < parties.len() ==> {
                let party = #[trigger] congress.parties()[p];
                &&& party.id == parties[p].id
                &&& party.discipline == parties[p].discipline
                &&& party.members@ == Seq::new(
                    parties[p].members@.len(),
                    |j: int| resolve(ids, parties[p].members@[j]@).unwrap() as usize,
                )
            }
    }
}

/// Builds the congress that a configuration describes, or reports the
/// configuration's first fault.
#[verifier::loop_isolation(false)]
pub fn build_congress_graph<R>(raw: RawConfig<R>) -> (result: Result<CongressGraph<R>, LoadError>)
    requires
        raw.congress_members@.len() < u32::MAX,
        raw.edge_list().len() < u32::MAX,
    ensures
        match result {
            Ok(congress) => {
                &&& raw.fault() is None
                &&& congress.wf()
                &&& congress.has_dimension(raw.ideal_dimension)
                &&& raw.describes(congress)
            },
            Err(error) => raw.fault() == Some(error),
        },
{
    let RawConfig { ideal_dimension, congress_members, parties, edges } = raw;
    let ghost members = congress_members@;
    let ghost ids = member_ids(members);
    let ghost edge_list = raw.edge_list();
    let ghost party_list = parties@;

    let mut cg: CongressGraph<R> = CongressGraph::new();

    for rm in it: congress_members.into_iter()
        invariant
            it.seq() == members,
            members.len() < u32::MAX,
            cg.wf(),
            cg.nodes() == Seq::new(it.index() as nat, |i: int| node_of(members[i])),
            cg.edges().len() == 0,
            cg.parties().len() == 0,
            forall|j: int| 0 <= j < it.index() ==> !wrong_dimension::<R>(ideal_dimension)(members[j]),
    {
        if rm.ideal.len() != ideal_dimension {
            proof {
                lemma_first_index(members, wrong_dimension(ideal_dimension));
            }
            return Err(
                LoadError::DimensionMismatch {
                    found: rm.ideal.len(),
                    member: rm.id,
                    expected: ideal_dimension,
                },
            );
        }
        let node = Node { id: rm.id, ideal: rm.ideal, bias: rm.bias, swing: rm.swing };
        cg.add_node(node);
        proof {
            assert(cg.nodes() =~= Seq::new((it.index() + 1) as nat, |i: int| node_of(members[i])));
        }
    }
    proof {
        lemma_first_index(members, wrong_dimension(ideal_dimension));
        assert(node_ids(cg.nodes()) =~= ids);
        assert(cg.edges() =~= Seq::empty());
    }

    if let Some(edges) = edges {
        for e in it: edges.into_iter()
            invariant
                it.seq() == edge_list,
                edge_list.len() < u32::MAX,
                cg.wf(),
                cg.nodes() == Seq::new(members.len(), |i: int| node_of(members[i])),
                node_ids(cg.nodes()) == ids,
                cg.edges() == Seq::new(
                    it.index() as nat,
                    |k: int|
                        (
                            resolve(ids, edge_list[k].from@).unwrap() as usize,
                            resolve(ids, edge_list[k].to@).unwrap() as usize,
                            edge_list[k].weight,
                        ),
                ),
                cg.parties().len() == 0,
                forall|j: int| 0 <= j < it.index() ==> !dangling_edge::<R>(ids)(edge_list[j]),
        {
            proof {
                lemma_resolve(ids, e.from@);
                lemma_resolve(ids, e.to@);
            }
            let from_idx = match cg.find_node(&e.from) {
                Some(handle) => handle,
                None => {
                    proof {
                        lemma_first_index(edge_list, dangling_edge(ids));
                    }
                    return Err(LoadError::UnknownEdgeSource { id: e.from });
                },
            };
            let to_idx = match cg.find_node(&e.to) {
                Some(handle) => handle,
                None => {
                    proof {
                        lemma_first_index(edge_list, dangling_edge(ids));
                    }
                    return Err(LoadError::UnknownEdgeTarget { id: e.to });
                },
            };
            cg.add_edge(from_idx, to_idx, e.weight);
            proof {
                assert(cg.edges() =~= Seq::new(
                    (it.index() + 1) as nat,
                    |k: int|
                        (
                            resolve(ids, edge_list[k].from@).unwrap() as usize,
                            resolve(ids, edge_list[k].to@).unwrap() as usize,
                            edge_list[k].weight,
                        ),
                ));
            }
        }
    }
    proof {
        lemma_first_index(edge_list, dangling_edge(ids));
    }

    for rp in it: parties.into_iter()
        invariant
            it.seq() == party_list,
            cg.wf(),
            cg.nodes() == Seq::new(members.len(), |i: int| node_of(members[i])),
            node_ids(cg.nodes()) == ids,
            cg.edges() == Seq::new(
                edge_list.len(),
                |k: int|
                    (
                        resolve(ids, edge_list[k].from@).unwrap() as usize,
                        resolve(ids, edge_list[k].to@).unwrap() as usize,
                        edge_list[k].weight,
                    ),
            ),
            cg.parties().len() == it.index(),
            forall|p: int|
                0 <= p < it.index() ==> {
                    let party = #[trigger] cg.parties()[p];
                    &&& party.id == party_list[p].id
                    &&& party.discipline == party_list[p].discipline
                    &&& party.members@ == Seq::new(
                        party_list[p].members@.len(),
                        |j: int| resolve(ids, party_list[p].members@[j]@).unwrap() as usize,
                    )
                },
            forall|p: int| 0 <= p < it.index() ==> !dangling_party::<R>(ids)(party_list[p]),
    {
        let ghost names = rp.members@;
        let mut members_idx: Vec<usize> = Vec::with_capacity(rp.members.len());
        for mem_id in inner: rp.members.into_iter()
            invariant
                inner.seq() == names,
                cg.wf(),
                node_ids(cg.nodes()) == ids,
                members_idx@ == Seq::new(
                    inner.index() as nat,
                    |j: int| resolve(ids, names[j]@).unwrap() as usize,
                ),
                forall|j: int| 0 <= j < inner.index() ==> !unknown_name(ids)(names[j]),
                forall|j: int| 0 <= j < inner.index() ==> members_idx@[j] < ids.len(),
        {
            proof {
                lemma_resolve(ids, mem_id@);
            }
            let ni = match cg.find_node(&mem_id) {
                Some(handle) => handle,
                None => {
                    proof {
                        lemma_first_index(names, unknown_name(ids));
                        lemma_first_index(party_list, dangling_party(ids));
                    }
                    return Err(LoadError::UnknownPartyMember { party: rp.id, member: mem_id });
                },
            };
            members_idx.push(ni);
            proof {
                assert(members_idx@ =~= Seq::new(
                    (inner.index() + 1) as nat,
                    |j: int| resolve(ids, names[j]@).unwrap() as usize,
                ));
            }
        }
        proof {
            lemma_first_index(names, unknown_name(ids));
        }
        let party = Party { id: rp.id, discipline: rp.discipline, members: members_idx };
        cg.add_party(party);
    }
    proof {
        lemma_first_index(party_list, dangling_party(ids));
        assert forall|i: int| 0 <= i < cg.nodes().len() implies (#[trigger] cg.nodes()[i]).ideal@.len()
            == ideal_dimension by {
            assert(!wrong_dimension::<R>(ideal_dimension)(members[i]));
        }
    }
    Ok(cg)
}

} // verus!
