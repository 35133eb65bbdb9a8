//! What a run does to the scores, as relations between values, and what
//! follows from them.
//!
//! A visit to a member reads the member's swing and score, the weights of
//! the edges that point to the member with the scores of their sources, and
//! the scores of the member's party. The update rule, a function of the
//! caller, makes the member's new score of these. The relations below say
//! which scores a visit, a round and a sequence of rounds can lead to under
//! a given update rule; the laws hold for every update rule and every kind
//! of score.

use crate::graph::{lemma_membership, membership, CongressGraph, Party};
use crate::majority::Vote;
use crate::order::is_round_order;
use crate::topology::incoming_of;
use vstd::prelude::*;

verus! {

/// What a visit to `node` reads for peer pressure: for every edge that
/// points to `node`, the edge added last first, the edge's weight and the
/// current score of its source.
pub open spec fn peer_inputs_of<R>(
    edges: Seq<(usize, usize, R)>,
    scores: Seq<R>,
    node: usize,
) -> Seq<(R, R)> {
    let found = incoming_of(edges, node);
    Seq::new(found.len(), |j: int| (found[j].1, scores[found[j].0 as int]))
}

/// What a visit to `node` reads for party pressure: nothing where the
/// member has no party, else the party's discipline and the current score
/// of every listed member, in the order of the list.
pub open spec fn party_inputs_of<R>(parties: Seq<Party<R>>, scores: Seq<R>, node: usize) -> Option<
    (R, Seq<R>),
> {
    if membership(parties).contains_key(node) {
        let party = parties[membership(parties)[node] as int];
        Some(
            (
                party.discipline,
                Seq::new(party.members@.len(), |j: int| scores[party.members@[j] as int]),
            ),
        )
    } else {
        None
    }
}

/// What a visit to a member reads.
pub struct Visit<R> {
    /// The member's swing.
    pub swing: R,
    /// The member's current score.
    pub score: R,
    /// For every edge that points to the member, the edge added last first:
    /// the edge's weight and the current score of its source.
    pub peers: Vec<(R, R)>,
    /// Where the member has a party: the party's discipline and the current
    /// score of each of its members, in the order in which it lists them.
    pub party: Option<(R, Vec<R>)>,
}

/// What a visit reads, as a value.
pub struct VisitView<R> {
    pub swing: R,
    pub score: R,
    pub peers: Seq<(R, R)>,
    pub party: Option<(R, Seq<R>)>,
}

impl<R> View for Visit<R> {
    type V = VisitView<R>;

    open spec fn view(&self) -> VisitView<R> {
        VisitView {
            swing: self.swing,
            score: self.score,
            peers: self.peers@,
            party: match self.party {
                Some((discipline, scores)) => Some((discipline, scores@)),
                None => None,
            },
        }
    }
}

impl<R> Visit<R> {
    /// A party that a visit reads from is not empty: it lists at least the
    /// visited member. An update rule need not be prepared for any other
    /// visit.
    pub open spec fn has_members_in_party(&self) -> bool {
        self.party matches Some((_, scores)) ==> scores@.len() > 0
    }
}

/// What a visit to `node` reads when the scores are `scores`.
pub open spec fn reads_of<R>(graph: CongressGraph<R>, scores: Seq<R>, node: usize) -> VisitView<R> {
    VisitView {
        swing: graph.nodes()[node as int].swing,
        score: scores[node as int],
        peers: peer_inputs_of(graph.edges(), scores, node),
        party: party_inputs_of(graph.parties(), scores, node),
    }
}

/// A visit to `node` can lead from the scores `before` to the scores
/// `after`: only the score of `node` differs, and the new one is a result of
/// `update` on what the visit reads.
pub open spec fn visit_leads<R, U: Fn(Visit<R>) -> R>(
    graph: CongressGraph<R>,
    update: U,
    before: Seq<R>,
    node: usize,
    after: Seq<R>,
) -> bool {
    &&& node < before.len()
    &&& after == before.update(node as int, after[node as int])
    &&& exists|visit: Visit<R>|
        visit@ == reads_of(graph, before, node) && #[trigger] call_ensures(
            update,
            (visit,),
            after[node as int],
        )
}

/// Visiting the members `order` one after the other can lead from `before`
/// to `after`.
pub open spec fn round_leads<R, U: Fn(Visit<R>) -> R>(
    graph: CongressGraph<R>,
    update: U,
    before: Seq<R>,
    order: Seq<usize>,
    after: Seq<R>,
) -> bool
    decreases order.len(),
{
    if order.len() == 0 {
        after == before
    } else {
        exists|mid: Seq<R>|
            round_leads(graph, update, before, order.drop_last(), mid) && #[trigger] visit_leads(
                graph,
                update,
                mid,
                order.last(),
                after,
            )
    }
}

/// Going through the rounds `rounds` one after the other can lead from
/// `before` to `after`.
pub open spec fn rounds_lead<R, U: Fn(Visit<R>) -> R>(
    graph: CongressGraph<R>,
    update: U,
    before: Seq<R>,
    rounds: Seq<Vec<usize>>,
    after: Seq<R>,
) -> bool
    decreases rounds.len(),
{
    if rounds.len() == 0 {
        after == before
    } else {
        exists|mid: Seq<R>|
            rounds_lead(graph, update, before, rounds.drop_last(), mid) && #[trigger] round_leads(
                graph,
                update,
                mid,
                rounds.last()@,
                after,
            )
    }
}

/// `vote` is a vote that `compare` lets a member with score `score` cast:
/// `compare` says whether the score lies above the threshold and whether it
/// lies below the threshold's negative.
pub open spec fn vote_follows<R, C: Fn(R) -> (bool, bool)>(
    compare: C,
    score: R,
    vote: Vote,
) -> bool {
    exists|standing: (bool, bool)|
        #[trigger] call_ensures(compare, (score,), standing) && vote == Vote::spec_decide(
            standing.0,
            standing.1,
        )
}

/// Every handle in the rounds belongs to one of `members` members.
pub open spec fn handles_in_range(rounds: Seq<Vec<usize>>, members: nat) -> bool {
    forall|r: int, i: int|
        0 <= r < rounds.len() && 0 <= i < rounds[r]@.len() ==> #[trigger] rounds[r]@[i] < members
}

/// No edge among `edges` that points elsewhere points to `node`.
proof fn lemma_no_incoming<E>(edges: Seq<(usize, usize, E)>, node: usize)
    requires
        forall|k: int| 0 <= k < edges.len() ==> (#[trigger] edges[k]).1 != node,
    ensures
        incoming_of(edges, node).len() == 0,
    decreases edges.len(),
{
    if edges.len() > 0 {
        let earlier = edges.drop_last();
        assert forall|k: int| 0 <= k < earlier.len() implies (#[trigger] earlier[k]).1 != node by {
            assert(0 <= k < edges.len());
            assert(earlier[k] == edges[k]);
        }
        lemma_no_incoming(earlier, node);
        assert(edges[edges.len() - 1].1 != node);
    }
}

/// A member that no edge points to and that no party lists reads nothing
/// but its own swing and score when it is visited, whatever the scores are.
pub proof fn lemma_isolated_member_reads_nothing<R>(
    graph: CongressGraph<R>,
    scores: Seq<R>,
    node: usize,
)
    requires
        graph.parties().len() <= usize::MAX,
        forall|k: int| 0 <= k < graph.edges().len() ==> (#[trigger] graph.edges()[k]).1 != node,
        forall|p: int|
            0 <= p < graph.parties().len() ==> !(#[trigger] graph.parties()[p]).members@.contains(
                node,
            ),
    ensures
        reads_of(graph, scores, node).peers.len() == 0,
        reads_of(graph, scores, node).party is None,
{
    lemma_no_incoming(graph.edges(), node);
    lemma_membership(graph.parties(), node);
}

/// No round changes the number of scores.
proof fn lemma_round_keeps_length<R, U: Fn(Visit<R>) -> R>(
    graph: CongressGraph<R>,
    update: U,
    before: Seq<R>,
    order: Seq<usize>,
    after: Seq<R>,
)
    requires
        round_leads(graph, update, before, order, after),
    ensures
        after.len() == before.len(),
    decreases order.len(),
{
    if order.len() > 0 {
        let mid = choose|mid: Seq<R>|
            round_leads(graph, update, before, order.drop_last(), mid) && #[trigger] visit_leads(
                graph,
                update,
                mid,
                order.last(),
                after,
            );
        lemma_round_keeps_length(graph, update, before, order.drop_last(), mid);
    }
}

/// Stubborn members: where every member's swing is `still`, and where the
/// update rule hands back the score it was given whenever the swing is
/// `still`, a round changes no score.
proof fn lemma_still_round<R, U: Fn(Visit<R>) -> R>(
    graph: CongressGraph<R>,
    update: U,
    still: R,
    before: Seq<R>,
    order: Seq<usize>,
    after: Seq<R>,
)
    requires
        before.len() == graph.nodes().len(),
        forall|m: int|
            0 <= m < graph.nodes().len() ==> (#[trigger] graph.nodes()[m]).swing == still,
        forall|visit: Visit<R>, score: R|
            visit.swing == still && #[trigger] call_ensures(update, (visit,), score) ==> score
                == visit.score,
        round_leads(graph, update, before, order, after),
    ensures
        after == before,
    decreases order.len(),
{
    if order.len() > 0 {
        let mid = choose|mid: Seq<R>|
            round_leads(graph, update, before, order.drop_last(), mid) && #[trigger] visit_leads(
                graph,
                update,
                mid,
                order.last(),
                after,
            );
        lemma_still_round(graph, update, still, before, order.drop_last(), mid);
        let node = order.last();
        let visit = choose|visit: Visit<R>|
            visit@ == reads_of(graph, mid, node) && #[trigger] call_ensures(
                update,
                (visit,),
                after[node as int],
            );
        assert(visit.swing == graph.nodes()[node as int].swing);
        assert(after[node as int] == mid[node as int]);
        assert(after =~= mid);
    }
}

/// Stubborn members: where every member's swing is `still`, and where the
/// update rule hands back the score it was given whenever the swing is
/// `still`, the scores after any number of rounds are the scores before.
pub proof fn lemma_still_members_keep_scores<R, U: Fn(Visit<R>) -> R>(
    graph: CongressGraph<R>,
    update: U,
    still: R,
    before: Seq<R>,
    rounds: Seq<Vec<usize>>,
    after: Seq<R>,
)
    requires
        before.len() == graph.nodes().len(),
        forall|m: int|
            0 <= m < graph.nodes().len() ==> (#[trigger] graph.nodes()[m]).swing == still,
        forall|visit: Visit<R>, score: R|
            visit.swing == still && #[trigger] call_ensures(update, (visit,), score) ==> score
                == visit.score,
        rounds_lead(graph, update, before, rounds, after),
    ensures
        after == before,
    decreases rounds.len(),
{
    if rounds.len() > 0 {
        let mid = choose|mid: Seq<R>|
            rounds_lead(graph, update, before, rounds.drop_last(), mid) && #[trigger] round_leads(
                graph,
                update,
                mid,
                rounds.last()@,
                after,
            );
        lemma_still_members_keep_scores(graph, update, still, before, rounds.drop_last(), mid);
        lemma_still_round(graph, update, still, mid, rounds.last()@, after);
    }
}

/// Members under no pressure: in a congress without edges, in which no
/// party lists a member, where every member's swing is `eager` and the
/// update rule answers `rest` whenever the swing is `eager` and nothing
/// presses on the member, a round leaves `rest` with every member it visits
/// and keeps the other scores.
proof fn lemma_unpressed_round<R, U: Fn(Visit<R>) -> R>(
    graph: CongressGraph<R>,
    update: U,
    eager: R,
    rest: R,
    before: Seq<R>,
    order: Seq<usize>,
    after: Seq<R>,
)
    requires
        graph.edges().len() == 0,
        graph.parties().len() <= usize::MAX,
        forall|p: int|
            0 <= p < graph.parties().len() ==> (#[trigger] graph.parties()[p]).members@.len() == 0,
        before.len() == graph.nodes().len(),
        before.len() <= usize::MAX,
        forall|m: int|
            0 <= m < graph.nodes().len() ==> (#[trigger] graph.nodes()[m]).swing == eager,
        forall|visit: Visit<R>, score: R|
            visit.swing == eager && visit.peers@.len() == 0 && visit.party is None
                && #[trigger] call_ensures(update, (visit,), score) ==> score == rest,
        round_leads(graph, update, before, order, after),
    ensures
        after.len() == before.len(),
        forall|i: int|
            0 <= i < after.len() ==> #[trigger] after[i] == if order.contains(i as usize) {
                rest
            } else {
                before[i]
            },
    decreases order.len(),
{
    if order.len() > 0 {
        let earlier = order.drop_last();
        let node = order.last();
        let mid = choose|mid: Seq<R>|
            round_leads(graph, update, before, earlier, mid) && #[trigger] visit_leads(
                graph,
                update,
                mid,
                node,
                after,
            );
        lemma_unpressed_round(graph, update, eager, rest, before, earlier, mid);
        lemma_round_keeps_length(graph, update, before, earlier, mid);
        let visit = choose|visit: Visit<R>|
            visit@ == reads_of(graph, mid, node) && #[trigger] call_ensures(
                update,
                (visit,),
                after[node as int],
            );
        lemma_isolated_member_reads_nothing(graph, mid, node);
        assert(visit.swing == graph.nodes()[node as int].swing);
        assert(visit@.peers.len() == 0);
        assert(after[node as int] == rest);
        assert forall|i: int| 0 <= i < after.len() implies #[trigger] after[i] == if order.contains(
            i as usize,
        ) {
            rest
        } else {
            before[i]
        } by {
            assert(order[order.len() - 1] == node);
            if i == node {
                assert(order.contains(i as usize));
            } else if earlier.contains(i as usize) {
                let j = choose|j: int| 0 <= j < earlier.len() && earlier[j] == i as usize;
                assert(order[j] == i as usize);
            } else {
                if order.contains(i as usize) {
                    let j = choose|j: int| 0 <= j < order.len() && order[j] == i as usize;
                    assert(j < earlier.len());
                    assert(earlier[j] == i as usize);
                }
            }
        }
    }
}

/// Members under no pressure: in a congress without edges, in which no
/// party lists a member, where every member's swing is `eager` and the
/// update rule answers `rest` whenever the swing is `eager` and nothing
/// presses on the member, every score is `rest` after one round, and after
/// any number of rounds more.
pub proof fn lemma_unpressed_members_come_to_rest<R, U: Fn(Visit<R>) -> R>(
    graph: CongressGraph<R>,
    update: U,
    eager: R,
    rest: R,
    before: Seq<R>,
    rounds: Seq<Vec<usize>>,
    after: Seq<R>,
)
    requires
        graph.wf(),
        graph.edges().len() == 0,
        forall|p: int|
            0 <= p < graph.parties().len() ==> (#[trigger] graph.parties()[p]).members@.len() == 0,
        before.len() == graph.nodes().len(),
        forall|m: int|
            0 <= m < graph.nodes().len() ==> (#[trigger] graph.nodes()[m]).swing == eager,
        forall|visit: Visit<R>, score: R|
            visit.swing == eager && visit.peers@.len() == 0 && visit.party is None
                && #[trigger] call_ensures(update, (visit,), score) ==> score == rest,
        rounds.len() > 0,
        forall|r: int|
            0 <= r < rounds.len() ==> is_round_order(
                (#[trigger] rounds[r])@,
                graph.nodes().len(),
            ),
        rounds_lead(graph, update, before, rounds, after),
    ensures
        after == Seq::new(before.len(), |i: int| rest),
{
    let mid = choose|mid: Seq<R>|
        rounds_lead(graph, update, before, rounds.drop_last(), mid) && #[trigger] round_leads(
            graph,
            update,
            mid,
            rounds.last()@,
            after,
        );
    graph.lemma_wf();
    lemma_rounds_keep_length(graph, update, before, rounds.drop_last(), mid);
    lemma_unpressed_round(graph, update, eager, rest, mid, rounds.last()@, after);
    assert(is_round_order(rounds[rounds.len() - 1]@, graph.nodes().len()));
    assert(after =~= Seq::new(before.len(), |i: int| rest));
}

/// No number of rounds changes the number of scores.
proof fn lemma_rounds_keep_length<R, U: Fn(Visit<R>) -> R>(
    graph: CongressGraph<R>,
    update: U,
    before: Seq<R>,
    rounds: Seq<Vec<usize>>,
    after: Seq<R>,
)
    requires
        rounds_lead(graph, update, before, rounds, after),
    ensures
        after.len() == before.len(),
    decreases rounds.len(),
{
    if rounds.len() > 0 {
        let mid = choose|mid: Seq<R>|
            rounds_lead(graph, update, before, rounds.drop_last(), mid) && #[trigger] round_leads(
                graph,
                update,
                mid,
                rounds.last()@,
                after,
            );
        lemma_rounds_keep_length(graph, update, before, rounds.drop_last(), mid);
        lemma_round_keeps_length(graph, update, mid, rounds.last()@, after);
    }
}

} // verus!
