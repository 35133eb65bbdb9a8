//! One run of the simulation.
//!
//! A run keeps one score and one vote per member. Each round visits every
//! member once, in a freshly shuffled order, and a visit stores the
//! member's new score at once, so that later visits of the same round
//! already see it. When the rounds are over, every score is compared with
//! the threshold and the votes are cast.
//!
//! The simulator decides who is visited when, what a visit reads and where
//! its result goes. The update rule and the comparison are functions of the
//! caller: they alone compute with scores.

use crate::dynamics::{
    handles_in_range, party_inputs_of, peer_inputs_of, reads_of, round_leads, rounds_lead,
    visit_leads, vote_follows, Visit,
};
use crate::graph::{
    lemma_incoming_sources, lemma_membership, lemma_resolve, node_ids, resolve, CongressGraph,
    Node,
};
use crate::majority::{count_votes, rule_met, Majority, Tally, Vote};
use crate::order::{draw_round_order, is_round_order};
use vstd::prelude::*;

verus! {

/// The state of a run as a value.
pub struct SimulatorView<R> {
    /// The proposal under vote.
    pub proposal: Seq<R>,
    /// Current score of each member, by handle.
    pub scores: Seq<R>,
    /// Vote of each member, by handle.
    pub votes: Seq<Vote>,
}

/// One run of the simulation on a congress, for one proposal.
pub struct Simulator<'a, R> {
    congress: &'a CongressGraph<R>,
    proposal: Vec<R>,
    scores: Vec<R>,
    votes: Vec<Vote>,
}

impl<'a, R> View for Simulator<'a, R> {
    type V = SimulatorView<R>;

    closed spec fn view(&self) -> SimulatorView<R> {
        SimulatorView { proposal: self.proposal@, scores: self.scores@, votes: self.votes@ }
    }
}

impl<'a, R: Copy> Simulator<'a, R> {
    /// The congress that the run is about.
    pub closed spec fn graph(&self) -> CongressGraph<R> {
        *self.congress
    }

    /// The invariant of a run: the congress is well-formed, and every
    /// member has a score and a vote.
    pub open spec fn wf(&self) -> bool {
        &&& self.graph().wf()
        &&& self@.scores.len() == self.graph().nodes().len()
        &&& self@.votes.len() == self.graph().nodes().len()
    }

    /// Starts a run for a proposal. The initial score of each member is what
    /// `initial_score` makes of the member and the proposal. Every member
    /// abstains until votes are cast.
    pub fn new<F: Fn(&Node<R>, &Vec<R>) -> R>(
        congress: &'a CongressGraph<R>,
        proposal: Vec<R>,
        initial_score: F,
    ) -> (sim: Self)
        requires
            congress.wf(),
            forall|i: int|
                0 <= i < congress.nodes().len() ==> call_requires(
                    initial_score,
                    (&#[trigger] congress.nodes()[i], &proposal),
                ),
        ensures
            sim.wf(),
            sim.graph() == *congress,
            sim@.proposal == proposal@,
            forall|i: int|
                0 <= i < congress.nodes().len() ==> call_ensures(
                    initial_score,
                    (&congress.nodes()[i], &proposal),
                    #[trigger] sim@.scores[i],
                ),
            sim@.votes == Seq::new(congress.nodes().len(), |i: int| Vote::Abstain),
    {
        let node_count = congress.node_count();
        let mut scores: Vec<R> = Vec::new();
        let mut votes: Vec<Vote> = Vec::new();
        let mut i: usize = 0;
        while i < node_count
            invariant
                i <= node_count,
                congress.wf(),
                node_count == congress.nodes().len(),
                forall|j: int|
                    0 <= j < congress.nodes().len() ==> call_requires(
                        initial_score,
                        (&#[trigger] congress.nodes()[j], &proposal),
                    ),
                scores@.len() == i,
                forall|j: int|
                    0 <= j < i ==> call_ensures(
                        initial_score,
                        (&congress.nodes()[j], &proposal),
                        #[trigger] scores@[j],
                    ),
                votes@ == Seq::new(i as nat, |j: int| Vote::Abstain),
            decreases node_count - i,
        {
            scores.push(initial_score(congress.node(i), &proposal));
            votes.push(Vote::Abstain);
            i += 1;
            proof {
                assert(votes@ =~= Seq::new(i as nat, |j: int| Vote::Abstain));
            }
        }
        Simulator { congress, proposal, scores, votes }
    }

    /// The congress that the run is about.
    pub fn congress(&self) -> (congress: &'a CongressGraph<R>)
        ensures
            *congress == self.graph(),
    {
        self.congress
    }

    /// The proposal under vote.
    pub fn proposal(&self) -> (proposal: &Vec<R>)
        ensures
            proposal@ == self@.proposal,
    {
        &self.proposal
    }

    /// The visiting orders of `max_rounds` rounds, each drawn at random.
    pub fn schedule(&self, max_rounds: usize) -> (rounds: Vec<Vec<usize>>)
        requires
            self.wf(),
        ensures
            rounds@.len() == max_rounds,
            forall|r: int|
                0 <= r < rounds@.len() ==> is_round_order(
                    (#[trigger] rounds@[r])@,
                    self.graph().nodes().len(),
                ),
    {
        let mut rng = rand::thread_rng();
        let node_count = self.congress.node_count();
        let mut rounds: Vec<Vec<usize>> = Vec::new();
        let mut round: usize = 0;
        while round < max_rounds
            invariant
                round <= max_rounds,
                rounds@.len() == round,
                node_count == self.graph().nodes().len(),
                forall|r: int|
                    0 <= r < rounds@.len() ==> is_round_order(
                        (#[trigger] rounds@[r])@,
                        node_count as nat,
                    ),
            decreases max_rounds - round,
        {
            let order = draw_round_order(node_count, &mut rng);
            rounds.push(order);
            round += 1;
        }
        rounds
    }

    /// What a visit to a member reads for peer pressure.
    pub fn peer_inputs(&self, node_idx: usize) -> (inputs: Vec<(R, R)>)
        requires
            self.wf(),
            node_idx < self.graph().nodes().len(),
        ensures
            inputs@ == peer_inputs_of(self.graph().edges(), self@.scores, node_idx),
    {
        let found = self.congress.incoming(node_idx);
        proof {
            self.congress.lemma_wf();
            lemma_incoming_sources(
                self.congress.edges(),
                node_idx,
                self.congress.nodes().len() as int,
            );
        }
        let mut inputs: Vec<(R, R)> = Vec::new();
        let mut i: usize = 0;
        while i < found.len()
            invariant
                i <= found@.len(),
                inputs@.len() == i,
                self.scores@.len() == self.congress.nodes().len(),
                forall|j: int| 0 <= j < found@.len() ==> (#[trigger] found@[j]).0 < self.scores@.len(),
                forall|j: int|
                    0 <= j < i ==> #[trigger] inputs@[j] == (
                        found@[j].1,
                        self.scores@[found@[j].0 as int],
                    ),
            decreases found@.len() - i,
        {
            let (source, weight) = found[i];
            inputs.push((weight, self.scores[source]));
            i += 1;
        }
        proof {
            assert(inputs@ =~= peer_inputs_of(self.graph().edges(), self@.scores, node_idx));
        }
        inputs
    }

    /// What a visit to a member reads for party pressure. The scores that
    /// come back are never empty: the member's own party lists the member.
    pub fn party_inputs(&self, node_idx: usize) -> (inputs: Option<(R, Vec<R>)>)
        requires
            self.wf(),
        ensures
            match inputs {
                Some((discipline, scores)) => scores@.len() > 0 && party_inputs_of(
                    self.graph().parties(),
                    self@.scores,
                    node_idx,
                ) == Some((discipline, scores@)),
                None => party_inputs_of(self.graph().parties(), self@.scores, node_idx) is None,
            },
    {
        let party_idx = match self.congress.get_party_index(node_idx) {
            Some(party_idx) => party_idx,
            None => {
                return None;
            },
        };
        proof {
            self.congress.lemma_wf();
            lemma_membership(self.congress.parties(), node_idx);
        }
        match self.congress.get_party(party_idx) {
            Some(party) => {
                let mut scores: Vec<R> = Vec::new();
                let mut j: usize = 0;
                while j < party.members.len()
                    invariant
                        j <= party.members@.len(),
                        scores@.len() == j,
                        forall|k: int|
                            0 <= k < party.members@.len() ==> (#[trigger] party.members@[k])
                                < self.scores@.len(),
                        forall|k: int|
                            0 <= k < j ==> #[trigger] scores@[k] == self.scores@[party.members@[k] as int],
                    decreases party.members@.len() - j,
                {
                    scores.push(self.scores[party.members[j]]);
                    j += 1;
                }
                proof {
                    assert(scores@ =~= Seq::new(
                        party.members@.len(),
                        |k: int| self.scores@[party.members@[k] as int],
                    ));
                }
                Some((party.discipline, scores))
            },
            None => None,
        }
    }

    /// Visits a member: reads what the visit reads, and stores as the
    /// member's score what `update` makes of it.
    pub fn visit<U: Fn(Visit<R>) -> R>(&mut self, node_idx: usize, update: &U)
        requires
            old(self).wf(),
            node_idx < old(self).graph().nodes().len(),
            forall|visit: Visit<R>|
                visit.has_members_in_party() ==> call_requires(*update, (visit,)),
        ensures
            final(self).wf(),
            final(self).graph() == old(self).graph(),
            final(self)@.proposal == old(self)@.proposal,
            final(self)@.votes == old(self)@.votes,
            visit_leads(
                old(self).graph(),
                *update,
                old(self)@.scores,
                node_idx,
                final(self)@.scores,
            ),
    {
        let visit = Visit {
            swing: self.congress.node(node_idx).swing,
            score: self.scores[node_idx],
            peers: self.peer_inputs(node_idx),
            party: self.party_inputs(node_idx),
        };
        let ghost read = visit;
        proof {
            assert(visit.has_members_in_party());
        }
        let score = update(visit);
        self.scores.set(node_idx, score);
        proof {
            assert(read@ == reads_of(old(self).graph(), old(self)@.scores, node_idx));
            assert(call_ensures(*update, (read,), score));
            assert(self@.scores =~= old(self)@.scores.update(node_idx as int, score));
        }
    }

    /// Visits the members of one round in the given order.
    fn run_round<U: Fn(Visit<R>) -> R>(&mut self, order: &Vec<usize>, update: &U)
        requires
            old(self).wf(),
            forall|i: int| 0 <= i < order@.len() ==> order@[i] < old(self).graph().nodes().len(),
            forall|visit: Visit<R>|
                visit.has_members_in_party() ==> call_requires(*update, (visit,)),
        ensures
            final(self).wf(),
            final(self).graph() == old(self).graph(),
            final(self)@.proposal == old(self)@.proposal,
            final(self)@.votes == old(self)@.votes,
            round_leads(old(self).graph(), *update, old(self)@.scores, order@, final(self)@.scores),
    {
        let mut i: usize = 0;
        while i < order.len()
            invariant
                i <= order@.len(),
                self.wf(),
                self.graph() == old(self).graph(),
                self@.proposal == old(self)@.proposal,
                self@.votes == old(self)@.votes,
                forall|j: int| 0 <= j < order@.len() ==> order@[j] < self.graph().nodes().len(),
                forall|visit: Visit<R>|
                    visit.has_members_in_party() ==> call_requires(*update, (visit,)),
                round_leads(
                    old(self).graph(),
                    *update,
                    old(self)@.scores,
                    order@.take(i as int),
                    self@.scores,
                ),
            decreases order@.len() - i,
        {
            let ghost mid = self@.scores;
            self.visit(order[i], update);
            proof {
                let done = order@.take(i + 1);
                assert(done.drop_last() == order@.take(i as int));
                assert(done.last() == order@[i as int]);
                let (graph, start) = (old(self).graph(), old(self)@.scores);
                assert(round_leads(graph, *update, start, done.drop_last(), mid));
                assert(visit_leads(graph, *update, mid, done.last(), self@.scores));
                assert(round_leads(graph, *update, start, done, self@.scores));
            }
            i += 1;
        }
        proof {
            assert(order@.take(order@.len() as int) == order@);
        }
    }

    /// Goes through the given rounds, each in its own visiting order, and
    /// then casts the votes. Nothing is drawn at random: the same schedule,
    /// update rule and comparison lead to the same run.
    pub fn run_schedule<U: Fn(Visit<R>) -> R, C: Fn(R) -> (bool, bool)>(
        &mut self,
        rounds: &Vec<Vec<usize>>,
        update: U,
        compare: C,
    )
        requires
            old(self).wf(),
            handles_in_range(rounds@, old(self).graph().nodes().len()),
            forall|visit: Visit<R>|
                visit.has_members_in_party() ==> call_requires(update, (visit,)),
            forall|score: R| call_requires(compare, (score,)),
        ensures
            final(self).wf(),
            final(self).graph() == old(self).graph(),
            final(self)@.proposal == old(self)@.proposal,
            rounds_lead(old(self).graph(), update, old(self)@.scores, rounds@, final(self)@.scores),
            forall|i: int|
                0 <= i < final(self)@.votes.len() ==> vote_follows(
                    compare,
                    final(self)@.scores[i],
                    #[trigger] final(self)@.votes[i],
                ),
    {
        let mut round: usize = 0;
        while round < rounds.len()
            invariant
                round <= rounds@.len(),
                self.wf(),
                self.graph() == old(self).graph(),
                self@.proposal == old(self)@.proposal,
                handles_in_range(rounds@, self.graph().nodes().len()),
                forall|visit: Visit<R>|
                    visit.has_members_in_party() ==> call_requires(update, (visit,)),
                rounds_lead(
                    old(self).graph(),
                    update,
                    old(self)@.scores,
                    rounds@.take(round as int),
                    self@.scores,
                ),
            decreases rounds@.len() - round,
        {
            let ghost mid = self@.scores;
            let order = &rounds[round];
            proof {
                assert forall|i: int| 0 <= i < order@.len() implies order@[i]
                    < self.graph().nodes().len() by {
                    assert(rounds@[round as int]@[i] < self.graph().nodes().len());
                }
            }
            self.run_round(order, &update);
            proof {
                let done = rounds@.take(round + 1);
                assert(done.drop_last() == rounds@.take(round as int));
                assert(done.last() == rounds@[round as int]);
                let (graph, start) = (old(self).graph(), old(self)@.scores);
                assert(rounds_lead(graph, update, start, done.drop_last(), mid));
                assert(round_leads(graph, update, mid, done.last()@, self@.scores));
                assert(rounds_lead(graph, update, start, done, self@.scores));
            }
            round += 1;
        }
        proof {
            assert(rounds@.take(rounds@.len() as int) == rounds@);
        }
        self.cast_votes(&compare);
    }

    /// Runs the simulation for `max_rounds` rounds, each in a visiting order
    /// drawn at random, and then casts the votes. Returns the orders that
    /// were drawn.
    pub fn run<U: Fn(Visit<R>) -> R, C: Fn(R) -> (bool, bool)>(
        &mut self,
        max_rounds: usize,
        update: U,
        compare: C,
    ) -> (rounds: Vec<Vec<usize>>)
        requires
            old(self).wf(),
            forall|visit: Visit<R>|
                visit.has_members_in_party() ==> call_requires(update, (visit,)),
            forall|score: R| call_requires(compare, (score,)),
        ensures
            final(self).wf(),
            final(self).graph() == old(self).graph(),
            final(self)@.proposal == old(self)@.proposal,
            rounds@.len() == max_rounds,
            forall|r: int|
                0 <= r < rounds@.len() ==> is_round_order(
                    (#[trigger] rounds@[r])@,
                    old(self).graph().nodes().len(),
                ),
            rounds_lead(old(self).graph(), update, old(self)@.scores, rounds@, final(self)@.scores),
            forall|i: int|
                0 <= i < final(self)@.votes.len() ==> vote_follows(
                    compare,
                    final(self)@.scores[i],
                    #[trigger] final(self)@.votes[i],
                ),
    {
        let rounds = self.schedule(max_rounds);
        proof {
            assert forall|r: int, i: int|
                0 <= r < rounds@.len() && 0 <= i < rounds@[r]@.len() implies #[trigger] rounds@[r]@[i]
                < self.graph().nodes().len() by {
                assert(is_round_order(rounds@[r]@, self.graph().nodes().len()));
            }
        }
        self.run_schedule(&rounds, update, compare);
        rounds
    }

    /// Casts every member's vote from what `compare` says of its score.
    pub fn cast_votes<C: Fn(R) -> (bool, bool)>(&mut self, compare: &C)
        requires
            old(self).wf(),
            forall|score: R| call_requires(*compare, (score,)),
        ensures
            final(self).wf(),
            final(self).graph() == old(self).graph(),
            final(self)@.proposal == old(self)@.proposal,
            final(self)@.scores == old(self)@.scores,
            forall|i: int|
                0 <= i < final(self)@.votes.len() ==> vote_follows(
                    *compare,
                    final(self)@.scores[i],
                    #[trigger] final(self)@.votes[i],
                ),
    {
        let node_count = self.votes.len();
        let mut i: usize = 0;
        while i < node_count
            invariant
                i <= node_count,
                self.votes@.len() == node_count,
                self.scores@.len() == node_count,
                self.congress == old(self).congress,
                self.proposal == old(self).proposal,
                self.scores == old(self).scores,
                forall|score: R| call_requires(*compare, (score,)),
                forall|j: int|
                    0 <= j < i ==> vote_follows(*compare, self.scores@[j], #[trigger] self.votes@[j]),
            decreases node_count - i,
        {
            let (above, below) = compare(self.scores[i]);
            proof {
                assert(call_ensures(*compare, (self.scores@[i as int],), (above, below)));
            }
            self.votes.set(i, Vote::decide(above, below));
            i += 1;
        }
    }

    /// Id and vote of every member, by handle.
    pub fn get_votes(&self) -> (votes: Vec<(String, Vote)>)
        requires
            self.wf(),
        ensures
            votes@.len() == self@.votes.len(),
            forall|i: int|
                0 <= i < votes@.len() ==> {
                    let entry = #[trigger] votes@[i];
                    entry.0@ == self.graph().nodes()[i].id@ && entry.1 == self@.votes[i]
                },
    {
        let node_count = self.votes.len();
        let mut votes: Vec<(String, Vote)> = Vec::new();
        let mut i: usize = 0;
        while i < node_count
            invariant
                i <= node_count,
                self.wf(),
                node_count == self.votes@.len(),
                votes@.len() == i,
                forall|j: int|
                    0 <= j < i ==> {
                        let entry = #[trigger] votes@[j];
                        entry.0@ == self.graph().nodes()[j].id@ && entry.1 == self.votes@[j]
                    },
            decreases node_count - i,
        {
            votes.push((self.congress.node(i).id.clone(), self.votes[i]));
            i += 1;
        }
        votes
    }

    /// The vote recorded under an id: the vote of the member that the id
    /// stands for, if it stands for one.
    pub fn vote_of(&self, id: &String) -> (vote: Option<Vote>)
        requires
            self.wf(),
        ensures
            vote == match resolve(node_ids(self.graph().nodes()), id@) {
                Some(i) => Some(self@.votes[i]),
                None => None,
            },
    {
        proof {
            self.congress.lemma_wf();
            lemma_resolve(node_ids(self.graph().nodes()), id@);
        }
        match self.congress.find_node(id) {
            Some(handle) => Some(self.votes[handle]),
            None => None,
        }
    }

    /// Whether the votes carry the proposal under `rule`.
    pub fn passes(&self, rule: Majority) -> (passed: bool)
        ensures
            passed == rule_met(
                rule,
                count_votes(self@.votes, Vote::Yes),
                count_votes(self@.votes, Vote::No),
                count_votes(self@.votes, Vote::Abstain),
            ),
    {
        Tally::count(&self.votes).passes(rule)
    }

    /// A member's vote.
    pub fn get_vote(&self, node_idx: usize) -> (vote: Vote)
        requires
            self.wf(),
            node_idx < self.graph().nodes().len(),
        ensures
            vote == self@.votes[node_idx as int],
    {
        self.votes[node_idx]
    }

    /// A member's current score.
    pub fn get_score(&self, node_idx: usize) -> (score: R)
        requires
            self.wf(),
            node_idx < self.graph().nodes().len(),
        ensures
            score == self@.scores[node_idx as int],
    {
        self.scores[node_idx]
    }
}

} // verus!
