//! Votes, tallies and the five majority rules.

use vstd::prelude::*;

verus! {

/// The position a member takes on the proposal once a run is over.
#[derive(Clone, Copy, Debug, PartialEq, Eq, Structural)]
pub enum Vote {
    Yes,
    No,
    Abstain,
}

/// Common types of passing threshold.
#[derive(Clone, Copy, Debug, PartialEq, Eq, Structural)]
pub enum Majority {
    /// More than half of the votes cast; abstentions do not count.
    SIMPLE,
    /// More than two thirds of the votes cast; abstentions do not count.
    SUPER,
    /// More than half of all members; an abstention counts against.
    ABSSIMPLE,
    /// More than two thirds of all members; an abstention counts against.
    ABSSUPER,
    /// Every member votes yes; a single abstention blocks.
    UNANIMITY,
}

/// How many members voted which way.
#[derive(Clone, Copy, Debug, PartialEq, Eq, Structural)]
pub struct Tally {
    pub yes: usize,
    pub no: usize,
    pub abstain: usize,
}

/// Number of occurrences of `vote` in `votes`.
pub open spec fn count_votes(votes: Seq<Vote>, vote: Vote) -> nat
    decreases votes.len(),
{
    if votes.len() == 0 {
        0
    } else {
        count_votes(votes.drop_last(), vote) + if votes.last() == vote {
            1nat
        } else {
            0nat
        }
    }
}

/// Whether `yes`, `no` and `abstain` votes carry a proposal under `rule`.
/// Every comparison is strict: a proposal exactly at the threshold fails, and
/// so does one with nobody to count.
pub open spec fn rule_met(rule: Majority, yes: nat, no: nat, abstain: nat) -> bool {
    let cast = yes + no;
    let all = yes + no + abstain;
    match rule {
        Majority::SIMPLE => cast > 0 && 2 * yes > cast,
        Majority::SUPER => cast > 0 && 3 * yes > 2 * cast,
        Majority::ABSSIMPLE => all > 0 && 2 * yes > all,
        Majority::ABSSUPER => all > 0 && 3 * yes > 2 * all,
        Majority::UNANIMITY => all > 0 && yes == all,
    }
}

impl Vote {
    /// The vote as a signed number: +1 for yes, -1 for no, 0 for abstain.
    pub open spec fn spec_value(self) -> int {
        match self {
            Vote::Yes => 1,
            Vote::No => -1,
            Vote::Abstain => 0,
        }
    }

    /// The vote that follows from comparing a score with the threshold:
    /// yes if the score lies above it, otherwise no if the score lies below
    /// its negative, otherwise abstain.
    pub open spec fn spec_decide(above: bool, below: bool) -> Vote {
        if above {
            Vote::Yes
        } else if below {
            Vote::No
        } else {
            Vote::Abstain
        }
    }

    /// The vote as a signed number: +1 for yes, -1 for no, 0 for abstain.
    pub fn value(self) -> (v: i8)
        ensures
            v == self.spec_value(),
    {
        match self {
            Vote::Yes => 1,
            Vote::No => -1,
            Vote::Abstain => 0,
        }
    }

    /// The vote of a member whose score lies `above` the threshold, or
    /// `below` the threshold's negative, or neither. Where both are claimed,
    /// the vote is yes.
    pub fn decide(above: bool, below: bool) -> (vote: Vote)
        ensures
            vote == Vote::spec_decide(above, below),
    {
        if above {
            Vote::Yes
        } else if below {
            Vote::No
        } else {
            Vote::Abstain
        }
    }
}

impl Tally {
    /// The tally of a sequence of votes.
    pub open spec fn of(votes: Seq<Vote>) -> (nat, nat, nat) {
        (
            count_votes(votes, Vote::Yes),
            count_votes(votes, Vote::No),
            count_votes(votes, Vote::Abstain),
        )
    }

    /// Counts the votes of each kind.
    pub fn count(votes: &Vec<Vote>) -> (tally: Tally)
        ensures
            (tally.yes as nat, tally.no as nat, tally.abstain as nat) == Tally::of(votes@),
            tally.yes + tally.no + tally.abstain == votes.len(),
    {
        let mut yes: usize = 0;
        let mut no: usize = 0;
        let mut abstain: usize = 0;
        let mut i: usize = 0;
        while i < votes.len()
            invariant
                i <= votes.len(),
                yes == count_votes(votes@.take(i as int), Vote::Yes),
                no == count_votes(votes@.take(i as int), Vote::No),
                abstain == count_votes(votes@.take(i as int), Vote::Abstain),
                yes + no + abstain == i,
            decreases votes.len() - i,
        {
            proof {
                assert(votes@.take(i + 1).drop_last() == votes@.take(i as int));
            }
            match votes[i] {
                Vote::Yes => {
                    yes += 1;
                },
                Vote::No => {
                    no += 1;
                },
                Vote::Abstain => {
                    abstain += 1;
                },
            }
            i += 1;
        }
        proof {
            assert(votes@.take(votes.len() as int) == votes@);
        }
        Tally { yes, no, abstain }
    }

    /// Whether the tally carries a proposal under `rule`.
    pub fn passes(&self, rule: Majority) -> (passed: bool)
        ensures
            passed == rule_met(rule, self.yes as nat, self.no as nat, self.abstain as nat),
    {
        let yes: u128 = self.yes as u128;
        let total_cast: u128 = yes + self.no as u128;
        let total_all: u128 = total_cast + self.abstain as u128;
        match rule {
            Majority::SIMPLE => total_cast > 0 && 2 * yes > total_cast,
            Majority::SUPER => total_cast > 0 && 3 * yes > 2 * total_cast,
            Majority::ABSSIMPLE => total_all > 0 && 2 * yes > total_all,
            Majority::ABSSUPER => total_all > 0 && 3 * yes > 2 * total_all,
            Majority::UNANIMITY => total_all > 0 && yes == total_all,
        }
    }
}

/// A vote that nobody casts is counted zero times.
pub proof fn lemma_count_absent(votes: Seq<Vote>, vote: Vote)
    requires
        forall|i: int| 0 <= i < votes.len() ==> votes[i] != vote,
    ensures
        count_votes(votes, vote) == 0,
    decreases votes.len(),
{
    if votes.len() > 0 {
        let earlier = votes.drop_last();
        assert forall|i: int| 0 <= i < earlier.len() implies earlier[i] != vote by {
            assert(earlier[i] == votes[i]);
        }
        lemma_count_absent(earlier, vote);
        assert(votes.last() == votes[votes.len() - 1]);
    }
}

/// While every member abstains, as before any vote is cast, no rule is met.
pub proof fn lemma_abstentions_carry_nothing(votes: Seq<Vote>, rule: Majority)
    requires
        forall|i: int| 0 <= i < votes.len() ==> votes[i] == Vote::Abstain,
    ensures
        !rule_met(
            rule,
            count_votes(votes, Vote::Yes),
            count_votes(votes, Vote::No),
            count_votes(votes, Vote::Abstain),
        ),
{
    lemma_count_absent(votes, Vote::Yes);
    lemma_count_absent(votes, Vote::No);
}

/// Unanimity is reached exactly when at least one member votes yes and
/// nobody votes no or abstains.
pub proof fn lemma_unanimity(yes: nat, no: nat, abstain: nat)
    ensures
        rule_met(Majority::UNANIMITY, yes, no, abstain) <==> (yes > 0 && no == 0 && abstain == 0),
{
}

/// Where nobody casts a vote, no rule is met, however many abstain.
pub proof fn lemma_nothing_cast(rule: Majority, abstain: nat)
    ensures
        !rule_met(rule, 0, 0, abstain),
{
}

/// A proposal that is exactly at the threshold of a rule fails under it.
pub proof fn lemma_tie_fails(yes: nat, no: nat, abstain: nat)
    ensures
        2 * yes == yes + no ==> !rule_met(Majority::SIMPLE, yes, no, abstain),
        3 * yes == 2 * (yes + no) ==> !rule_met(Majority::SUPER, yes, no, abstain),
        2 * yes == yes + no + abstain ==> !rule_met(Majority::ABSSIMPLE, yes, no, abstain),
        3 * yes == 2 * (yes + no + abstain) ==> !rule_met(Majority::ABSSUPER, yes, no, abstain),
{
}

} // verus!
