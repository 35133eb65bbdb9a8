//! Visiting orders, drawn at random with the `rand` crate.
//!
//! The contracts of `rand::thread_rng` and of `shuffle` are not proved: they
//! state what the library relies on `rand` to do, which is no more than that
//! a shuffle keeps the elements it is given.

use rand::rngs::ThreadRng;
use rand::seq::SliceRandom;
use vstd::prelude::*;

verus! {

/// `rand::rngs::ThreadRng`, opaque to the proofs.
#[verifier::external_type_specification]
#[verifier::external_body]
pub struct ExThreadRng(ThreadRng);

/// `rand::thread_rng`: a handle to the random number generator of the
/// calling thread. Nothing is claimed of the handle. The first call on a
/// thread seeds the generator from the system and fails where the system
/// has no randomness to give.
pub assume_specification[ rand::thread_rng ]() -> (rng: ThreadRng)
;

/// `SliceRandom::shuffle`: rearranges the elements in place. Whatever order
/// comes out, it holds the same elements as often as before.
#[verifier::external_body]
fn shuffle(order: &mut Vec<usize>, rng: &mut ThreadRng)
    ensures
        final(order)@.to_multiset() == old(order)@.to_multiset(),
{
    order.shuffle(rng)
}

/// An order in which to visit `members` members: every handle below
/// `members` exactly once, and nothing else.
pub open spec fn is_round_order(order: Seq<usize>, members: nat) -> bool {
    &&& order.len() == members
    &&& order.no_duplicates()
    &&& forall|i: int| 0 <= i < order.len() ==> order[i] < members
    &&& forall|m: usize| m < members ==> order.contains(m)
}

/// All handles below `members` in rising order.
fn identity_order(members: usize) -> (order: Vec<usize>)
    ensures
        order@ == Seq::new(members as nat, |i: int| i as usize),
{
    let mut order: Vec<usize> = Vec::new();
    let mut i: usize = 0;
    while i < members
        invariant
            i <= members,
            order@ == Seq::new(i as nat, |j: int| j as usize),
        decreases members - i,
    {
        order.push(i);
        i += 1;
        proof {
            assert(order@ =~= Seq::new(i as nat, |j: int| j as usize));
        }
    }
    order
}

/// A rearrangement of the handles in rising order visits every member once.
proof fn lemma_rearranged_is_round_order(order: Seq<usize>, members: usize)
    requires
        order.to_multiset() == Seq::new(members as nat, |i: int| i as usize).to_multiset(),
    ensures
        is_round_order(order, members as nat),
{
    broadcast use vstd::seq_lib::group_to_multiset_ensures;

    let rising = Seq::new(members as nat, |i: int| i as usize);
    vstd::seq_lib::to_multiset_len(order);
    vstd::seq_lib::to_multiset_len(rising);
    assert(order.len() == rising.len());
    assert forall|i: int| 0 <= i < order.len() implies order[i] < members by {
        assert(order.contains(order[i]));
        assert(rising.to_multiset().count(order[i]) > 0);
        assert(rising.contains(order[i]));
    }
    assert(rising.no_duplicates());
    rising.lemma_multiset_has_no_duplicates();
    order.lemma_multiset_has_no_duplicates_conv();
    assert forall|m: usize| m < members implies order.contains(m) by {
        assert(rising[m as int] == m);
        assert(rising.contains(m));
        assert(order.to_multiset().count(m) > 0);
    }
}

/// Draws an order in which to visit `members` members.
pub(crate) fn draw_round_order(members: usize, rng: &mut ThreadRng) -> (order: Vec<usize>)
    ensures
        is_round_order(order@, members as nat),
{
    let mut order = identity_order(members);
    shuffle(&mut order, rng);
    proof {
        lemma_rearranged_is_round_order(order@, members);
    }
    order
}

} // verus!
