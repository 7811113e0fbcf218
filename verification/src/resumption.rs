//! How often the handshake driver has to be resumed.
//!
//! A handshake is a sequence of rounds, and the driver goes through them in
//! order however they are spread over its resumptions: a round at which the
//! transport holds it up ends a resumption, and so does the last of the
//! rounds that one resumption may take.  The engine and the peer decide how
//! many rounds there are; this module counts the resumptions for any such
//! sequence.
//!
//! The rounds are those of `MidHandshake::poll`, which takes what every
//! handshake step and every flush returns through `conclude_round`, goes on
//! after `Advance`, resolves at `Settle` and `Fail`, and hands the stream
//! back to the driver at `Wait`, at `Yield`, and after `POLL_ROUNDS` rounds.
//! Its contract says so: every call of it goes through the rounds of
//! `one_resumption`, and returns what the last of them asks for.

use vstd::prelude::*;
use vstd::arithmetic::div_mod::{lemma_div_is_ordered, lemma_div_plus_one};
use crate::handshake::Round;

verus! {

/// Whether the round ends a resumption without resolving the driver.
pub open spec fn is_delay(round: Round) -> bool {
    round is Wait || round is Yield
}

/// Whether the driver resolves with the stream at the end of `rounds`, and
/// not before: the last round settles, the others advance or are held up.
pub open spec fn resolves(rounds: Seq<Round>) -> bool {
    &&& rounds.len() > 0
    &&& rounds.last() is Settle
    &&& forall|i: int| 0 <= i < rounds.len() - 1 ==> rounds[i] is Advance || is_delay(rounds[i])
}

/// The number of rounds at which the transport held the driver up.
pub open spec fn delays(rounds: Seq<Round>) -> nat
    decreases rounds.len(),
{
    if rounds.len() == 0 {
        0
    } else {
        delays(rounds.drop_first()) + if is_delay(rounds[0]) {
            1nat
        } else {
            0nat
        }
    }
}

/// The number of rounds that were successful handshake steps.
pub open spec fn advances(rounds: Seq<Round>) -> nat
    decreases rounds.len(),
{
    if rounds.len() == 0 {
        0
    } else {
        advances(rounds.drop_first()) + if rounds[0] is Advance {
            1nat
        } else {
            0nat
        }
    }
}

/// The number of resumptions that it takes the driver to get through
/// `rounds`, when one resumption may take `budget` rounds and the one that
/// is under way has taken `used` of them.
///
/// A round that settles or fails resolves the driver within the resumption
/// under way.  A round at which the transport holds the driver up ends that
/// resumption, and the rest is left to further ones.  A round that advances
/// stays within the resumption unless it is the last that the resumption may
/// take.
pub open spec fn resumptions(rounds: Seq<Round>, budget: nat, used: nat) -> nat
    decreases rounds.len(),
{
    if rounds.len() == 0 {
        0
    } else {
        match rounds[0] {
            Round::Settle | Round::Fail(_) => 1,
            Round::Wait | Round::Yield => 1 + resumptions(rounds.drop_first(), budget, 0),
            Round::Advance => if used + 1 >= budget {
                1 + resumptions(rounds.drop_first(), budget, 0)
            } else {
                resumptions(rounds.drop_first(), budget, used + 1)
            },
        }
    }
}

proof fn lemma_resumptions_within(rounds: Seq<Round>, budget: nat, used: nat)
    requires
        resolves(rounds),
        used < budget,
    ensures
        resumptions(rounds, budget, used) <= 1 + delays(rounds) + (used + advances(rounds))
            / budget,
    decreases rounds.len(),
{
    let rest = rounds.drop_first();
    let b = budget as int;
    if rounds.len() == 1 {
        lemma_div_is_ordered(0, (used + advances(rounds)) as int, b);
    } else {
        lemma_resolves_rest(rounds);
        if is_delay(rounds[0]) {
            lemma_resumptions_within(rest, budget, 0);
            lemma_div_is_ordered(advances(rest) as int, (used + advances(rounds)) as int, b);
        } else if used + 1 >= budget {
            lemma_resumptions_within(rest, budget, 0);
            lemma_div_plus_one(advances(rest) as int, b);
            assert(used + advances(rounds) == b + advances(rest));
        } else {
            lemma_resumptions_within(rest, budget, used + 1);
            assert(used + advances(rounds) == used + 1 + advances(rest));
        }
    }
}

/// However the delays of the transport fall among the rounds of a handshake,
/// the driver gets through the rounds to the one that settles, and it takes
/// no more resumptions than one for every delay, one for every `budget`
/// rounds of progress, and one more.
pub proof fn lemma_resolves_in_finitely_many_resumptions(rounds: Seq<Round>, budget: nat)
    requires
        resolves(rounds),
        budget > 0,
    ensures
        0 < resumptions(rounds, budget, 0) <= 1 + delays(rounds) + advances(rounds) / budget,
{
    lemma_resumptions_within(rounds, budget, 0);
    lemma_resumptions_positive(rounds, budget, 0);
}

/// From the point at which the transport stops holding the driver up, the
/// driver resolves within one resumption for every `budget` rounds that are
/// left, and one more.
pub proof fn lemma_cooperative_transport_resolves(rounds: Seq<Round>, budget: nat)
    requires
        resolves(rounds),
        budget > 0,
        forall|i: int| 0 <= i < rounds.len() ==> !is_delay(#[trigger] rounds[i]),
    ensures
        0 < resumptions(rounds, budget, 0) <= 1 + rounds.len() / budget,
{
    lemma_resumptions_within(rounds, budget, 0);
    lemma_resumptions_positive(rounds, budget, 0);
    lemma_counts(rounds);
    lemma_div_is_ordered(advances(rounds) as int, rounds.len() as int, budget as int);
}

/// Whether the round resolves the driver.
pub open spec fn is_final(round: Round) -> bool {
    round is Settle || round is Fail
}

/// Whether `rounds` are the rounds of one resumption that may take `budget`
/// rounds: there is one at least, all but the last advance, and the last
/// advances only if it is the last that the resumption may take.
pub open spec fn one_resumption(rounds: Seq<Round>, budget: nat) -> bool {
    &&& 0 < rounds.len() <= budget
    &&& forall|i: int| 0 <= i < rounds.len() - 1 ==> rounds[i] is Advance
    &&& rounds.last() is Advance ==> rounds.len() == budget
}

/// The rounds of some resumptions, one after the other.
pub open spec fn joined(polls: Seq<Seq<Round>>) -> Seq<Round>
    decreases polls.len(),
{
    if polls.len() == 0 {
        Seq::empty()
    } else {
        polls[0] + joined(polls.drop_first())
    }
}

/// Whether `polls` are the rounds of the resumptions of a driver, one
/// sequence for each, from its first resumption to the one at which it
/// resolves with the stream.
pub open spec fn resumed_to_the_end(polls: Seq<Seq<Round>>, budget: nat) -> bool {
    &&& polls.len() > 0
    &&& forall|i: int| 0 <= i < polls.len() ==> one_resumption(#[trigger] polls[i], budget)
    &&& forall|i: int| 0 <= i < polls.len() - 1 ==> !is_final((#[trigger] polls[i]).last())
    &&& polls.last().last() is Settle
}

proof fn lemma_resumption_then(first: Seq<Round>, rest: Seq<Round>, budget: nat, used: nat)
    requires
        first.len() > 0,
        used + first.len() <= budget,
        forall|i: int| 0 <= i < first.len() - 1 ==> first[i] is Advance,
        first.last() is Advance ==> used + first.len() == budget,
    ensures
        resumptions(first + rest, budget, used) == if is_final(first.last()) {
            1nat
        } else {
            1 + resumptions(rest, budget, 0)
        },
    decreases first.len(),
{
    let all = first + rest;
    assert(all[0] == first[0]);
    if first.len() == 1 {
        assert(all.drop_first() =~= rest);
    } else {
        let tail = first.drop_first();
        assert(all.drop_first() =~= tail + rest);
        assert(tail.last() == first.last());
        assert forall|i: int| 0 <= i < tail.len() - 1 implies tail[i] is Advance by {
            assert(tail[i] == first[i + 1]);
        }
        assert(first[0] is Advance);
        lemma_resumption_then(tail, rest, budget, used + 1);
    }
}

/// The rounds of one resumption count as one resumption, and the rounds
/// that follow are counted from a fresh one, unless the driver has resolved.
pub proof fn lemma_one_resumption_counts_once(first: Seq<Round>, rest: Seq<Round>, budget: nat)
    requires
        one_resumption(first, budget),
    ensures
        resumptions(first + rest, budget, 0) == if is_final(first.last()) {
            1nat
        } else {
            1 + resumptions(rest, budget, 0)
        },
{
    lemma_resumption_then(first, rest, budget, 0);
}

proof fn lemma_joined_resolves(polls: Seq<Seq<Round>>, budget: nat)
    requires
        resumed_to_the_end(polls, budget),
    ensures
        resolves(joined(polls)),
        resumptions(joined(polls), budget, 0) == polls.len(),
    decreases polls.len(),
{
    let first = polls[0];
    let others = polls.drop_first();
    assert(one_resumption(first, budget));
    lemma_one_resumption_counts_once(first, joined(others), budget);
    if polls.len() == 1 {
        assert(joined(others) =~= Seq::<Round>::empty());
        assert(joined(polls) =~= first);
        assert(first == polls.last());
    } else {
        assert(others.last() == polls.last());
        assert forall|i: int| 0 <= i < others.len() implies one_resumption(
            #[trigger] others[i],
            budget,
        ) by {
            assert(others[i] == polls[i + 1]);
        }
        assert forall|i: int| 0 <= i < others.len() - 1 implies !is_final(
            (#[trigger] others[i]).last(),
        ) by {
            assert(others[i] == polls[i + 1]);
        }
        lemma_joined_resolves(others, budget);
        let rest = joined(others);
        let all = first + rest;
        assert(!is_final(first.last()));
        assert(all.last() == rest.last());
        assert forall|i: int| 0 <= i < all.len() - 1 implies all[i] is Advance || is_delay(
            all[i],
        ) by {
            if i < first.len() {
                assert(all[i] == first[i]);
            } else {
                assert(all[i] == rest[i - first.len()]);
            }
        }
    }
}

/// A driver that is resumed until it resolves with the stream takes as many
/// resumptions as the count says for all its rounds taken together, and so
/// no more than one for every delay of the transport, one for every
/// `budget` rounds of progress, and one more.
pub proof fn lemma_driver_resolves_in_finitely_many_resumptions(
    polls: Seq<Seq<Round>>,
    budget: nat,
)
    requires
        resumed_to_the_end(polls, budget),
        budget > 0,
    ensures
        resolves(joined(polls)),
        polls.len() == resumptions(joined(polls), budget, 0),
        polls.len() <= 1 + delays(joined(polls)) + advances(joined(polls)) / budget,
{
    lemma_joined_resolves(polls, budget);
    lemma_resolves_in_finitely_many_resumptions(joined(polls), budget);
}

proof fn lemma_resumptions_positive(rounds: Seq<Round>, budget: nat, used: nat)
    requires
        resolves(rounds),
    ensures
        resumptions(rounds, budget, used) > 0,
    decreases rounds.len(),
{
    if rounds.len() > 1 {
        lemma_resolves_rest(rounds);
        if rounds[0] is Advance && used + 1 < budget {
            lemma_resumptions_positive(rounds.drop_first(), budget, used + 1);
        }
    }
}

proof fn lemma_resolves_rest(rounds: Seq<Round>)
    requires
        resolves(rounds),
        rounds.len() > 1,
    ensures
        resolves(rounds.drop_first()),
        rounds[0] is Advance || is_delay(rounds[0]),
{
    let rest = rounds.drop_first();
    assert(rest.last() == rounds.last());
    assert forall|i: int| 0 <= i < rest.len() - 1 implies rest[i] is Advance || is_delay(
        rest[i],
    ) by {
        assert(rest[i] == rounds[i + 1]);
    }
}

proof fn lemma_counts(rounds: Seq<Round>)
    ensures
        advances(rounds) <= rounds.len(),
        (forall|i: int| 0 <= i < rounds.len() ==> !is_delay(#[trigger] rounds[i])) ==> delays(
            rounds,
        ) == 0,
    decreases rounds.len(),
{
    if rounds.len() > 0 {
        let rest = rounds.drop_first();
        lemma_counts(rest);
        assert forall|i: int| 0 <= i < rest.len() implies rest[i] == rounds[i + 1] by {}
    }
}

} // verus!
