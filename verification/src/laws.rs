//! System-wide laws of the voting machine, stated over the mathematical model
//! and proved once and for all: attendance counts distinct voters, tallies
//! count accepted votes, the accounting invariant is preserved, and a batch of
//! distinct voters naming configured candidates is accepted in full.

use vstd::prelude::*;

use crate::domain::{
    bump_score, has_candidate, lemma_bump_score_of, lemma_bump_sum, lemma_push_fresh_no_duplicates,
    score_of, spec_inv, spec_vote, sum_scores, BallotModel, MachineModel, OutcomeModel,
};

verus! {

/// The machine reached by submitting the ballots in order, one at a time.
pub open spec fn run_votes(m: MachineModel, bs: Seq<BallotModel>) -> MachineModel
    decreases bs.len(),
{
    if bs.len() == 0 {
        m
    } else {
        run_votes(spec_vote(m, bs[0]).0, bs.drop_first())
    }
}

/// The outcomes reported for the ballots, in submission order.
pub open spec fn vote_outcomes(m: MachineModel, bs: Seq<BallotModel>) -> Seq<OutcomeModel>
    decreases bs.len(),
{
    if bs.len() == 0 {
        Seq::empty()
    } else {
        seq![spec_vote(m, bs[0]).1] + vote_outcomes(spec_vote(m, bs[0]).0, bs.drop_first())
    }
}

/// The voters named by a sequence of ballots.
pub open spec fn ballot_voters(bs: Seq<BallotModel>) -> Seq<Seq<char>> {
    bs.map_values(|b: BallotModel| b.voter)
}

/// Whether an outcome is an accepted vote for the candidate named `c`.
pub open spec fn is_accepted_for(o: OutcomeModel, c: Seq<char>) -> bool {
    match o {
        OutcomeModel::Accepted(_, d) => d == c,
        _ => false,
    }
}

/// How many outcomes are accepted votes for `c`.
pub open spec fn count_accepted(os: Seq<OutcomeModel>, c: Seq<char>) -> nat
    decreases os.len(),
{
    if os.len() == 0 {
        0
    } else {
        (if is_accepted_for(os[0], c) {
            1nat
        } else {
            0nat
        }) + count_accepted(os.drop_first(), c)
    }
}

/// How many ballots name the candidate `c`.
pub open spec fn count_ballots_for(bs: Seq<BallotModel>, c: Seq<char>) -> nat
    decreases bs.len(),
{
    if bs.len() == 0 {
        0
    } else {
        (if bs[0].candidate == Some(c) {
            1nat
        } else {
            0nat
        }) + count_ballots_for(bs.drop_first(), c)
    }
}

/// There is exactly one outcome per ballot.
pub proof fn lemma_outcomes_len(m: MachineModel, bs: Seq<BallotModel>)
    ensures
        vote_outcomes(m, bs).len() == bs.len(),
    decreases bs.len(),
{
    if bs.len() > 0 {
        lemma_outcomes_len(spec_vote(m, bs[0]).0, bs.drop_first());
    }
}

/// One vote keeps the machine well formed: no voter is recorded twice, and
/// the tallies plus the blank and invalid counters still add up to the
/// attendance size. This is the accounting law for a single transition.
pub proof fn lemma_vote_preserves_inv(m: MachineModel, b: BallotModel)
    requires
        spec_inv(m),
    ensures
        spec_inv(spec_vote(m, b).0),
{
    if !m.voters.contains(b.voter) {
        lemma_push_fresh_no_duplicates(m.voters, b.voter);
        match b.candidate {
            Some(c) => {
                if has_candidate(m.scoreboard.scores, c) {
                    lemma_bump_sum(m.scoreboard.scores, c);
                }
            },
            None => {},
        }
    }
}

/// A ballot from a voter already on the attendance sheet is always turned
/// away with `HasAlreadyVoted` and changes nothing at all.
pub proof fn lemma_repeat_voter_rejected(m: MachineModel, b: BallotModel)
    requires
        m.voters.contains(b.voter),
    ensures
        spec_vote(m, b).0 == m,
        spec_vote(m, b).1 == OutcomeModel::Already(b.voter),
{
}

/// Attendance counts the distinct voters: after any sequence of ballots the
/// attendance sheet holds exactly the voters it held before plus the voters
/// named by the ballots, each recorded once.
pub proof fn lemma_attendance_is_distinct_voters(m: MachineModel, bs: Seq<BallotModel>)
    requires
        m.voters.no_duplicates(),
    ensures
        run_votes(m, bs).voters.to_set() == m.voters.to_set().union(ballot_voters(bs).to_set()),
        run_votes(m, bs).voters.no_duplicates(),
    decreases bs.len(),
{
    broadcast use vstd::seq_lib::group_seq_properties;

    if bs.len() == 0 {
        assert(ballot_voters(bs).to_set() =~= Set::<Seq<char>>::empty());
        assert(run_votes(m, bs).voters.to_set() =~= m.voters.to_set().union(
            ballot_voters(bs).to_set(),
        ));
    } else {
        let b = bs[0];
        let m1 = spec_vote(m, b).0;
        assert(m1.voters.no_duplicates()) by {
            if !m.voters.contains(b.voter) {
                lemma_push_fresh_no_duplicates(m.voters, b.voter);
            }
        }
        lemma_attendance_is_distinct_voters(m1, bs.drop_first());
        assert(m1.voters.to_set() =~= m.voters.to_set().insert(b.voter));
        assert(ballot_voters(bs.drop_first()) =~= ballot_voters(bs).drop_first());
        assert(ballot_voters(bs).to_set() =~= ballot_voters(bs).drop_first().to_set().insert(
            b.voter,
        )) by {
            assert(ballot_voters(bs)[0] == b.voter);
            assert forall|x: Seq<char>| ballot_voters(bs).to_set().contains(x) implies ballot_voters(
                bs,
            ).drop_first().to_set().insert(b.voter).contains(x) by {
                let i = choose|i: int|
                    0 <= i < ballot_voters(bs).len() && ballot_voters(bs)[i] == x;
                if i > 0 {
                    assert(ballot_voters(bs).drop_first()[i - 1] == x);
                }
            }
            assert forall|x: Seq<char>|
                ballot_voters(bs).drop_first().to_set().insert(b.voter).contains(
                    x,
                ) implies ballot_voters(bs).to_set().contains(x) by {
                if x == b.voter {
                    assert(ballot_voters(bs)[0] == x);
                } else {
                    let i = choose|i: int|
                        0 <= i < ballot_voters(bs).drop_first().len() && ballot_voters(
                            bs,
                        ).drop_first()[i] == x;
                    assert(ballot_voters(bs)[i + 1] == x);
                }
            }
        }
        assert(run_votes(m, bs).voters.to_set() =~= m.voters.to_set().union(
            ballot_voters(bs).to_set(),
        ));
    }
}

/// From a fresh machine, the attendance size after any ballots equals the
/// number of distinct voter identifiers among them.
pub proof fn lemma_attendance_size_counts_distinct(m: MachineModel, bs: Seq<BallotModel>)
    requires
        m.voters =~= Seq::<Seq<char>>::empty(),
    ensures
        run_votes(m, bs).voters.len() == ballot_voters(bs).to_set().len(),
{
    assert(m.voters.no_duplicates());
    lemma_attendance_is_distinct_voters(m, bs);
    let v = run_votes(m, bs).voters;
    v.unique_seq_to_set();
    assert(m.voters.to_set() =~= Set::<Seq<char>>::empty());
    assert(v.to_set() =~= ballot_voters(bs).to_set());
}

/// Every candidate's tally grows by exactly the number of accepted votes for
/// that candidate: the score increments and the accepted outcomes agree.
pub proof fn lemma_score_counts_accepted(m: MachineModel, bs: Seq<BallotModel>, c: Seq<char>)
    ensures
        score_of(run_votes(m, bs).scoreboard.scores, c) == score_of(m.scoreboard.scores, c)
            + count_accepted(vote_outcomes(m, bs), c),
    decreases bs.len(),
{
    if bs.len() > 0 {
        let b = bs[0];
        let m1 = spec_vote(m, b).0;
        let o = spec_vote(m, b).1;
        lemma_score_counts_accepted(m1, bs.drop_first(), c);
        let os = vote_outcomes(m, bs);
        assert(os[0] == o);
        assert(os.drop_first() =~= vote_outcomes(m1, bs.drop_first()));
        if !m.voters.contains(b.voter) {
            match b.candidate {
                Some(d) => {
                    if has_candidate(m.scoreboard.scores, d) {
                        lemma_bump_score_of(m.scoreboard.scores, d, c);
                    }
                },
                None => {},
            }
        }
    }
}

/// A batch of ballots from pairwise-distinct voters, none of whom has voted
/// yet, each naming a configured candidate, is accepted in full: every ballot
/// yields `AcceptedVote`, and the final scoreboard reflects every one of
/// them. This is the sequential content of vote linearization: concurrent
/// votes are serviced one at a time in some total order, and in every such
/// order none is lost.
pub proof fn lemma_distinct_voters_all_accepted(m: MachineModel, bs: Seq<BallotModel>)
    requires
        ballot_voters(bs).no_duplicates(),
        forall|i: int| 0 <= i < bs.len() ==> !m.voters.contains(#[trigger] bs[i].voter),
        forall|i: int|
            0 <= i < bs.len() ==> (#[trigger] bs[i].candidate) is Some && has_candidate(
                m.scoreboard.scores,
                bs[i].candidate->0,
            ),
    ensures
        forall|i: int|
            0 <= i < bs.len() ==> #[trigger] vote_outcomes(m, bs)[i] == OutcomeModel::Accepted(
                bs[i].voter,
                bs[i].candidate->0,
            ),
        forall|c: Seq<char>|
            score_of(#[trigger] run_votes(m, bs).scoreboard.scores, c) == score_of(
                m.scoreboard.scores,
                c,
            ) + count_ballots_for(bs, c),
    decreases bs.len(),
{
    if bs.len() > 0 {
        let b = bs[0];
        let c0 = b.candidate->0;
        let m1 = spec_vote(m, b).0;
        assert(!m.voters.contains(b.voter));
        assert(spec_vote(m, b).1 == OutcomeModel::Accepted(b.voter, c0));
        assert(m1.voters == m.voters.push(b.voter));
        assert(m1.scoreboard.scores == bump_score(m.scoreboard.scores, c0));
        let tail = bs.drop_first();
        assert(ballot_voters(tail) =~= ballot_voters(bs).drop_first());
        assert forall|i: int| 0 <= i < tail.len() implies !m1.voters.contains(
            #[trigger] tail[i].voter,
        ) by {
            assert(tail[i] == bs[i + 1]);
            assert(!m.voters.contains(bs[i + 1].voter));
            assert(ballot_voters(bs)[i + 1] == bs[i + 1].voter);
            assert(ballot_voters(bs)[0] == b.voter);
            assert(bs[i + 1].voter != b.voter);
        }
        assert forall|i: int|
            0 <= i < tail.len() implies (#[trigger] tail[i].candidate) is Some && has_candidate(
            m1.scoreboard.scores,
            tail[i].candidate->0,
        ) by {
            assert(tail[i] == bs[i + 1]);
            lemma_bump_score_of(m.scoreboard.scores, c0, tail[i].candidate->0);
        }
        lemma_distinct_voters_all_accepted(m1, tail);
        let os = vote_outcomes(m, bs);
        lemma_outcomes_len(m, bs);
        lemma_outcomes_len(m1, tail);
        assert(os.drop_first() =~= vote_outcomes(m1, tail));
        assert forall|i: int| 0 <= i < bs.len() implies #[trigger] os[i] == OutcomeModel::Accepted(
            bs[i].voter,
            bs[i].candidate->0,
        ) by {
            if i > 0 {
                assert(os[i] == vote_outcomes(m1, tail)[i - 1]);
                assert(tail[i - 1] == bs[i]);
            }
        }
        assert forall|c: Seq<char>|
            score_of(#[trigger] run_votes(m, bs).scoreboard.scores, c) == score_of(
                m.scoreboard.scores,
                c,
            ) + count_ballots_for(bs, c) by {
            lemma_bump_score_of(m.scoreboard.scores, c0, c);
            assert(run_votes(m, bs).scoreboard.scores == run_votes(m1, tail).scoreboard.scores);
            if b.candidate == Some(c) {
                assert(c0 == c);
            }
        }
    }
}

} // verus!
