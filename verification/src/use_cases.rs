//! The controller-facing request type and the in-memory storage backend. The
//! concurrency boundary itself — the lock around a shared backend — lives
//! outside the core; what it runs per request is the pure logic here.

use vstd::prelude::*;

use crate::domain::{BallotPaper, Candidate, MachineModel, Voter, VotingMachine};

verus! {

/// A vote request as a transport hands it over: a voter name and a candidate
/// name, the empty candidate standing for a blank ballot.
pub struct VoteForm {
    pub voter: String,
    pub candidate: String,
}

impl Clone for VoteForm {
    /// Cloning a form keeps both names.
    fn clone(&self) -> (r: Self)
        ensures
            r.voter@ == self.voter@,
            r.candidate@ == self.candidate@,
    {
        VoteForm { voter: self.voter.clone(), candidate: self.candidate.clone() }
    }
}

impl BallotPaper {
    /// The ballot a form stands for: an empty candidate name is a blank vote.
    pub fn from(vote_form: VoteForm) -> (r: Self)
        ensures
            r@.voter == vote_form.voter@,
            r@.candidate == if vote_form.candidate@.len() == 0 {
                None::<Seq<char>>
            } else {
                Some(vote_form.candidate@)
            },
    {
        let VoteForm { voter, candidate } = vote_form;
        let candidate = if candidate.as_str().is_empty() {
            None
        } else {
            Some(Candidate(candidate))
        };
        BallotPaper { voter: Voter(voter), candidate }
    }
}

/// The in-memory storage backend: it holds one machine snapshot for the
/// lifetime of the process and hands out copies.
pub struct MemoryStore {
    machine: VotingMachine,
}

impl View for MemoryStore {
    type V = MachineModel;

    closed spec fn view(&self) -> MachineModel {
        self.machine@
    }
}

impl Clone for MemoryStore {
    /// Cloning a store copies its snapshot.
    fn clone(&self) -> (r: Self)
        ensures
            r@ == self@,
    {
        MemoryStore { machine: self.machine.clone() }
    }
}

impl MemoryStore {
    /// Creates the store holding the given snapshot; never fails.
    pub fn new(machine: VotingMachine) -> (r: Self)
        ensures
            r@ == machine@,
    {
        MemoryStore { machine }
    }

    /// Reads the current snapshot: a copy of the held machine; never fails.
    pub fn get_voting_machine(&self) -> (r: VotingMachine)
        ensures
            r@ == self@,
    {
        self.machine.clone()
    }

    /// Replaces the held snapshot as a whole; never fails.
    pub fn put_voting_machine(&mut self, machine: VotingMachine)
        ensures
            final(self)@ == machine@,
    {
        self.machine = machine;
    }
}

} // verus!
