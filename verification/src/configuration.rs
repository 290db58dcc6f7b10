//! The startup configuration, resolved once before the core starts, and the
//! machine built from its candidate list.

use vstd::prelude::*;

use crate::domain::{init_scores, spec_inv, Candidate, VotingMachine};

verus! {

/// Which storage backend holds the machine snapshot.
#[derive(Clone, Copy, Debug, PartialEq, Eq)]
pub enum StorageType {
    File,
    Memory,
}

/// Which language the responses use.
#[derive(Clone, Copy, Debug, PartialEq, Eq)]
pub enum Language {
    FR,
    EN,
}

/// Which transport serves requests.
#[derive(Clone, Copy, Debug, PartialEq, Eq)]
pub enum ServiceType {
    STDIO,
    UDP,
    TCP,
}

/// Everything resolved at startup: the candidate list, the storage backend,
/// the response language, the transport, and its port.
pub struct Configuration {
    pub candidates: Vec<String>,
    pub storage_type: StorageType,
    pub language: Language,
    pub service: ServiceType,
    pub port: Option<u16>,
}

/// Builds the initial machine for the configured candidates: empty
/// attendance, every configured candidate tallied at zero.
pub fn create_voting_machine(configuration: &Configuration) -> (r: VotingMachine)
    ensures
        r@.voters =~= Seq::<Seq<char>>::empty(),
        r@.scoreboard.scores == init_scores(configuration.candidates.deep_view()),
        r@.scoreboard.blank == 0,
        r@.scoreboard.invalid == 0,
        spec_inv(r@),
{
    let mut candidates: Vec<Candidate> = Vec::new();
    let mut i: usize = 0;
    let n = configuration.candidates.len();
    while i < n
        invariant
            i <= n,
            n == configuration.candidates.len(),
            candidates.deep_view() =~= configuration.candidates.deep_view().take(i as int),
        decreases n - i,
    {
        let ghost prev = candidates.deep_view();
        candidates.push(Candidate(configuration.candidates[i].clone()));
        proof {
            assert(candidates.deep_view() =~= prev.push(configuration.candidates@[i as int]@));
            assert(candidates.deep_view() =~= configuration.candidates.deep_view().take(
                i as int + 1,
            ));
        }
        i = i + 1;
    }
    proof {
        assert(configuration.candidates.deep_view().take(n as int)
            =~= configuration.candidates.deep_view());
    }
    VotingMachine::new(candidates)
}

} // verus!
