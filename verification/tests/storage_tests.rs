use voting_machine::configuration::{create_voting_machine, Configuration, Language, ServiceType, StorageType};
use voting_machine::domain::{BallotPaper, Candidate, Score, Scoreboard, VoteOutcome, Voter, VotingMachine};
use voting_machine::snapshot::{encode_snapshot, parse_snapshot, VotingMachineDao};
use voting_machine::use_cases::{MemoryStore, VoteForm};

fn vote_through_store(store: &mut MemoryStore, vote_form: VoteForm) -> VoteOutcome {
    let mut machine = store.get_voting_machine();
    let outcome = machine.vote(BallotPaper::from(vote_form));
    store.put_voting_machine(machine);
    outcome
}

#[test]
fn memory_test_get_return_what_we_inserted() {
    let voting_machine: VotingMachine =
        VotingMachine::new(vec![Candidate(String::from("Louis"))]);

    let mut store: MemoryStore = MemoryStore::new(voting_machine.clone());

    store.put_voting_machine(voting_machine.clone());

    let expected_machine = store.get_voting_machine();

    assert_eq!(expected_machine, voting_machine);
}

#[test]
fn test_keep_file_informations_between_many_instance() {
    let voting_machine: VotingMachine =
        VotingMachine::new(vec![Candidate(String::from("Louis"))]);

    let mut store1: MemoryStore = MemoryStore::new(voting_machine.clone());
    let store2: MemoryStore = MemoryStore::new(voting_machine.clone());

    store1.put_voting_machine(voting_machine.clone());

    let machine2 = store1.get_voting_machine();
    let machine1 = store2.get_voting_machine();

    assert_eq!(machine1, machine2);
}

#[test]
fn use_cases_test_accepted_vote() {
    let candidates = vec![Candidate(String::from("Louis"))];
    let voting_machine: VotingMachine = VotingMachine::new(candidates);
    let mut store = MemoryStore::new(voting_machine);

    let vote_form = VoteForm {
        voter: String::from("Louis"),
        candidate: String::from("Louis"),
    };
    let correct_scoreboard = Scoreboard {
        scores: vec![(Candidate(String::from("Louis")), Score(1))],
        blank_score: Score(0),
        invalid_score: Score(0),
    };
    let result = vote_through_store(&mut store, vote_form);
    let voting_machine = store.get_voting_machine();
    assert_eq!(
        result,
        VoteOutcome::AcceptedVote(
            Voter(String::from("Louis")),
            Candidate(String::from("Louis"))
        )
    );
    assert_eq!(correct_scoreboard, voting_machine.get_scoreboard().clone());
}

#[test]
fn use_cases_test_blank_vote() {
    let candidates = vec![Candidate(String::from("Louis"))];
    let voting_machine: VotingMachine = VotingMachine::new(candidates);
    let mut store = MemoryStore::new(voting_machine);

    let vote_form = VoteForm {
        voter: String::from("Louis"),
        candidate: String::from(""),
    };
    let correct_scoreboard = Scoreboard {
        scores: vec![(Candidate(String::from("Louis")), Score(0))],
        blank_score: Score(1),
        invalid_score: Score(0),
    };
    let result = vote_through_store(&mut store, vote_form);
    let voting_machine = store.get_voting_machine();
    assert_eq!(result, VoteOutcome::BlankVote(Voter(String::from("Louis"))));
    assert_eq!(correct_scoreboard, voting_machine.get_scoreboard().clone());
}

#[test]
fn test_null_vote() {
    let candidates = vec![Candidate(String::from("Louis"))];
    let voting_machine: VotingMachine = VotingMachine::new(candidates);
    let mut store = MemoryStore::new(voting_machine);

    let vote_form = VoteForm {
        voter: String::from("Louis"),
        candidate: String::from("Jeane oscour"),
    };
    let correct_scoreboard = Scoreboard {
        scores: vec![(Candidate(String::from("Louis")), Score(0))],
        blank_score: Score(0),
        invalid_score: Score(1),
    };
    let result = vote_through_store(&mut store, vote_form);
    let voting_machine = store.get_voting_machine();
    assert_eq!(result, VoteOutcome::InvalidVote(Voter(String::from("Louis"))));
    assert_eq!(correct_scoreboard, voting_machine.get_scoreboard().clone());
}

#[test]
fn use_cases_test_has_already_voted() {
    let candidates = vec![Candidate(String::from("Louis"))];
    let voting_machine: VotingMachine = VotingMachine::new(candidates.clone());
    let mut store = MemoryStore::new(voting_machine);

    let vote_form = VoteForm {
        voter: String::from("Louis"),
        candidate: String::from("Jeane oscour"),
    };
    let correct_scoreboard = Scoreboard {
        scores: vec![(Candidate(String::from("Louis")), Score(0))],
        blank_score: Score(0),
        invalid_score: Score(1),
    };
    vote_through_store(&mut store, vote_form.clone());
    let result = vote_through_store(&mut store, vote_form.clone());

    let voting_machine = store.get_voting_machine();
    assert_eq!(
        result,
        VoteOutcome::HasAlreadyVoted(Voter(String::from("Louis")))
    );
    assert_eq!(correct_scoreboard, voting_machine.get_scoreboard().clone());
}

fn populated_machine() -> VotingMachine {
    let mut machine = VotingMachine::new(vec![
        Candidate(String::from("Nixos")),
        Candidate(String::from("Plan9")),
    ]);
    machine.vote(BallotPaper {
        voter: Voter(String::from("Tux")),
        candidate: Some(Candidate(String::from("Nixos"))),
    });
    machine.vote(BallotPaper {
        voter: Voter(String::from("Ada")),
        candidate: None,
    });
    machine.vote(BallotPaper {
        voter: Voter(String::from("Bob")),
        candidate: Some(Candidate(String::from("Windows"))),
    });
    machine
}

// Writing a machine and reading the text back yields an equal value in all
// observable fields.
#[test]
fn test_snapshot_round_trip() {
    let machine = populated_machine();
    let text = encode_snapshot(&machine);
    let recovered = parse_snapshot(text.as_str()).expect("the encoded snapshot must parse");
    assert_eq!(machine, recovered);
}

#[test]
fn test_snapshot_round_trip_empty_machine() {
    let machine = VotingMachine::new(vec![]);
    let text = encode_snapshot(&machine);
    let recovered = parse_snapshot(text.as_str()).expect("the encoded snapshot must parse");
    assert_eq!(machine, recovered);
}

#[test]
fn test_snapshot_text_shape() {
    let machine = VotingMachine::new(vec![Candidate(String::from("Nixos"))]);
    assert_eq!(encode_snapshot(&machine), "1 5 Nixos0 0 0 0 ");
}

// Malformed or inconsistent snapshot text is rejected, never silently mended.
#[test]
fn test_snapshot_rejects_malformed_text() {
    assert!(parse_snapshot("").is_none());
    assert!(parse_snapshot("not a snapshot").is_none());
    assert!(parse_snapshot("1 5 Nixos0 0 0 0 trailing").is_none());
    // One voter on the sheet but no effect accounted for: inconsistent.
    assert!(parse_snapshot("1 5 Nixos0 0 0 1 3 Tux").is_none());
    // The same voter recorded twice: inconsistent.
    assert!(parse_snapshot("1 5 Nixos2 0 0 2 3 Tux3 Tux").is_none());
}

#[test]
fn test_snapshot_rejects_numbers_too_large() {
    // A count that cannot fit the machine's word size is rejected, not
    // truncated.
    assert!(parse_snapshot("99999999999999999999999999 0 0 0 ").is_none());
    assert!(parse_snapshot("1 5 Nixos99999999999999999999999999 0 0 0 ").is_none());
}

#[test]
fn test_snapshot_accepts_consistent_text() {
    let text = "1 5 Nixos1 0 0 1 3 Tux";
    let machine = parse_snapshot(text).expect("a consistent snapshot must parse");
    assert_eq!(machine.get_voters().0, vec![Voter(String::from("Tux"))]);
    assert_eq!(
        machine.get_scoreboard().scores,
        vec![(Candidate(String::from("Nixos")), Score(1))]
    );
}

#[test]
fn test_dao_round_trip() {
    let machine = populated_machine();
    let dao = VotingMachineDao::from(machine.clone());
    assert_eq!(VotingMachine::from(dao), machine);
}

#[test]
fn test_vote_form_empty_candidate_is_blank() {
    let blank = BallotPaper::from(VoteForm {
        voter: String::from("Tux"),
        candidate: String::from(""),
    });
    assert!(blank.candidate.is_none());
    assert_eq!(blank.voter, Voter(String::from("Tux")));

    let named = BallotPaper::from(VoteForm {
        voter: String::from("Tux"),
        candidate: String::from("Nixos"),
    });
    assert_eq!(named.candidate, Some(Candidate(String::from("Nixos"))));
}

#[test]
fn test_create_voting_machine_from_configuration() {
    let configuration = Configuration {
        candidates: vec![String::from("Nixos"), String::from("Plan9")],
        storage_type: StorageType::Memory,
        language: Language::EN,
        service: ServiceType::STDIO,
        port: None,
    };
    let machine = create_voting_machine(&configuration);
    assert_eq!(
        machine.get_scoreboard().scores,
        vec![
            (Candidate(String::from("Nixos")), Score(0)),
            (Candidate(String::from("Plan9")), Score(0)),
        ]
    );
    assert_eq!(machine.get_voters().0.len(), 0);
}
