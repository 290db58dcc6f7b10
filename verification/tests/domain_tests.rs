use voting_machine::domain::{BallotPaper, Candidate, Score, Scoreboard, VoteOutcome, Voter, VotingMachine};

fn setup() -> VotingMachine {
    let candidates = vec![
        Candidate(String::from("Biggard")),
        Candidate(String::from("Louis")),
    ];

    VotingMachine::new(candidates)
}

#[test]
fn domain_test_accepted_vote() {
    let mut voting_machine = setup();

    let ballot_paper = BallotPaper {
        voter: Voter(String::from("Louis")),
        candidate: Some(Candidate(String::from("Biggard"))),
    };

    let outcome = voting_machine.vote(ballot_paper);

    match outcome {
        VoteOutcome::AcceptedVote(_, candidate) => {
            assert_eq!(candidate.0, "Biggard");
        }
        _ => panic!("Expected AcceptedVote"),
    }
}

#[test]
fn domain_test_blank_vote() {
    let mut voting_machine = setup();

    let ballot_paper = BallotPaper {
        voter: Voter(String::from("John")),
        candidate: None,
    };

    let outcome = voting_machine.vote(ballot_paper);

    match outcome {
        VoteOutcome::BlankVote(voter) => {
            assert_eq!(voter.0, "John");
        }
        _ => panic!("Expected BlankVote"),
    }
}

#[test]
fn test_invalid_vote() {
    let mut voting_machine = setup();

    let ballot_paper = BallotPaper {
        voter: Voter(String::from("John")),
        candidate: Some(Candidate(String::from("Invalid"))),
    };

    let outcome = voting_machine.vote(ballot_paper);

    match outcome {
        VoteOutcome::InvalidVote(voter) => {
            assert_eq!(voter.0, "John");
        }
        _ => panic!("Expected InvalidVote"),
    }
}

#[test]
fn domain_test_has_already_voted() {
    let mut voting_machine = setup();

    let ballot_paper_1 = BallotPaper {
        voter: Voter(String::from("Alice")),
        candidate: Some(Candidate(String::from("Biggard"))),
    };

    let ballot_paper_2 = BallotPaper {
        voter: Voter(String::from("Alice")),
        candidate: Some(Candidate(String::from("Louis"))),
    };

    voting_machine.vote(ballot_paper_1);

    let outcome = voting_machine.vote(ballot_paper_2);

    match outcome {
        VoteOutcome::HasAlreadyVoted(voter) => {
            assert_eq!(voter.0, "Alice");
        }
        _ => panic!("Expected HasAlreadyVoted"),
    }
}

fn ballot(voter: &str, candidate: Option<&str>) -> BallotPaper {
    BallotPaper {
        voter: Voter(String::from(voter)),
        candidate: candidate.map(|c| Candidate(String::from(c))),
    }
}

// Attendance counts distinct voters: repeated voters add nothing and change
// no counter.
#[test]
fn test_attendance_counts_distinct_voters() {
    let mut machine = VotingMachine::new(vec![Candidate(String::from("Nixos"))]);

    machine.vote(ballot("Tux", Some("Nixos")));
    machine.vote(ballot("Ada", None));
    machine.vote(ballot("Bob", Some("Windows")));
    let before = machine.get_scoreboard().clone();

    let repeat = machine.vote(ballot("Tux", Some("Nixos")));
    assert_eq!(repeat, VoteOutcome::HasAlreadyVoted(Voter(String::from("Tux"))));
    let repeat_blank = machine.vote(ballot("Ada", None));
    assert_eq!(repeat_blank, VoteOutcome::HasAlreadyVoted(Voter(String::from("Ada"))));

    assert_eq!(machine.get_voters().0.len(), 3);
    assert_eq!(machine.get_scoreboard(), &before);
}

// Each candidate's tally equals the number of accepted votes for it.
#[test]
fn test_scores_count_accepted_votes() {
    let mut machine = VotingMachine::new(vec![
        Candidate(String::from("Nixos")),
        Candidate(String::from("Plan9")),
    ]);

    machine.vote(ballot("a", Some("Nixos")));
    machine.vote(ballot("b", Some("Nixos")));
    machine.vote(ballot("c", Some("Plan9")));
    machine.vote(ballot("d", Some("Nixos")));
    machine.vote(ballot("b", Some("Plan9")));

    let expected = Scoreboard {
        scores: vec![
            (Candidate(String::from("Nixos")), Score(3)),
            (Candidate(String::from("Plan9")), Score(1)),
        ],
        blank_score: Score(0),
        invalid_score: Score(0),
    };
    assert_eq!(machine.get_scoreboard(), &expected);
}

// Accepted, blank and invalid effects together account for every voter on
// the attendance sheet.
#[test]
fn test_effects_account_for_attendance() {
    let mut machine = VotingMachine::new(vec![Candidate(String::from("Nixos"))]);

    machine.vote(ballot("a", Some("Nixos")));
    machine.vote(ballot("b", None));
    machine.vote(ballot("c", Some("Windows")));
    machine.vote(ballot("d", Some("Nixos")));
    machine.vote(ballot("a", None));

    let scoreboard = machine.get_scoreboard();
    let tallied: usize = scoreboard.scores.iter().map(|e| (e.1).0).sum();
    let total = tallied + scoreboard.blank_score.0 + scoreboard.invalid_score.0;
    assert_eq!(total, machine.get_voters().0.len());
    assert_eq!(total, 4);
}

// Distinct voters naming configured candidates are all accepted: none is
// lost, whatever order the controller serialized them in.
#[test]
fn test_distinct_voters_all_accepted() {
    let mut machine = VotingMachine::new(vec![Candidate(String::from("Nixos"))]);

    for voter in ["a", "b", "c", "d", "e"] {
        let outcome = machine.vote(ballot(voter, Some("Nixos")));
        assert_eq!(
            outcome,
            VoteOutcome::AcceptedVote(
                Voter(String::from(voter)),
                Candidate(String::from("Nixos"))
            )
        );
    }
    assert_eq!(machine.get_scoreboard().scores[0].1, Score(5));
    assert_eq!(machine.get_voters().0.len(), 5);
}

// A machine starts with every configured candidate at zero, each listed once.
#[test]
fn test_new_machine_is_zeroed() {
    let machine = VotingMachine::new(vec![
        Candidate(String::from("Nixos")),
        Candidate(String::from("Plan9")),
        Candidate(String::from("Nixos")),
    ]);

    let expected = Scoreboard {
        scores: vec![
            (Candidate(String::from("Nixos")), Score(0)),
            (Candidate(String::from("Plan9")), Score(0)),
        ],
        blank_score: Score(0),
        invalid_score: Score(0),
    };
    assert_eq!(machine.get_scoreboard(), &expected);
    assert_eq!(machine.get_voters().0.len(), 0);
}
