use voting_machine::dispatch::{display_menu, handle_line, line_mutates, show_scoreboard, tokenize};
use voting_machine::domain::{Candidate, Score, VotingMachine};
use voting_machine::lexicon::Lexicon;

fn setup() -> VotingMachine {
    let mut candidates = vec![];
    candidates.push(Candidate(String::from("Louis")));
    VotingMachine::new(candidates)
}

#[test]
fn test_display_menu_if_no_command() {
    let mut machine = setup();
    let lexicon: Lexicon = Lexicon::french();

    assert_eq!(
        "\nIl y a 4 commandes disponibles :\n1) vote Tux Nixos -> Voter pour Nixos en tant que Tux\n2) vote Tux -> Voter blanc en tant que Tux\n3) voters -> Afficher la liste des votants\n4) scores -> Afficher les scores des candidats\n",
        handle_line("", &mut machine, &lexicon)
    );
}

#[test]
fn test_display_voters() {
    let mut machine = setup();
    let lexicon: Lexicon = Lexicon::french();

    assert_eq!(
        "Votant : AttendenceSheet({})",
        handle_line("voters", &mut machine, &lexicon)
    );
}

#[test]
fn test_display_scores() {
    let mut machine = setup();
    let lexicon: Lexicon = Lexicon::french();

    assert_eq!(
        "Scores actuels : Scoreboard { scores: {Candidate(\"Louis\"): Score(0)}, blank_score: Score(0), invalid_score: Score(0) }",
        handle_line("scores", &mut machine, &lexicon)
    );
}

#[test]
fn test_display_legit_vote() {
    let mut machine = setup();
    let lexicon: Lexicon = Lexicon::french();

    assert_eq!(
        "a voté pour Voter(\"Louis\") Candidate(\"Louis\")",
        handle_line("vote Louis Louis", &mut machine, &lexicon)
    );
}

#[test]
fn test_display_blank_vote() {
    let mut machine = setup();
    let lexicon: Lexicon = Lexicon::french();

    assert_eq!(
        "a voté blanc Voter(\"Louise\")",
        handle_line("vote Louise", &mut machine, &lexicon)
    );
}

#[test]
fn test_vote_command_without_name() {
    let mut machine = setup();
    let lexicon: Lexicon = Lexicon::french();

    assert_eq!(
        "Commande 'vote' invalide, veuillez spécifier un électeur.",
        handle_line("vote", &mut machine, &lexicon)
    );
}

#[test]
fn test_vote_invalid_command() {
    let mut machine = setup();
    let lexicon: Lexicon = Lexicon::french();

    assert_eq!(
        "Commande inconnue. Tapez une commande valide.",
        handle_line("azertyuiop", &mut machine, &lexicon)
    );
}

// The scenario of the whole protocol, end to end through the dispatcher.
#[test]
fn test_single_candidate_scenario() {
    let mut machine = VotingMachine::new(vec![Candidate(String::from("Nixos"))]);
    let lexicon = Lexicon::french();

    assert_eq!(
        "a voté pour Voter(\"Tux\") Candidate(\"Nixos\")",
        handle_line("vote Tux Nixos", &mut machine, &lexicon)
    );
    assert_eq!(machine.get_scoreboard().scores[0].1, Score(1));

    assert_eq!(
        "a déjà voté Voter(\"Tux\")",
        handle_line("vote Tux Nixos", &mut machine, &lexicon)
    );
    assert_eq!(machine.get_scoreboard().scores[0].1, Score(1));

    assert_eq!(
        "a voté blanc Voter(\"Ada\")",
        handle_line("vote Ada", &mut machine, &lexicon)
    );
    assert_eq!(machine.get_scoreboard().blank_score, Score(1));

    assert_eq!(
        "a voté nul Voter(\"Bob\")",
        handle_line("vote Bob Windows", &mut machine, &lexicon)
    );
    assert_eq!(machine.get_scoreboard().invalid_score, Score(1));
    assert_eq!(machine.get_scoreboard().scores[0].1, Score(1));

    assert_eq!(
        "Scores actuels : Scoreboard { scores: {Candidate(\"Nixos\"): Score(1)}, blank_score: Score(1), invalid_score: Score(1) }",
        handle_line("scores", &mut machine, &lexicon)
    );
    assert_eq!(
        "Votant : AttendenceSheet({Voter(\"Tux\"), Voter(\"Ada\"), Voter(\"Bob\")})",
        handle_line("voters", &mut machine, &lexicon)
    );
}

#[test]
fn test_english_lexicon_responses() {
    let mut machine = VotingMachine::new(vec![Candidate(String::from("Nixos"))]);
    let lexicon = Lexicon::english();

    assert_eq!(
        "has voted for Voter(\"Tux\") Candidate(\"Nixos\")",
        handle_line("vote Tux Nixos", &mut machine, &lexicon)
    );
    assert_eq!(
        "Unknown command. Please enter a valid command.",
        handle_line("nonsense", &mut machine, &lexicon)
    );
    assert_eq!(display_menu(&lexicon), Lexicon::english().menu);
}

#[test]
fn test_tokenize_splits_on_ascii_whitespace() {
    let tokens = tokenize("  vote\tTux \r\n Nixos  ");
    assert_eq!(tokens, vec!["vote", "Tux", "Nixos"]);
    assert_eq!(tokenize(""), Vec::<String>::new());
    assert_eq!(tokenize(" \t "), Vec::<String>::new());
    assert_eq!(tokenize("scores"), vec!["scores"]);
}

#[test]
fn test_extra_tokens_are_ignored() {
    let mut machine = setup();
    let lexicon = Lexicon::french();

    assert_eq!(
        "a voté pour Voter(\"Tux\") Candidate(\"Louis\")",
        handle_line("vote Tux Louis extra words", &mut machine, &lexicon)
    );
}

#[test]
fn test_line_mutates_only_for_ballots() {
    assert!(line_mutates("vote Tux Nixos"));
    assert!(line_mutates("  vote Tux  "));
    assert!(!line_mutates("vote"));
    assert!(!line_mutates("scores"));
    assert!(!line_mutates("voters"));
    assert!(!line_mutates(""));
}

#[test]
fn test_old_command_names_are_unknown() {
    let mut machine = setup();
    let lexicon = Lexicon::french();

    assert_eq!(
        "Commande inconnue. Tapez une commande valide.",
        handle_line("voter Tux Louis", &mut machine, &lexicon)
    );
    assert_eq!(
        "Commande inconnue. Tapez une commande valide.",
        handle_line("votants", &mut machine, &lexicon)
    );
    assert_eq!(machine.get_voters().0.len(), 0);
}

#[test]
fn test_show_scoreboard_two_candidates() {
    let machine = VotingMachine::new(vec![
        Candidate(String::from("A")),
        Candidate(String::from("B")),
    ]);
    let lexicon = Lexicon::english();
    assert_eq!(
        "Current scores : Scoreboard { scores: {Candidate(\"A\"): Score(0), Candidate(\"B\"): Score(0)}, blank_score: Score(0), invalid_score: Score(0) }",
        show_scoreboard(machine.get_scoreboard(), &lexicon)
    );
}
