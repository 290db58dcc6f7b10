//! Localized response texts. A `Lexicon` is handed to the dispatcher so the
//! same command logic can answer in any supported language.

use vstd::prelude::*;

verus! {

/// The table of localized texts used to phrase every response.
#[derive(PartialEq, Eq)]
pub struct Lexicon {
    pub blank: &'static str,
    pub candidate: &'static str,
    pub voter: &'static str,
    pub has_voted_null: &'static str,
    pub has_voted_blank: &'static str,
    pub has_already_voted: &'static str,
    pub has_voted_for: &'static str,
    pub actual_score: &'static str,
    pub menu: &'static str,
    pub invalid_command_vote: &'static str,
    pub unokwn_command: &'static str,
    pub scores: &'static str,
}

impl Clone for Lexicon {
    /// Cloning a lexicon keeps every text.
    fn clone(&self) -> (r: Self)
        ensures
            r == *self,
    {
        Lexicon {
            blank: self.blank,
            candidate: self.candidate,
            voter: self.voter,
            has_voted_null: self.has_voted_null,
            has_voted_blank: self.has_voted_blank,
            has_already_voted: self.has_already_voted,
            has_voted_for: self.has_voted_for,
            actual_score: self.actual_score,
            menu: self.menu,
            invalid_command_vote: self.invalid_command_vote,
            unokwn_command: self.unokwn_command,
            scores: self.scores,
        }
    }
}

impl Lexicon {
    /// The English response texts.
    pub fn english() -> (r: Self)
        ensures
            r.blank@ == "Blank"@,
            r.candidate@ == "Candidate"@,
            r.scores@ == "Scores"@,
            r.has_voted_null@ == "has cast a null vote"@,
            r.has_voted_blank@ == "has cast a blank vote"@,
            r.has_already_voted@ == "has already voted"@,
            r.has_voted_for@ == "has voted for"@,
            r.actual_score@ == "Current scores"@,
            r.voter@ == "Voter"@,
            r.menu@
                == "\nThere are 4 available commands:\n1) vote Tux Nixos -> Vote for Nixos as Tux\n2) vote Tux -> Vote blank as Tux\n3) voters -> Show the list of voters\n4) scores -> Display candidate scores\n"@,
            r.invalid_command_vote@ == "Invalid 'vote' command, please specify a voter."@,
            r.unokwn_command@ == "Unknown command. Please enter a valid command."@,
    {
        Lexicon {
            blank: "Blank",
            candidate: "Candidate",
            voter: "Voter",
            has_voted_null: "has cast a null vote",
            has_voted_blank: "has cast a blank vote",
            has_already_voted: "has already voted",
            has_voted_for: "has voted for",
            actual_score: "Current scores",
            menu: "\nThere are 4 available commands:\n1) vote Tux Nixos -> Vote for Nixos as Tux\n2) vote Tux -> Vote blank as Tux\n3) voters -> Show the list of voters\n4) scores -> Display candidate scores\n",
            invalid_command_vote: "Invalid 'vote' command, please specify a voter.",
            unokwn_command: "Unknown command. Please enter a valid command.",
            scores: "Scores",
        }
    }

    /// The French response texts.
    pub fn french() -> (r: Self)
        ensures
            r.blank@ == "Blanc"@,
            r.candidate@ == "Candidat"@,
            r.scores@ == "Scores"@,
            r.has_voted_null@ == "a voté nul"@,
            r.has_voted_blank@ == "a voté blanc"@,
            r.has_already_voted@ == "a déjà voté"@,
            r.has_voted_for@ == "a voté pour"@,
            r.actual_score@ == "Scores actuels"@,
            r.voter@ == "Votant"@,
            r.menu@
                == "\nIl y a 4 commandes disponibles :\n1) vote Tux Nixos -> Voter pour Nixos en tant que Tux\n2) vote Tux -> Voter blanc en tant que Tux\n3) voters -> Afficher la liste des votants\n4) scores -> Afficher les scores des candidats\n"@,
            r.invalid_command_vote@ == "Commande 'vote' invalide, veuillez spécifier un électeur."@,
            r.unokwn_command@ == "Commande inconnue. Tapez une commande valide."@,
    {
        Lexicon {
            blank: "Blanc",
            candidate: "Candidat",
            voter: "Votant",
            has_voted_null: "a voté nul",
            has_voted_blank: "a voté blanc",
            has_already_voted: "a déjà voté",
            has_voted_for: "a voté pour",
            actual_score: "Scores actuels",
            menu: "\nIl y a 4 commandes disponibles :\n1) vote Tux Nixos -> Voter pour Nixos en tant que Tux\n2) vote Tux -> Voter blanc en tant que Tux\n3) voters -> Afficher la liste des votants\n4) scores -> Afficher les scores des candidats\n",
            invalid_command_vote: "Commande 'vote' invalide, veuillez spécifier un électeur.",
            unokwn_command: "Commande inconnue. Tapez une commande valide.",
            scores: "Scores",
        }
    }
}

} // verus!
