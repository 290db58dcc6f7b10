//! The command dispatcher shared by every transport: it parses one line of
//! text into whitespace-separated tokens, applies the selected command to the
//! voting machine, and phrases the response with the given lexicon. It is
//! transport-agnostic and performs no I/O.

use vstd::prelude::*;

use crate::digits::{dec_rep, usize_to_string};
use crate::domain::{
    spec_inv, spec_vote, BallotModel, BallotPaper, Candidate, MachineModel, OutcomeModel,
    ScoreboardModel, AttendenceSheet, Scoreboard, VoteOutcome, Voter, VotingMachine,
};
use crate::lexicon::Lexicon;

verus! {

/// Whether `c` separates command tokens: ASCII whitespace.
pub open spec fn is_cmd_ws(c: char) -> bool {
    c == ' ' || c == '\t' || c == '\n' || c == '\r' || c == '\u{c}'
}

/// The length of the leading run of non-whitespace characters.
pub open spec fn token_run(s: Seq<char>) -> nat
    decreases s.len(),
{
    if s.len() == 0 {
        0
    } else if is_cmd_ws(s[0]) {
        0
    } else {
        1 + token_run(s.drop_first())
    }
}

/// The leading token run stays within the string and is nonempty exactly when
/// the string starts with a non-whitespace character.
pub proof fn lemma_token_run_bounds(s: Seq<char>)
    ensures
        token_run(s) <= s.len(),
        s.len() > 0 && !is_cmd_ws(s[0]) ==> token_run(s) >= 1,
    decreases s.len(),
{
    if s.len() > 0 && !is_cmd_ws(s[0]) {
        lemma_token_run_bounds(s.drop_first());
    }
}

#[via_fn]
proof fn spec_tokens_decreases(s: Seq<char>) {
    lemma_token_run_bounds(s);
}

/// The whitespace-separated tokens of a line, in order.
pub open spec fn spec_tokens(s: Seq<char>) -> Seq<Seq<char>>
    decreases s.len(),
        via spec_tokens_decreases
{
    if s.len() == 0 {
        Seq::empty()
    } else if is_cmd_ws(s[0]) {
        spec_tokens(s.drop_first())
    } else {
        seq![s.take(token_run(s) as int)] + spec_tokens(s.skip(token_run(s) as int))
    }
}

/// A run of `k` non-whitespace characters ended by the string's end or a
/// whitespace character is exactly the leading token run.
proof fn lemma_token_run_value(s: Seq<char>, k: int)
    requires
        0 <= k <= s.len(),
        forall|m: int| 0 <= m < k ==> !is_cmd_ws(#[trigger] s[m]),
        k == s.len() || is_cmd_ws(s[k]),
    ensures
        token_run(s) == k,
    decreases k,
{
    if k == 0 {
    } else {
        assert(!is_cmd_ws(s[0]));
        lemma_token_run_value(s.drop_first(), k - 1);
    }
}

/// Whether `c` separates command tokens.
pub fn is_ws_char(c: char) -> (r: bool)
    ensures
        r == is_cmd_ws(c),
{
    c == ' ' || c == '\t' || c == '\n' || c == '\r' || c == '\u{c}'
}

/// Splits a line into its whitespace-separated tokens.
pub fn tokenize(line: &str) -> (tokens: Vec<String>)
    ensures
        tokens.deep_view() == spec_tokens(line@),
{
    let n = line.unicode_len();
    let mut tokens: Vec<String> = Vec::new();
    let mut i: usize = 0;
    proof {
        assert(tokens.deep_view() =~= Seq::<Seq<char>>::empty());
        assert(line@.skip(0) =~= line@);
    }
    while i < n
        invariant
            i <= n,
            n == line@.len(),
            spec_tokens(line@) == tokens.deep_view() + spec_tokens(line@.skip(i as int)),
        decreases n - i,
    {
        let c = line.get_char(i);
        if is_ws_char(c) {
            proof {
                assert(line@.skip(i as int).drop_first() =~= line@.skip(i as int + 1));
            }
            i = i + 1;
        } else {
            let mut j = i;
            loop
                invariant_except_break
                    i <= j <= n,
                    n == line@.len(),
                    forall|k: int| i <= k < j ==> !is_cmd_ws(#[trigger] line@[k]),
                ensures
                    i <= j <= n,
                    n == line@.len(),
                    forall|k: int| i <= k < j ==> !is_cmd_ws(#[trigger] line@[k]),
                    j == n || is_cmd_ws(line@[j as int]),
                decreases n - j,
            {
                if j == n {
                    break ;
                }
                if is_ws_char(line.get_char(j)) {
                    break ;
                }
                j = j + 1;
            }
            let token = String::from_str(line.substring_char(i, j));
            let ghost prev = tokens.deep_view();
            let ghost rest = line@.skip(i as int);
            proof {
                assert forall|m: int| 0 <= m < j - i implies !is_cmd_ws(#[trigger] rest[m]) by {
                    assert(rest[m] == line@[i + m]);
                }
                if j < n {
                    assert(rest[j - i] == line@[j as int]);
                }
                lemma_token_run_value(rest, j - i);
                assert(rest.take(j - i) =~= line@.subrange(i as int, j as int));
                assert(rest.skip(j - i) =~= line@.skip(j as int));
                assert(spec_tokens(rest) == seq![line@.subrange(i as int, j as int)] + spec_tokens(
                    line@.skip(j as int),
                ));
            }
            tokens.push(token);
            proof {
                assert(tokens.deep_view() =~= prev.push(line@.subrange(i as int, j as int)));
                assert(tokens.deep_view() + spec_tokens(line@.skip(j as int)) =~= prev + (seq![
                    line@.subrange(i as int, j as int),
                ] + spec_tokens(line@.skip(j as int))));
            }
            i = j;
        }
    }
    proof {
        assert(line@.skip(n as int) =~= Seq::<char>::empty());
        assert(spec_tokens(Seq::<char>::empty()) =~= Seq::<Seq<char>>::empty());
        assert(tokens.deep_view() + Seq::<Seq<char>>::empty() =~= tokens.deep_view());
    }
    tokens
}

/// Whether a string holds exactly the given text.
fn str_is(s: &String, lit: &str) -> (r: bool)
    ensures
        r == (s@ == lit@),
{
    let l = String::from_str(lit);
    *s == l
}

/// Whether a line is a ballot submission: a `vote` command naming a voter.
/// Only such a line can change the machine.
pub open spec fn spec_line_mutates(line: Seq<char>) -> bool {
    let toks = spec_tokens(line);
    toks.len() >= 2 && toks[0] == "vote"@
}

/// Whether dispatching `line` can change the machine. The concurrency
/// boundary uses this to serve queries under shared access: `handle_line`
/// leaves the machine untouched whenever this is false.
pub fn line_mutates(line: &str) -> (r: bool)
    ensures
        r == spec_line_mutates(line@),
{
    let tokens = tokenize(line);
    if tokens.len() >= 2 {
        proof {
            assert(spec_tokens(line@)[0] == tokens.deep_view()[0]);
        }
        str_is(&tokens[0], "vote")
    } else {
        false
    }
}

/// The text displayed for one voter: its debug rendering.
pub open spec fn spec_voter_text(v: Seq<char>) -> Seq<char> {
    "Voter(\""@ + v + "\")"@
}

/// The text displayed for one candidate: its debug rendering.
pub open spec fn spec_candidate_text(c: Seq<char>) -> Seq<char> {
    "Candidate(\""@ + c + "\")"@
}

/// The response phrased for a vote outcome.
pub open spec fn spec_show_outcome(o: OutcomeModel, lex: Lexicon) -> Seq<char> {
    match o {
        OutcomeModel::Invalid(v) => lex.has_voted_null@ + " "@ + spec_voter_text(v),
        OutcomeModel::Blank(v) => lex.has_voted_blank@ + " "@ + spec_voter_text(v),
        OutcomeModel::Already(v) => lex.has_already_voted@ + " "@ + spec_voter_text(v),
        OutcomeModel::Accepted(v, c) => lex.has_voted_for@ + " "@ + spec_voter_text(v) + " "@
            + spec_candidate_text(c),
    }
}

/// The text of one scoreboard entry.
pub open spec fn spec_score_entry(e: (Seq<char>, nat)) -> Seq<char> {
    "Candidate(\""@ + e.0 + "\"): Score("@ + dec_rep(e.1) + ")"@
}

/// The scoreboard entries joined with commas, in scoreboard order.
pub open spec fn spec_score_entries(s: Seq<(Seq<char>, nat)>) -> Seq<char>
    decreases s.len(),
{
    if s.len() == 0 {
        Seq::empty()
    } else if s.len() == 1 {
        spec_score_entry(s[0])
    } else {
        spec_score_entries(s.drop_last()) + ", "@ + spec_score_entry(s.last())
    }
}

/// The response displaying the whole scoreboard.
pub open spec fn spec_show_scoreboard(sb: ScoreboardModel, lex: Lexicon) -> Seq<char> {
    lex.actual_score@ + " : Scoreboard { scores: {"@ + spec_score_entries(sb.scores)
        + "}, blank_score: Score("@ + dec_rep(sb.blank) + "), invalid_score: Score("@ + dec_rep(
        sb.invalid,
    ) + ") }"@
}

/// The attendance entries joined with commas, in first-vote order.
pub open spec fn spec_voter_entries(vs: Seq<Seq<char>>) -> Seq<char>
    decreases vs.len(),
{
    if vs.len() == 0 {
        Seq::empty()
    } else if vs.len() == 1 {
        spec_voter_text(vs[0])
    } else {
        spec_voter_entries(vs.drop_last()) + ", "@ + spec_voter_text(vs.last())
    }
}

/// The response displaying the attendance sheet.
pub open spec fn spec_show_attendance(vs: Seq<Seq<char>>, lex: Lexicon) -> Seq<char> {
    lex.voter@ + " : AttendenceSheet({"@ + spec_voter_entries(vs) + "})"@
}

/// Phrases the response for a vote outcome.
pub fn show_vote_outcome(outcome: VoteOutcome, lexicon: &Lexicon) -> (r: String)
    ensures
        r@ == spec_show_outcome(outcome@, *lexicon),
{
    match outcome {
        VoteOutcome::InvalidVote(voter) => {
            let mut s = String::from_str(lexicon.has_voted_null);
            s.append(" ");
            s.append("Voter(\"");
            s.append(voter.0.as_str());
            s.append("\")");
            proof {
                assert(s@ =~= spec_show_outcome(OutcomeModel::Invalid(voter@), *lexicon));
            }
            s
        },
        VoteOutcome::BlankVote(voter) => {
            let mut s = String::from_str(lexicon.has_voted_blank);
            s.append(" ");
            s.append("Voter(\"");
            s.append(voter.0.as_str());
            s.append("\")");
            proof {
                assert(s@ =~= spec_show_outcome(OutcomeModel::Blank(voter@), *lexicon));
            }
            s
        },
        VoteOutcome::HasAlreadyVoted(voter) => {
            let mut s = String::from_str(lexicon.has_already_voted);
            s.append(" ");
            s.append("Voter(\"");
            s.append(voter.0.as_str());
            s.append("\")");
            proof {
                assert(s@ =~= spec_show_outcome(OutcomeModel::Already(voter@), *lexicon));
            }
            s
        },
        VoteOutcome::AcceptedVote(voter, candidate) => {
            let mut s = String::from_str(lexicon.has_voted_for);
            s.append(" ");
            s.append("Voter(\"");
            s.append(voter.0.as_str());
            s.append("\")");
            s.append(" ");
            s.append("Candidate(\"");
            s.append(candidate.0.as_str());
            s.append("\")");
            proof {
                assert(s@ =~= spec_show_outcome(
                    OutcomeModel::Accepted(voter@, candidate@),
                    *lexicon,
                ));
            }
            s
        },
    }
}

/// Phrases the response displaying the scoreboard.
#[verifier::loop_isolation(false)]
pub fn show_scoreboard(scoreboard: &Scoreboard, lexicon: &Lexicon) -> (r: String)
    ensures
        r@ == spec_show_scoreboard(scoreboard@, *lexicon),
{
    let mut s = String::from_str(lexicon.actual_score);
    s.append(" : Scoreboard { scores: {");
    let ghost header = s@;
    let mut i: usize = 0;
    let n = scoreboard.scores.len();
    while i < n
        invariant
            i <= n,
            s@ == header + spec_score_entries(scoreboard@.scores.take(i as int)),
        decreases n - i,
    {
        if i > 0 {
            s.append(", ");
        }
        s.append("Candidate(\"");
        s.append(scoreboard.scores[i].0.0.as_str());
        s.append("\"): Score(");
        let num = usize_to_string(scoreboard.scores[i].1.0);
        s.append(num.as_str());
        s.append(")");
        proof {
            let entries = scoreboard@.scores;
            assert(entries.take(i as int + 1).drop_last() =~= entries.take(i as int));
            assert(entries.take(i as int + 1).last() == entries[i as int]);
            assert(entries[i as int] == (
                scoreboard.scores@[i as int].0@,
                scoreboard.scores@[i as int].1.0 as nat,
            ));
            assert(s@ =~= header + spec_score_entries(entries.take(i as int + 1)));
        }
        i = i + 1;
    }
    proof {
        assert(scoreboard@.scores.take(n as int) =~= scoreboard@.scores);
    }
    s.append("}, blank_score: Score(");
    let blank = usize_to_string(scoreboard.blank_score.0);
    s.append(blank.as_str());
    s.append("), invalid_score: Score(");
    let invalid = usize_to_string(scoreboard.invalid_score.0);
    s.append(invalid.as_str());
    s.append(") }");
    proof {
        assert(s@ =~= spec_show_scoreboard(scoreboard@, *lexicon));
    }
    s
}

/// Phrases the response displaying the attendance sheet.
#[verifier::loop_isolation(false)]
pub fn show_attendence_sheet(attendence_sheet: &AttendenceSheet, lexicon: &Lexicon) -> (r: String)
    ensures
        r@ == spec_show_attendance(attendence_sheet@, *lexicon),
{
    let mut s = String::from_str(lexicon.voter);
    s.append(" : AttendenceSheet({");
    let ghost header = s@;
    let mut i: usize = 0;
    let n = attendence_sheet.0.len();
    while i < n
        invariant
            i <= n,
            s@ == header + spec_voter_entries(attendence_sheet@.take(i as int)),
        decreases n - i,
    {
        if i > 0 {
            s.append(", ");
        }
        s.append("Voter(\"");
        s.append(attendence_sheet.0[i].0.as_str());
        s.append("\")");
        proof {
            let vs = attendence_sheet@;
            assert(vs.take(i as int + 1).drop_last() =~= vs.take(i as int));
            assert(vs.take(i as int + 1).last() == vs[i as int]);
            assert(vs[i as int] == attendence_sheet.0@[i as int]@);
            assert(s@ =~= header + spec_voter_entries(vs.take(i as int + 1)));
        }
        i = i + 1;
    }
    proof {
        assert(attendence_sheet@.take(n as int) =~= attendence_sheet@);
    }
    s.append("})");
    proof {
        assert(s@ =~= spec_show_attendance(attendence_sheet@, *lexicon));
    }
    s
}

/// The menu text shown for an empty command line.
pub fn display_menu(lexicon: &Lexicon) -> (r: String)
    ensures
        r@ == lexicon.menu@,
{
    String::from_str(lexicon.menu)
}

/// The ballot submitted by a `vote` command with the given tokens.
pub open spec fn spec_command_ballot(toks: Seq<Seq<char>>) -> BallotModel {
    BallotModel {
        voter: toks[1],
        candidate: if toks.len() >= 3 {
            Some(toks[2])
        } else {
            None
        },
    }
}

/// Applies one command line to the machine and phrases the response: an empty
/// line shows the menu, `vote` submits a ballot, `scores` and `voters`
/// display snapshots, and anything else is reported as unknown. Only a
/// well-formed `voter` command changes the machine.
pub fn handle_line(line: &str, machine: &mut VotingMachine, lexicon: &Lexicon) -> (r: String)
    requires
        spec_inv(old(machine)@),
    ensures
        spec_inv(final(machine)@),
        ({
            let toks = spec_tokens(line@);
            if toks.len() == 0 {
                r@ == lexicon.menu@ && final(machine)@ == old(machine)@
            } else if toks[0] == "vote"@ && toks.len() == 1 {
                r@ == lexicon.invalid_command_vote@ && final(machine)@ == old(machine)@
            } else if toks[0] == "vote"@ {
                final(machine)@ == spec_vote(old(machine)@, spec_command_ballot(toks)).0 && r@
                    == spec_show_outcome(
                    spec_vote(old(machine)@, spec_command_ballot(toks)).1,
                    *lexicon,
                )
            } else if toks[0] == "scores"@ {
                r@ == spec_show_scoreboard(old(machine)@.scoreboard, *lexicon) && final(machine)@
                    == old(machine)@
            } else if toks[0] == "voters"@ {
                r@ == spec_show_attendance(old(machine)@.voters, *lexicon) && final(machine)@
                    == old(machine)@
            } else {
                r@ == lexicon.unokwn_command@ && final(machine)@ == old(machine)@
            }
        }),
{
    let tokens = tokenize(line);
    let ghost toks = spec_tokens(line@);
    if tokens.len() == 0 {
        return display_menu(lexicon);
    }
    proof {
        assert(toks[0] == tokens.deep_view()[0]);
    }
    if str_is(&tokens[0], "vote") {
        if tokens.len() >= 2 {
            let voter = Voter(tokens[1].clone());
            let candidate = if tokens.len() >= 3 {
                Some(Candidate(tokens[2].clone()))
            } else {
                None
            };
            let ballot_paper = BallotPaper { voter, candidate };
            proof {
                assert(ballot_paper@ == spec_command_ballot(toks));
            }
            let outcome = machine.vote(ballot_paper);
            show_vote_outcome(outcome, lexicon)
        } else {
            String::from_str(lexicon.invalid_command_vote)
        }
    } else if str_is(&tokens[0], "scores") {
        show_scoreboard(machine.get_scoreboard(), lexicon)
    } else if str_is(&tokens[0], "voters") {
        show_attendence_sheet(machine.get_voters(), lexicon)
    } else {
        String::from_str(lexicon.unokwn_command)
    }
}

} // verus!
