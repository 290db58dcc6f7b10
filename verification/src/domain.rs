//! The voting-machine domain model: pure, synchronous state-transition logic
//! with no I/O and no concurrency. A `VotingMachine` owns an attendance sheet
//! and a scoreboard; submitting a ballot yields exactly one `VoteOutcome`.

use vstd::prelude::*;

verus! {

/// A voter's identifier. Two voters are the same voter exactly when their
/// identifier strings are equal.
#[derive(Debug, PartialEq, Eq)]
pub struct Voter(pub String);

/// A candidate's identifier, declared at startup from the configured list.
#[derive(Debug, PartialEq, Eq)]
pub struct Candidate(pub String);

/// A non-negative vote counter.
#[derive(Debug, PartialEq, Eq)]
pub struct Score(pub usize);

/// The set of voters who have already cast a ballot, kept in first-vote
/// order. Well-formed sheets (see `spec_inv`) never list a voter twice.
#[derive(Debug, PartialEq, Eq)]
pub struct AttendenceSheet(pub Vec<Voter>);

/// Per-candidate tallies plus the two distinguished counters for blank and
/// invalid ballots. Candidates appear in configuration order.
#[derive(Debug, PartialEq, Eq)]
pub struct Scoreboard {
    pub scores: Vec<(Candidate, Score)>,
    pub blank_score: Score,
    pub invalid_score: Score,
}

/// One voter's single submitted choice: a candidate, or blank when absent.
pub struct BallotPaper {
    pub voter: Voter,
    pub candidate: Option<Candidate>,
}

/// The result of submitting one ballot; exactly one variant per submission.
#[derive(Debug, PartialEq, Eq)]
pub enum VoteOutcome {
    AcceptedVote(Voter, Candidate),
    BlankVote(Voter),
    InvalidVote(Voter),
    HasAlreadyVoted(Voter),
}

/// The aggregate owning one attendance sheet and one scoreboard; the sole
/// authority for the one-vote-per-voter transition invariant.
#[derive(Debug, PartialEq, Eq)]
pub struct VotingMachine {
    voters: AttendenceSheet,
    scoreboard: Scoreboard,
}

// ---------------------------------------------------------------------------
// Mathematical models
// ---------------------------------------------------------------------------

/// Scoreboard as mathematics: candidate names with their tallies, in order,
/// plus the blank and invalid counters.
#[verifier::ext_equal]
pub struct ScoreboardModel {
    pub scores: Seq<(Seq<char>, nat)>,
    pub blank: nat,
    pub invalid: nat,
}

/// The whole machine as mathematics.
#[verifier::ext_equal]
pub struct MachineModel {
    pub voters: Seq<Seq<char>>,
    pub scoreboard: ScoreboardModel,
}

/// A ballot as mathematics: the voter's name and the optional candidate name.
pub struct BallotModel {
    pub voter: Seq<char>,
    pub candidate: Option<Seq<char>>,
}

/// A vote outcome as mathematics.
pub enum OutcomeModel {
    Accepted(Seq<char>, Seq<char>),
    Blank(Seq<char>),
    Invalid(Seq<char>),
    Already(Seq<char>),
}

impl View for Voter {
    type V = Seq<char>;

    open spec fn view(&self) -> Seq<char> {
        self.0@
    }
}

impl DeepView for Voter {
    type V = Seq<char>;

    open spec fn deep_view(&self) -> Seq<char> {
        self.0@
    }
}

impl View for Candidate {
    type V = Seq<char>;

    open spec fn view(&self) -> Seq<char> {
        self.0@
    }
}

impl DeepView for Candidate {
    type V = Seq<char>;

    open spec fn deep_view(&self) -> Seq<char> {
        self.0@
    }
}

impl View for Score {
    type V = nat;

    open spec fn view(&self) -> nat {
        self.0 as nat
    }
}

impl DeepView for Score {
    type V = nat;

    open spec fn deep_view(&self) -> nat {
        self.0 as nat
    }
}

impl View for AttendenceSheet {
    type V = Seq<Seq<char>>;

    open spec fn view(&self) -> Seq<Seq<char>> {
        self.0.deep_view()
    }
}

impl View for Scoreboard {
    type V = ScoreboardModel;

    open spec fn view(&self) -> ScoreboardModel {
        ScoreboardModel {
            scores: self.scores.deep_view(),
            blank: self.blank_score.0 as nat,
            invalid: self.invalid_score.0 as nat,
        }
    }
}

impl View for BallotPaper {
    type V = BallotModel;

    open spec fn view(&self) -> BallotModel {
        BallotModel {
            voter: self.voter@,
            candidate: match self.candidate {
                Some(c) => Some(c@),
                None => None,
            },
        }
    }
}

impl View for VoteOutcome {
    type V = OutcomeModel;

    open spec fn view(&self) -> OutcomeModel {
        match self {
            VoteOutcome::AcceptedVote(v, c) => OutcomeModel::Accepted(v@, c@),
            VoteOutcome::BlankVote(v) => OutcomeModel::Blank(v@),
            VoteOutcome::InvalidVote(v) => OutcomeModel::Invalid(v@),
            VoteOutcome::HasAlreadyVoted(v) => OutcomeModel::Already(v@),
        }
    }
}

impl View for VotingMachine {
    type V = MachineModel;

    closed spec fn view(&self) -> MachineModel {
        MachineModel { voters: self.voters@, scoreboard: self.scoreboard@ }
    }
}

// ---------------------------------------------------------------------------
// Spec functions over score sequences
// ---------------------------------------------------------------------------

/// Whether some entry of `s` tallies the candidate named `c`.
pub open spec fn has_candidate(s: Seq<(Seq<char>, nat)>, c: Seq<char>) -> bool
    decreases s.len(),
{
    if s.len() == 0 {
        false
    } else if s[0].0 == c {
        true
    } else {
        has_candidate(s.drop_first(), c)
    }
}

/// The tally of the first entry for `c`, or zero when there is none.
pub open spec fn score_of(s: Seq<(Seq<char>, nat)>, c: Seq<char>) -> nat
    decreases s.len(),
{
    if s.len() == 0 {
        0
    } else if s[0].0 == c {
        s[0].1
    } else {
        score_of(s.drop_first(), c)
    }
}

/// `s` with the first entry for `c` (if any) incremented by one.
pub open spec fn bump_score(s: Seq<(Seq<char>, nat)>, c: Seq<char>) -> Seq<(Seq<char>, nat)>
    decreases s.len(),
{
    if s.len() == 0 {
        s
    } else if s[0].0 == c {
        seq![(s[0].0, (s[0].1 + 1) as nat)] + s.drop_first()
    } else {
        seq![s[0]] + bump_score(s.drop_first(), c)
    }
}

/// The sum of every candidate tally in `s`.
pub open spec fn sum_scores(s: Seq<(Seq<char>, nat)>) -> nat
    decreases s.len(),
{
    if s.len() == 0 {
        0
    } else {
        s[0].1 + sum_scores(s.drop_first())
    }
}

/// The scoreboard produced from a candidate list: every configured candidate
/// present once, in first-occurrence order, with tally zero.
pub open spec fn init_scores(cs: Seq<Seq<char>>) -> Seq<(Seq<char>, nat)>
    decreases cs.len(),
{
    if cs.len() == 0 {
        Seq::empty()
    } else {
        let prefix = init_scores(cs.drop_last());
        if has_candidate(prefix, cs.last()) {
            prefix
        } else {
            prefix.push((cs.last(), 0))
        }
    }
}

/// Well-formedness of a machine: no voter is recorded twice, and every
/// recorded voter is accounted for by exactly one effect, so the candidate
/// tallies plus the blank and invalid counters add up to the attendance size.
pub open spec fn spec_inv(m: MachineModel) -> bool {
    &&& m.voters.no_duplicates()
    &&& sum_scores(m.scoreboard.scores) + m.scoreboard.blank + m.scoreboard.invalid
        == m.voters.len()
}

/// The vote transition as mathematics: the machine after the ballot, and the
/// outcome reported for it.
pub open spec fn spec_vote(m: MachineModel, b: BallotModel) -> (MachineModel, OutcomeModel) {
    if m.voters.contains(b.voter) {
        (m, OutcomeModel::Already(b.voter))
    } else {
        let voters2 = m.voters.push(b.voter);
        match b.candidate {
            None => (
                MachineModel {
                    voters: voters2,
                    scoreboard: ScoreboardModel {
                        scores: m.scoreboard.scores,
                        blank: m.scoreboard.blank + 1,
                        invalid: m.scoreboard.invalid,
                    },
                },
                OutcomeModel::Blank(b.voter),
            ),
            Some(c) => if has_candidate(m.scoreboard.scores, c) {
                (
                    MachineModel {
                        voters: voters2,
                        scoreboard: ScoreboardModel {
                            scores: bump_score(m.scoreboard.scores, c),
                            blank: m.scoreboard.blank,
                            invalid: m.scoreboard.invalid,
                        },
                    },
                    OutcomeModel::Accepted(b.voter, c),
                )
            } else {
                (
                    MachineModel {
                        voters: voters2,
                        scoreboard: ScoreboardModel {
                            scores: m.scoreboard.scores,
                            blank: m.scoreboard.blank,
                            invalid: m.scoreboard.invalid + 1,
                        },
                    },
                    OutcomeModel::Invalid(b.voter),
                )
            },
        }
    }
}

// ---------------------------------------------------------------------------
// Lemmas about score sequences
// ---------------------------------------------------------------------------

/// No single tally exceeds the sum of all tallies.
pub proof fn lemma_score_le_sum(s: Seq<(Seq<char>, nat)>, c: Seq<char>)
    ensures
        score_of(s, c) <= sum_scores(s),
    decreases s.len(),
{
    if s.len() > 0 && s[0].0 != c {
        lemma_score_le_sum(s.drop_first(), c);
    }
}

/// At the first entry for `c`, the tally is that entry's, and bumping `c`
/// rewrites exactly that entry.
pub proof fn lemma_first_match(s: Seq<(Seq<char>, nat)>, c: Seq<char>, i: int)
    requires
        0 <= i < s.len(),
        s[i].0 == c,
        forall|j: int| 0 <= j < i ==> s[j].0 != c,
    ensures
        has_candidate(s, c),
        score_of(s, c) == s[i].1,
        bump_score(s, c) =~= s.update(i, (s[i].0, (s[i].1 + 1) as nat)),
    decreases i,
{
    if i == 0 {
        assert(bump_score(s, c) =~= s.update(0, (s[0].0, (s[0].1 + 1) as nat)));
    } else {
        lemma_first_match(s.drop_first(), c, i - 1);
        assert(seq![s[0]] + s.drop_first().update(i - 1, (s[i].0, (s[i].1 + 1) as nat)) =~= s.update(
            i,
            (s[i].0, (s[i].1 + 1) as nat),
        ));
    }
}

/// A candidate matching no entry is not tallied.
pub proof fn lemma_no_match(s: Seq<(Seq<char>, nat)>, c: Seq<char>)
    requires
        forall|j: int| 0 <= j < s.len() ==> s[j].0 != c,
    ensures
        !has_candidate(s, c),
    decreases s.len(),
{
    if s.len() > 0 {
        lemma_no_match(s.drop_first(), c);
    }
}

/// Bumping one candidate raises exactly that candidate's tally by one and
/// leaves every other tally and the set of tallied candidates unchanged.
pub proof fn lemma_bump_score_of(s: Seq<(Seq<char>, nat)>, c: Seq<char>, d: Seq<char>)
    ensures
        has_candidate(bump_score(s, c), d) == has_candidate(s, d),
        score_of(bump_score(s, c), d) == if d == c && has_candidate(s, c) {
            (score_of(s, c) + 1) as nat
        } else {
            score_of(s, d)
        },
    decreases s.len(),
{
    if s.len() > 0 {
        if s[0].0 == c {
            let b = seq![(s[0].0, (s[0].1 + 1) as nat)] + s.drop_first();
            assert(b.drop_first() =~= s.drop_first());
        } else {
            let b = seq![s[0]] + bump_score(s.drop_first(), c);
            assert(b.drop_first() =~= bump_score(s.drop_first(), c));
            lemma_bump_score_of(s.drop_first(), c, d);
        }
    }
}

/// Bumping a tallied candidate raises the total tally by exactly one.
pub proof fn lemma_bump_sum(s: Seq<(Seq<char>, nat)>, c: Seq<char>)
    ensures
        sum_scores(bump_score(s, c)) == sum_scores(s) + if has_candidate(s, c) {
            1nat
        } else {
            0nat
        },
    decreases s.len(),
{
    if s.len() > 0 {
        if s[0].0 == c {
            let b = seq![(s[0].0, (s[0].1 + 1) as nat)] + s.drop_first();
            assert(b.drop_first() =~= s.drop_first());
        } else {
            let b = seq![s[0]] + bump_score(s.drop_first(), c);
            assert(b.drop_first() =~= bump_score(s.drop_first(), c));
            lemma_bump_sum(s.drop_first(), c);
        }
    }
}

/// Every tally of a freshly initialized scoreboard is zero, and so is their
/// sum.
pub proof fn lemma_init_scores_zero(cs: Seq<Seq<char>>)
    ensures
        sum_scores(init_scores(cs)) == 0,
        forall|c: Seq<char>| score_of(init_scores(cs), c) == 0,
    decreases cs.len(),
{
    if cs.len() > 0 {
        lemma_init_scores_zero(cs.drop_last());
        let prefix = init_scores(cs.drop_last());
        if !has_candidate(prefix, cs.last()) {
            lemma_sum_push(prefix, cs.last(), 0);
            assert forall|c: Seq<char>| score_of(init_scores(cs), c) == 0 by {
                lemma_score_push(prefix, cs.last(), 0, c);
            }
        }
    }
}

/// Appending an entry adds its tally to the sum.
pub proof fn lemma_sum_push(s: Seq<(Seq<char>, nat)>, c: Seq<char>, v: nat)
    ensures
        sum_scores(s.push((c, v))) == sum_scores(s) + v,
    decreases s.len(),
{
    if s.len() == 0 {
        assert(s.push((c, v)).drop_first() =~= s);
    } else {
        assert(s.push((c, v)).drop_first() =~= s.drop_first().push((c, v)));
        lemma_sum_push(s.drop_first(), c, v);
    }
}

/// Appending an entry does not change earlier candidates' tallies, and gives
/// a new candidate the appended tally.
pub proof fn lemma_score_push(s: Seq<(Seq<char>, nat)>, c: Seq<char>, v: nat, d: Seq<char>)
    ensures
        has_candidate(s.push((c, v)), d) == (has_candidate(s, d) || d == c),
        score_of(s.push((c, v)), d) == if has_candidate(s, d) {
            score_of(s, d)
        } else if d == c {
            v
        } else {
            0nat
        },
    decreases s.len(),
{
    if s.len() == 0 {
        let p = s.push((c, v));
        assert(p[0] == (c, v));
        assert(p.drop_first() =~= Seq::<(Seq<char>, nat)>::empty());
        assert(!has_candidate(Seq::<(Seq<char>, nat)>::empty(), d));
        assert(score_of(Seq::<(Seq<char>, nat)>::empty(), d) == 0);
        assert(has_candidate(p, d) == (d == c));
        assert(score_of(p, d) == if d == c {
            v
        } else {
            0nat
        });
    } else {
        assert(s.push((c, v))[0] == s[0]);
        assert(s.push((c, v)).drop_first() =~= s.drop_first().push((c, v)));
        lemma_score_push(s.drop_first(), c, v, d);
    }
}

/// Recording a voter not yet on the sheet keeps the sheet free of duplicates.
pub proof fn lemma_push_fresh_no_duplicates(vs: Seq<Seq<char>>, v: Seq<char>)
    requires
        vs.no_duplicates(),
        !vs.contains(v),
    ensures
        vs.push(v).no_duplicates(),
{
    let p = vs.push(v);
    assert forall|i: int, j: int|
        0 <= i < p.len() && 0 <= j < p.len() && i != j implies p[i] != p[j] by {
        if i < vs.len() && j < vs.len() {
            assert(vs[i] != vs[j]);
        } else if j == vs.len() {
            assert(vs[i] != v);
        } else {
            assert(vs[j] != v);
        }
    }
}

// ---------------------------------------------------------------------------
// Executable operations
// ---------------------------------------------------------------------------

impl Clone for Voter {
    /// Cloning a voter keeps its identifier.
    fn clone(&self) -> (r: Self)
        ensures
            r == *self,
    {
        Voter(self.0.clone())
    }
}

impl Clone for Candidate {
    /// Cloning a candidate keeps its identifier.
    fn clone(&self) -> (r: Self)
        ensures
            r == *self,
    {
        Candidate(self.0.clone())
    }
}

impl Clone for Score {
    /// Cloning a score keeps its count.
    fn clone(&self) -> (r: Self)
        ensures
            r == *self,
    {
        Score(self.0)
    }
}

impl Clone for AttendenceSheet {
    /// Cloning a sheet keeps every recorded voter, in order.
    fn clone(&self) -> (r: Self)
        ensures
            r@ == self@,
    {
        let mut voters: Vec<Voter> = Vec::new();
        let mut i: usize = 0;
        while i < self.0.len()
            invariant
                i <= self.0.len(),
                voters.deep_view() =~= self.0.deep_view().take(i as int),
            decreases self.0.len() - i,
        {
            let ghost prev = voters.deep_view();
            voters.push(self.0[i].clone());
            proof {
                assert(voters.deep_view() =~= prev.push(self.0@[i as int]@));
                assert(voters.deep_view() =~= self.0.deep_view().take(i + 1));
            }
            i = i + 1;
        }
        assert(voters.deep_view() =~= self.0.deep_view());
        AttendenceSheet(voters)
    }
}

impl Clone for Scoreboard {
    /// Cloning a scoreboard keeps every tally and both counters.
    fn clone(&self) -> (r: Self)
        ensures
            r@ == self@,
    {
        let mut scores: Vec<(Candidate, Score)> = Vec::new();
        let mut i: usize = 0;
        while i < self.scores.len()
            invariant
                i <= self.scores.len(),
                scores.deep_view() =~= self.scores.deep_view().take(i as int),
            decreases self.scores.len() - i,
        {
            let ghost prev = scores.deep_view();
            let entry = &self.scores[i];
            scores.push((entry.0.clone(), entry.1.clone()));
            proof {
                assert(scores.deep_view() =~= prev.push(
                    (self.scores@[i as int].0@, self.scores@[i as int].1.0 as nat),
                ));
                assert(scores.deep_view() =~= self.scores.deep_view().take(i + 1));
            }
            i = i + 1;
        }
        assert(scores.deep_view() =~= self.scores.deep_view());
        Scoreboard {
            scores,
            blank_score: self.blank_score.clone(),
            invalid_score: self.invalid_score.clone(),
        }
    }
}

impl Clone for BallotPaper {
    /// Cloning a ballot keeps the voter and the optional candidate.
    fn clone(&self) -> (r: Self)
        ensures
            r@ == self@,
    {
        BallotPaper {
            voter: self.voter.clone(),
            candidate: match &self.candidate {
                Some(c) => Some(c.clone()),
                None => None,
            },
        }
    }
}

impl Clone for VotingMachine {
    /// Cloning a machine keeps its whole observable state.
    fn clone(&self) -> (r: Self)
        ensures
            r@ == self@,
    {
        VotingMachine { voters: self.voters.clone(), scoreboard: self.scoreboard.clone() }
    }
}

impl AttendenceSheet {
    /// Whether `voter` has already cast a ballot.
    pub fn contains(&self, voter: &Voter) -> (r: bool)
        ensures
            r == self@.contains(voter@),
    {
        let mut i: usize = 0;
        while i < self.0.len()
            invariant
                i <= self.0.len(),
                forall|j: int| 0 <= j < i ==> self@[j] != voter@,
            decreases self.0.len() - i,
        {
            if self.0[i].0 == voter.0 {
                assert(self@[i as int] == voter@);
                return true;
            }
            i = i + 1;
        }
        false
    }
}

impl Scoreboard {
    /// A fresh scoreboard for the configured candidates: each present once,
    /// in first-occurrence order, with tally zero, and both counters zero.
    pub fn new(candidates: Vec<Candidate>) -> (r: Self)
        ensures
            r@.scores == init_scores(candidates.deep_view()),
            r@.blank == 0,
            r@.invalid == 0,
    {
        let mut scores: Vec<(Candidate, Score)> = Vec::new();
        let mut i: usize = 0;
        while i < candidates.len()
            invariant
                i <= candidates.len(),
                scores.deep_view() =~= init_scores(candidates.deep_view().take(i as int)),
            decreases candidates.len() - i,
        {
            let ghost prev = scores.deep_view();
            let candidate = candidates[i].clone();
            let mut seen = false;
            let mut j: usize = 0;
            while j < scores.len()
                invariant
                    j <= scores.len(),
                    seen ==> has_candidate(scores.deep_view(), candidate@),
                    !seen ==> forall|k: int| 0 <= k < j ==> scores.deep_view()[k].0 != candidate@,
                decreases scores.len() - j,
            {
                if scores[j].0.0 == candidate.0 {
                    proof {
                        lemma_first_match_has(scores.deep_view(), candidate@, j as int);
                    }
                    seen = true;
                }
                j = j + 1;
            }
            proof {
                if !seen {
                    lemma_no_match(scores.deep_view(), candidate@);
                }
                assert(candidates.deep_view().take(i + 1).drop_last() =~= candidates.deep_view()
                    .take(i as int));
                assert(candidates.deep_view().take(i + 1).last() == candidates.deep_view()[
                    i as int
                ]);
            }
            if !seen {
                scores.push((candidate, Score(0)));
                assert(scores.deep_view() =~= prev.push((candidates.deep_view()[i as int], 0nat)));
            }
            i = i + 1;
        }
        assert(candidates.deep_view().take(candidates.len() as int) =~= candidates.deep_view());
        Scoreboard { scores, blank_score: Score(0), invalid_score: Score(0) }
    }
}

/// A prefix-free first match makes the candidate tallied.
proof fn lemma_first_match_has(s: Seq<(Seq<char>, nat)>, c: Seq<char>, i: int)
    requires
        0 <= i < s.len(),
        s[i].0 == c,
    ensures
        has_candidate(s, c),
    decreases i,
{
    if i > 0 {
        lemma_first_match_has(s.drop_first(), c, i - 1);
    }
}

impl VotingMachine {
    /// A fresh machine: empty attendance, all configured tallies zero.
    pub fn new(candidates: Vec<Candidate>) -> (r: Self)
        ensures
            r@.voters =~= Seq::<Seq<char>>::empty(),
            r@.scoreboard.scores == init_scores(candidates.deep_view()),
            r@.scoreboard.blank == 0,
            r@.scoreboard.invalid == 0,
            spec_inv(r@),
    {
        let scoreboard = Scoreboard::new(candidates);
        proof {
            lemma_init_scores_zero(candidates.deep_view());
        }
        let voters: Vec<Voter> = Vec::new();
        assert(voters.deep_view() =~= Seq::<Seq<char>>::empty());
        VotingMachine { voters: AttendenceSheet(voters), scoreboard }
    }

    /// Reassembles a machine from a stored attendance sheet and scoreboard.
    pub fn recover_from(voters: AttendenceSheet, scoreboard: Scoreboard) -> (r: Self)
        ensures
            r@.voters == voters@,
            r@.scoreboard == scoreboard@,
    {
        VotingMachine { voters, scoreboard }
    }

    /// Submits one ballot. A voter already on the attendance sheet is turned
    /// away with `HasAlreadyVoted` and nothing changes; otherwise the voter is
    /// recorded exactly once and exactly one counter moves: the named
    /// candidate's tally, the blank counter, or the invalid counter.
    #[verifier::loop_isolation(false)]
    pub fn vote(&mut self, ballot_paper: BallotPaper) -> (outcome: VoteOutcome)
        requires
            spec_inv(old(self)@),
        ensures
            final(self)@ == spec_vote(old(self)@, ballot_paper@).0,
            outcome@ == spec_vote(old(self)@, ballot_paper@).1,
            spec_inv(final(self)@),
    {
        let ghost bm = ballot_paper@;
        let BallotPaper { voter, candidate } = ballot_paper;
        proof {
            assert(bm.voter == voter@);
        }
        if self.voters.contains(&voter) {
            return VoteOutcome::HasAlreadyVoted(voter);
        }
        let ghost m0 = self@;
        self.voters.0.push(Voter(voter.0.clone()));
        let n = self.voters.0.len();
        proof {
            assert(self.voters@ =~= m0.voters.push(voter@));
            assert(n == m0.voters.len() + 1);
            assert(m0.voters.len() <= usize::MAX - 1);
            lemma_push_fresh_no_duplicates(m0.voters, voter@);
            assert(self.voters@.no_duplicates());
        }
        let ghost m1 = self@;
        match candidate {
            Some(candidate) => {
                let mut i: usize = 0;
                let len = self.scoreboard.scores.len();
                while i < len
                    invariant
                        i <= len,
                        self@ == m1,
                        forall|j: int|
                            0 <= j < i ==> self.scoreboard@.scores[j].0 != candidate@,
                    decreases len - i,
                {
                    if self.scoreboard.scores[i].0.0 == candidate.0 {
                        let current = self.scoreboard.scores[i].1.0;
                        proof {
                            assert(self.scoreboard@.scores[i as int] == (
                                self.scoreboard.scores@[i as int].0@,
                                self.scoreboard.scores@[i as int].1.0 as nat,
                            ));
                            assert(self.scoreboard@.scores[i as int].0 == candidate@);
                            assert(self.scoreboard@.scores[i as int].1 == current as nat);
                            lemma_first_match(self.scoreboard@.scores, candidate@, i as int);
                            lemma_score_le_sum(self.scoreboard@.scores, candidate@);
                            lemma_bump_sum(self.scoreboard@.scores, candidate@);
                            assert(current < usize::MAX);
                        }
                        self.scoreboard.scores.set(
                            i,
                            (Candidate(candidate.0.clone()), Score(current + 1)),
                        );
                        proof {
                            assert(self.scoreboard@.scores =~= m0.scoreboard.scores.update(
                                i as int,
                                (candidate@, (current + 1) as nat),
                            ));
                            assert(self.scoreboard@.scores =~= bump_score(
                                m0.scoreboard.scores,
                                candidate@,
                            ));
                            assert(bm == BallotModel { voter: voter@, candidate: Some(candidate@) });
                            assert(self@ =~~= spec_vote(m0, bm).0);
                        }
                        return VoteOutcome::AcceptedVote(voter, candidate);
                    }
                    i = i + 1;
                }
                proof {
                    lemma_no_match(self.scoreboard@.scores, candidate@);
                }
                self.scoreboard.invalid_score = Score(self.scoreboard.invalid_score.0 + 1);
                proof {
                    assert(bm == BallotModel { voter: voter@, candidate: Some(candidate@) });
                    assert(self@ =~~= spec_vote(m0, bm).0);
                }
                VoteOutcome::InvalidVote(voter)
            },
            None => {
                self.scoreboard.blank_score = Score(self.scoreboard.blank_score.0 + 1);
                proof {
                    assert(bm == BallotModel { voter: voter@, candidate: None });
                    assert(self@ =~~= spec_vote(m0, bm).0);
                }
                VoteOutcome::BlankVote(voter)
            },
        }
    }

    /// Read-only view of the scoreboard; never mutates state.
    pub fn get_scoreboard(&self) -> (r: &Scoreboard)
        ensures
            r@ == self@.scoreboard,
    {
        &self.scoreboard
    }

    /// Read-only view of the attendance sheet; never mutates state.
    pub fn get_voters(&self) -> (r: &AttendenceSheet)
        ensures
            r@ == self@.voters,
    {
        &self.voters
    }
}

} // verus!
