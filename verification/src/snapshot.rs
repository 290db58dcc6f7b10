//! The persisted snapshot format of the file backend: a plain text rendering
//! of one voting machine — candidate tallies, the blank and invalid counters,
//! and the attendance sheet — together with its parser. Every number is
//! written in decimal followed by one space; every name is written as its
//! length followed by its characters. Encoding and parsing are proved to
//! round-trip.

use vstd::prelude::*;

use crate::digits::{
    dec_digit_val, dec_rep, digit_prefix_len, digits_val, is_dec_digit, lemma_dec_rep_digits,
    lemma_dec_rep_val, lemma_digit_prefix_of_digits, lemma_digit_prefix_value, usize_to_string,
};
use crate::domain::{
    lemma_sum_push, spec_inv, sum_scores, AttendenceSheet, Candidate, MachineModel, Score,
    Scoreboard, ScoreboardModel, Voter, VotingMachine,
};

verus! {

// ---------------------------------------------------------------------------
// The format
// ---------------------------------------------------------------------------

/// A number: its decimal digits followed by one space.
pub open spec fn enc_nat(n: nat) -> Seq<char> {
    dec_rep(n).push(' ')
}

/// A name: its length, then its characters.
pub open spec fn enc_name(s: Seq<char>) -> Seq<char> {
    enc_nat(s.len()) + s
}

/// The tallies, each a name followed by its count.
pub open spec fn enc_scores(s: Seq<(Seq<char>, nat)>) -> Seq<char>
    decreases s.len(),
{
    if s.len() == 0 {
        Seq::empty()
    } else {
        enc_name(s[0].0) + enc_nat(s[0].1) + enc_scores(s.drop_first())
    }
}

/// The attendance sheet, one name after another.
pub open spec fn enc_voters(vs: Seq<Seq<char>>) -> Seq<char>
    decreases vs.len(),
{
    if vs.len() == 0 {
        Seq::empty()
    } else {
        enc_name(vs[0]) + enc_voters(vs.drop_first())
    }
}

/// The whole snapshot: the number of tallies and the tallies, the blank and
/// invalid counters, then the number of voters and the voters.
pub open spec fn spec_encode(m: MachineModel) -> Seq<char> {
    enc_nat(m.scoreboard.scores.len()) + enc_scores(m.scoreboard.scores) + enc_nat(
        m.scoreboard.blank,
    ) + enc_nat(m.scoreboard.invalid) + enc_nat(m.voters.len()) + enc_voters(m.voters)
}

/// Whether every count and name length of the model fits the machine's word
/// size; every machine held in memory satisfies this.
pub open spec fn snapshot_bounded(m: MachineModel) -> bool {
    &&& m.voters.len() <= usize::MAX
    &&& m.scoreboard.scores.len() <= usize::MAX
    &&& m.scoreboard.blank <= usize::MAX
    &&& m.scoreboard.invalid <= usize::MAX
    &&& forall|i: int|
        0 <= i < m.scoreboard.scores.len() ==> (#[trigger] m.scoreboard.scores[i]).1 <= usize::MAX
    &&& forall|i: int|
        0 <= i < m.scoreboard.scores.len() ==> (#[trigger] m.scoreboard.scores[i]).0.len()
            <= usize::MAX
    &&& forall|i: int| 0 <= i < m.voters.len() ==> (#[trigger] m.voters[i]).len() <= usize::MAX
}

// ---------------------------------------------------------------------------
// The parser, as mathematics
// ---------------------------------------------------------------------------

/// Reads one number: a nonempty digit prefix that fits the machine's word
/// size, followed by one space. Returns the value and the rest.
pub open spec fn spec_parse_nat(s: Seq<char>) -> Option<(nat, Seq<char>)> {
    let k = digit_prefix_len(s) as int;
    if k == 0 {
        None
    } else if digits_val(s.take(k)) > usize::MAX {
        None
    } else if k < s.len() && s[k] == ' ' {
        Some((digits_val(s.take(k)), s.skip(k + 1)))
    } else {
        None
    }
}

/// Reads one name: its length, then that many characters.
pub open spec fn spec_parse_name(s: Seq<char>) -> Option<(Seq<char>, Seq<char>)> {
    match spec_parse_nat(s) {
        None => None,
        Some((len, r)) => if r.len() >= len {
            Some((r.take(len as int), r.skip(len as int)))
        } else {
            None
        },
    }
}

/// Reads `n` tallies, each a name followed by its count.
pub open spec fn spec_parse_scores(s: Seq<char>, n: nat) -> Option<
    (Seq<(Seq<char>, nat)>, Seq<char>),
>
    decreases n,
{
    if n == 0 {
        Some((Seq::empty(), s))
    } else {
        match spec_parse_name(s) {
            None => None,
            Some((name, r1)) => match spec_parse_nat(r1) {
                None => None,
                Some((v, r2)) => match spec_parse_scores(r2, (n - 1) as nat) {
                    None => None,
                    Some((rest, r3)) => Some((seq![(name, v)] + rest, r3)),
                },
            },
        }
    }
}

/// Reads `n` voter names.
pub open spec fn spec_parse_voters(s: Seq<char>, n: nat) -> Option<(Seq<Seq<char>>, Seq<char>)>
    decreases n,
{
    if n == 0 {
        Some((Seq::empty(), s))
    } else {
        match spec_parse_name(s) {
            None => None,
            Some((name, r1)) => match spec_parse_voters(r1, (n - 1) as nat) {
                None => None,
                Some((rest, r2)) => Some((seq![name] + rest, r2)),
            },
        }
    }
}

/// Reads a whole snapshot; the text must be consumed exactly.
pub open spec fn spec_parse_snapshot(s: Seq<char>) -> Option<MachineModel> {
    match spec_parse_nat(s) {
        None => None,
        Some((nc, r1)) => match spec_parse_scores(r1, nc) {
            None => None,
            Some((scores, r2)) => match spec_parse_nat(r2) {
                None => None,
                Some((blank, r3)) => match spec_parse_nat(r3) {
                    None => None,
                    Some((invalid, r4)) => match spec_parse_nat(r4) {
                        None => None,
                        Some((nv, r5)) => match spec_parse_voters(r5, nv) {
                            None => None,
                            Some((voters, r6)) => if r6.len() == 0 {
                                Some(
                                    MachineModel {
                                        voters,
                                        scoreboard: ScoreboardModel { scores, blank, invalid },
                                    },
                                )
                            } else {
                                None
                            },
                        },
                    },
                },
            },
        },
    }
}

// ---------------------------------------------------------------------------
// Round trip
// ---------------------------------------------------------------------------

/// Reading an encoded number gives the number back and leaves the rest.
pub proof fn lemma_parse_nat_enc(n: nat, rest: Seq<char>)
    requires
        n <= usize::MAX,
    ensures
        spec_parse_nat(enc_nat(n) + rest) == Some((n, rest)),
{
    let e = enc_nat(n) + rest;
    lemma_dec_rep_digits(n);
    lemma_dec_rep_val(n);
    let ds = dec_rep(n);
    let t = seq![' '] + rest;
    assert(e =~= ds + t);
    assert(t[0] == ' ');
    assert(!is_dec_digit(' '));
    lemma_digit_prefix_of_digits(ds, t);
    let k = ds.len() as int;
    assert(digit_prefix_len(e) == k);
    assert(e.take(k) =~= ds);
    assert(k < e.len() && e[k] == ' ');
    assert(e.skip(k + 1) =~= rest);
}

/// Reading an encoded name gives the name back and leaves the rest.
pub proof fn lemma_parse_name_enc(t: Seq<char>, rest: Seq<char>)
    requires
        t.len() <= usize::MAX,
    ensures
        spec_parse_name(enc_name(t) + rest) == Some((t, rest)),
{
    let e = enc_name(t) + rest;
    assert(e =~= enc_nat(t.len()) + (t + rest));
    lemma_parse_nat_enc(t.len(), t + rest);
    assert((t + rest).take(t.len() as int) =~= t);
    assert((t + rest).skip(t.len() as int) =~= rest);
}

/// Reading encoded tallies gives them all back, in order.
pub proof fn lemma_parse_scores_enc(s: Seq<(Seq<char>, nat)>, rest: Seq<char>)
    requires
        forall|i: int| 0 <= i < s.len() ==> (#[trigger] s[i]).1 <= usize::MAX,
        forall|i: int| 0 <= i < s.len() ==> (#[trigger] s[i]).0.len() <= usize::MAX,
    ensures
        spec_parse_scores(enc_scores(s) + rest, s.len()) == Some((s, rest)),
    decreases s.len(),
{
    if s.len() == 0 {
        assert(enc_scores(s) + rest =~= rest);
        assert(spec_parse_scores(rest, 0) == Some((Seq::<(Seq<char>, nat)>::empty(), rest)));
        assert(Seq::<(Seq<char>, nat)>::empty() =~= s);
    } else {
        let e = enc_scores(s) + rest;
        let tail_enc = enc_scores(s.drop_first()) + rest;
        assert(e =~= enc_name(s[0].0) + (enc_nat(s[0].1) + tail_enc));
        lemma_parse_name_enc(s[0].0, enc_nat(s[0].1) + tail_enc);
        lemma_parse_nat_enc(s[0].1, tail_enc);
        assert(forall|i: int|
            0 <= i < s.drop_first().len() ==> (#[trigger] s.drop_first()[i]).1 <= usize::MAX);
        assert(forall|i: int|
            0 <= i < s.drop_first().len() ==> (#[trigger] s.drop_first()[i]).0.len()
                <= usize::MAX);
        lemma_parse_scores_enc(s.drop_first(), rest);
        assert(s[0] == (s[0].0, s[0].1));
        assert(seq![(s[0].0, s[0].1)] + s.drop_first() =~= s);
    }
}

/// Reading encoded voters gives them all back, in order.
pub proof fn lemma_parse_voters_enc(vs: Seq<Seq<char>>, rest: Seq<char>)
    requires
        forall|i: int| 0 <= i < vs.len() ==> (#[trigger] vs[i]).len() <= usize::MAX,
    ensures
        spec_parse_voters(enc_voters(vs) + rest, vs.len()) == Some((vs, rest)),
    decreases vs.len(),
{
    if vs.len() == 0 {
        assert(enc_voters(vs) + rest =~= rest);
        assert(Seq::<Seq<char>>::empty() =~= vs);
    } else {
        let e = enc_voters(vs) + rest;
        let tail_enc = enc_voters(vs.drop_first()) + rest;
        assert(e =~= enc_name(vs[0]) + tail_enc);
        lemma_parse_name_enc(vs[0], tail_enc);
        assert(forall|i: int|
            0 <= i < vs.drop_first().len() ==> (#[trigger] vs.drop_first()[i]).len()
                <= usize::MAX);
        lemma_parse_voters_enc(vs.drop_first(), rest);
        assert(seq![vs[0]] + vs.drop_first() =~= vs);
    }
}

/// Writing a machine and reading the text back yields the machine unchanged,
/// in every observable field: the snapshot format round-trips.
pub proof fn lemma_snapshot_round_trip(m: MachineModel)
    requires
        snapshot_bounded(m),
    ensures
        spec_parse_snapshot(spec_encode(m)) == Some(m),
{
    let sc = m.scoreboard.scores;
    let vs = m.voters;
    let p5 = enc_voters(vs);
    let p4 = enc_nat(vs.len()) + p5;
    let p3 = enc_nat(m.scoreboard.invalid) + p4;
    let p2 = enc_nat(m.scoreboard.blank) + p3;
    let p1 = enc_scores(sc) + p2;
    let e = spec_encode(m);
    assert(e =~= enc_nat(sc.len()) + p1);
    lemma_parse_nat_enc(sc.len(), p1);
    lemma_parse_scores_enc(sc, p2);
    lemma_parse_nat_enc(m.scoreboard.blank, p3);
    lemma_parse_nat_enc(m.scoreboard.invalid, p4);
    lemma_parse_nat_enc(vs.len(), p5);
    assert(p5 =~= enc_voters(vs) + Seq::<char>::empty());
    lemma_parse_voters_enc(vs, Seq::<char>::empty());
    assert(spec_parse_snapshot(e) == Some(
        MachineModel {
            voters: vs,
            scoreboard: ScoreboardModel {
                scores: sc,
                blank: m.scoreboard.blank,
                invalid: m.scoreboard.invalid,
            },
        },
    ));
    assert(MachineModel {
        voters: vs,
        scoreboard: ScoreboardModel {
            scores: sc,
            blank: m.scoreboard.blank,
            invalid: m.scoreboard.invalid,
        },
    } =~= m);
}

// ---------------------------------------------------------------------------
// The encoder
// ---------------------------------------------------------------------------

/// Appending one tally extends the encoded tallies at the end.
proof fn lemma_enc_scores_push(s: Seq<(Seq<char>, nat)>, e: (Seq<char>, nat))
    ensures
        enc_scores(s.push(e)) =~= enc_scores(s) + enc_name(e.0) + enc_nat(e.1),
    decreases s.len(),
{
    if s.len() == 0 {
        assert(s.push(e)[0] == e);
        assert(s.push(e).drop_first() =~= Seq::<(Seq<char>, nat)>::empty());
        assert(enc_scores(Seq::<(Seq<char>, nat)>::empty()) == Seq::<char>::empty());
    } else {
        assert(s.push(e)[0] == s[0]);
        assert(s.push(e).drop_first() =~= s.drop_first().push(e));
        lemma_enc_scores_push(s.drop_first(), e);
    }
}

/// Appending one voter extends the encoded attendance at the end.
proof fn lemma_enc_voters_push(vs: Seq<Seq<char>>, v: Seq<char>)
    ensures
        enc_voters(vs.push(v)) =~= enc_voters(vs) + enc_name(v),
    decreases vs.len(),
{
    if vs.len() == 0 {
        assert(vs.push(v)[0] == v);
        assert(vs.push(v).drop_first() =~= Seq::<Seq<char>>::empty());
        assert(enc_voters(Seq::<Seq<char>>::empty()) == Seq::<char>::empty());
    } else {
        assert(vs.push(v)[0] == vs[0]);
        assert(vs.push(v).drop_first() =~= vs.drop_first().push(v));
        lemma_enc_voters_push(vs.drop_first(), v);
    }
}

/// Writes one number: its decimal digits and one space.
fn append_nat(out: &mut String, n: usize)
    ensures
        final(out)@ == old(out)@ + enc_nat(n as nat),
{
    let num = usize_to_string(n);
    out.append(num.as_str());
    out.append(" ");
    proof {
        reveal_strlit(" ");
        assert(" "@ =~= seq![' ']);
        assert(out@ =~= old(out)@ + enc_nat(n as nat));
    }
}

/// Writes one name: its length, then its characters.
fn append_name(out: &mut String, name: &str)
    ensures
        final(out)@ == old(out)@ + enc_name(name@),
{
    let len = name.unicode_len();
    append_nat(out, len);
    out.append(name);
    proof {
        assert(out@ =~= old(out)@ + enc_name(name@));
    }
}

/// Renders one machine as its snapshot text.
#[verifier::loop_isolation(false)]
pub fn encode_snapshot(machine: &VotingMachine) -> (r: String)
    ensures
        r@ == spec_encode(machine@),
{
    let ghost m = machine@;
    let scoreboard = machine.get_scoreboard();
    let voters = machine.get_voters();
    let mut out = String::new();
    append_nat(&mut out, scoreboard.scores.len());
    let ghost h1 = out@;
    let mut i: usize = 0;
    let nc = scoreboard.scores.len();
    proof {
        assert(m.scoreboard.scores.take(0) =~= Seq::<(Seq<char>, nat)>::empty());
        assert(out@ =~= h1 + enc_scores(m.scoreboard.scores.take(0)));
    }
    while i < nc
        invariant
            i <= nc,
            out@ == h1 + enc_scores(m.scoreboard.scores.take(i as int)),
        decreases nc - i,
    {
        append_name(&mut out, scoreboard.scores[i].0.0.as_str());
        append_nat(&mut out, scoreboard.scores[i].1.0);
        proof {
            let entries = m.scoreboard.scores;
            assert(entries[i as int] == (
                scoreboard.scores@[i as int].0@,
                scoreboard.scores@[i as int].1.0 as nat,
            ));
            assert(entries.take(i as int + 1) =~= entries.take(i as int).push(entries[i as int]));
            lemma_enc_scores_push(entries.take(i as int), entries[i as int]);
            assert(out@ =~= h1 + enc_scores(entries.take(i as int + 1)));
        }
        i = i + 1;
    }
    proof {
        assert(m.scoreboard.scores.take(nc as int) =~= m.scoreboard.scores);
    }
    append_nat(&mut out, scoreboard.blank_score.0);
    append_nat(&mut out, scoreboard.invalid_score.0);
    append_nat(&mut out, voters.0.len());
    let ghost h2 = out@;
    let mut j: usize = 0;
    let nv = voters.0.len();
    proof {
        assert(m.voters.take(0) =~= Seq::<Seq<char>>::empty());
        assert(out@ =~= h2 + enc_voters(m.voters.take(0)));
    }
    while j < nv
        invariant
            j <= nv,
            out@ == h2 + enc_voters(m.voters.take(j as int)),
        decreases nv - j,
    {
        append_name(&mut out, voters.0[j].0.as_str());
        proof {
            assert(m.voters[j as int] == voters.0@[j as int]@);
            assert(m.voters.take(j as int + 1) =~= m.voters.take(j as int).push(
                m.voters[j as int],
            ));
            lemma_enc_voters_push(m.voters.take(j as int), m.voters[j as int]);
            assert(out@ =~= h2 + enc_voters(m.voters.take(j as int + 1)));
        }
        j = j + 1;
    }
    proof {
        assert(m.voters.take(nv as int) =~= m.voters);
        assert(out@ =~= spec_encode(m));
    }
    out
}

// ---------------------------------------------------------------------------
// The parser
// ---------------------------------------------------------------------------

/// The value of a digit character, or nothing for any other character.
fn char_digit(c: char) -> (r: Option<usize>)
    ensures
        r is Some <==> is_dec_digit(c),
        r is Some ==> r->0 as nat == dec_digit_val(c) && r->0 <= 9,
{
    let v = c as u32;
    if 48 <= v && v <= 57 {
        Some((v - 48) as usize)
    } else {
        None
    }
}

/// Reads one number starting at `pos`, returning its value and the position
/// after its trailing space.
fn parse_nat_at(s: &str, pos: usize) -> (r: Option<(usize, usize)>)
    requires
        pos <= s@.len(),
    ensures
        ({
            let sp = spec_parse_nat(s@.skip(pos as int));
            match r {
                None => sp is None,
                Some(p) => sp is Some && p.0 as nat == (sp->0).0 && pos < p.1 <= s@.len()
                    && s@.skip(p.1 as int) == (sp->0).1,
            }
        }),
{
    let ghost rest = s@.skip(pos as int);
    let n = s.unicode_len();
    let mut j = pos;
    let mut acc: usize = 0;
    let mut overflow = false;
    loop
        invariant_except_break
            pos <= j <= n,
            n == s@.len(),
            pos <= s@.len(),
            forall|k: int| pos <= k < j ==> is_dec_digit(#[trigger] s@[k]),
            !overflow ==> acc as nat == digits_val(s@.subrange(pos as int, j as int)),
            overflow ==> digits_val(s@.subrange(pos as int, j as int)) > usize::MAX,
        ensures
            pos <= j <= n,
            n == s@.len(),
            forall|k: int| pos <= k < j ==> is_dec_digit(#[trigger] s@[k]),
            j == n || !is_dec_digit(s@[j as int]),
            !overflow ==> acc as nat == digits_val(s@.subrange(pos as int, j as int)),
            overflow ==> digits_val(s@.subrange(pos as int, j as int)) > usize::MAX,
        decreases n - j,
    {
        if j == n {
            break ;
        }
        let c = s.get_char(j);
        match char_digit(c) {
            None => {
                break ;
            },
            Some(d) => {
                proof {
                    assert(s@.subrange(pos as int, j as int + 1).drop_last() =~= s@.subrange(
                        pos as int,
                        j as int,
                    ));
                    assert(s@.subrange(pos as int, j as int + 1).last() == s@[j as int]);
                }
                if !overflow {
                    let limit = (usize::MAX - d) / 10;
                    proof {
                        vstd::arithmetic::div_mod::lemma_fundamental_div_mod(
                            (usize::MAX - d) as int,
                            10,
                        );
                    }
                    if acc <= limit {
                        proof {
                            assert(acc * 10 <= limit * 10) by (nonlinear_arith)
                                requires
                                    acc <= limit,
                            ;
                        }
                        acc = acc * 10 + d;
                    } else {
                        proof {
                            assert(acc * 10 >= limit * 10 + 10) by (nonlinear_arith)
                                requires
                                    acc >= limit + 1,
                            ;
                        }
                        overflow = true;
                    }
                } else {
                    proof {
                        let v = digits_val(s@.subrange(pos as int, j as int));
                        assert(v <= v * 10);
                    }
                }
                j = j + 1;
            },
        }
    }
    proof {
        assert forall|m: int| 0 <= m < j - pos implies is_dec_digit(#[trigger] rest[m]) by {
            assert(rest[m] == s@[pos + m]);
        }
        if j < n {
            assert(rest[j - pos] == s@[j as int]);
        }
        lemma_digit_prefix_value(rest, j - pos);
        assert(rest.take(j - pos) =~= s@.subrange(pos as int, j as int));
    }
    if j == pos {
        return None;
    }
    if overflow {
        return None;
    }
    if j == n {
        return None;
    }
    let c = s.get_char(j);
    if c == ' ' {
        proof {
            assert(rest[j - pos] == s@[j as int]);
            assert(rest.skip(j - pos + 1) =~= s@.skip(j as int + 1));
        }
        Some((acc, j + 1))
    } else {
        None
    }
}

/// Reads one name starting at `pos`, returning it and the position after it.
fn parse_name_at(s: &str, pos: usize) -> (r: Option<(String, usize)>)
    requires
        pos <= s@.len(),
    ensures
        ({
            let sp = spec_parse_name(s@.skip(pos as int));
            match r {
                None => sp is None,
                Some(p) => sp is Some && p.0@ == (sp->0).0 && pos <= p.1 <= s@.len() && s@.skip(
                    p.1 as int,
                ) == (sp->0).1,
            }
        }),
{
    match parse_nat_at(s, pos) {
        None => None,
        Some((len, p1)) => {
            let n = s.unicode_len();
            if len > n - p1 {
                return None;
            }
            let name = String::from_str(s.substring_char(p1, p1 + len));
            proof {
                let r1 = s@.skip(p1 as int);
                assert(r1.take(len as int) =~= s@.subrange(p1 as int, p1 as int + len as int));
                assert(r1.skip(len as int) =~= s@.skip(p1 as int + len as int));
            }
            Some((name, p1 + len))
        },
    }
}

/// Reads `count` tallies starting at `pos`.
#[verifier::loop_isolation(false)]
fn parse_scores_at(s: &str, pos: usize, count: usize) -> (r: Option<(Vec<(Candidate, Score)>, usize)>)
    requires
        pos <= s@.len(),
    ensures
        ({
            let sp = spec_parse_scores(s@.skip(pos as int), count as nat);
            match r {
                None => sp is None,
                Some(p) => sp is Some && p.0.deep_view() == (sp->0).0 && pos <= p.1 <= s@.len()
                    && s@.skip(p.1 as int) == (sp->0).1,
            }
        }),
{
    let mut acc: Vec<(Candidate, Score)> = Vec::new();
    let mut cur = pos;
    let mut i: usize = 0;
    proof {
        assert(acc.deep_view() =~= Seq::<(Seq<char>, nat)>::empty());
    }
    while i < count
        invariant
            i <= count,
            pos <= cur <= s@.len(),
            spec_parse_scores(s@.skip(pos as int), count as nat) == (match spec_parse_scores(
                s@.skip(cur as int),
                (count - i) as nat,
            ) {
                None => None,
                Some(p) => Some((acc.deep_view() + p.0, p.1)),
            }),
        decreases count - i,
    {
        let (name, p1) = match parse_name_at(s, cur) {
            None => {
                return None;
            },
            Some(x) => x,
        };
        let (v, p2) = match parse_nat_at(s, p1) {
            None => {
                return None;
            },
            Some(x) => x,
        };
        let ghost prev = acc.deep_view();
        acc.push((Candidate(name), Score(v)));
        proof {
            assert(acc.deep_view() =~= prev.push((name@, v as nat)));
            let tail_sp = spec_parse_scores(s@.skip(p2 as int), (count - i - 1) as nat);
            match tail_sp {
                None => {},
                Some(p) => {
                    assert(prev + (seq![(name@, v as nat)] + p.0) =~= acc.deep_view() + p.0);
                },
            }
        }
        cur = p2;
        i = i + 1;
    }
    proof {
        assert(spec_parse_scores(s@.skip(cur as int), 0) == Some(
            (Seq::<(Seq<char>, nat)>::empty(), s@.skip(cur as int)),
        ));
        assert(acc.deep_view() + Seq::<(Seq<char>, nat)>::empty() =~= acc.deep_view());
    }
    Some((acc, cur))
}

/// Reads `count` voter names starting at `pos`.
#[verifier::loop_isolation(false)]
fn parse_voters_at(s: &str, pos: usize, count: usize) -> (r: Option<(Vec<Voter>, usize)>)
    requires
        pos <= s@.len(),
    ensures
        ({
            let sp = spec_parse_voters(s@.skip(pos as int), count as nat);
            match r {
                None => sp is None,
                Some(p) => sp is Some && p.0.deep_view() == (sp->0).0 && pos <= p.1 <= s@.len()
                    && s@.skip(p.1 as int) == (sp->0).1,
            }
        }),
{
    let mut acc: Vec<Voter> = Vec::new();
    let mut cur = pos;
    let mut i: usize = 0;
    proof {
        assert(acc.deep_view() =~= Seq::<Seq<char>>::empty());
    }
    while i < count
        invariant
            i <= count,
            pos <= cur <= s@.len(),
            spec_parse_voters(s@.skip(pos as int), count as nat) == (match spec_parse_voters(
                s@.skip(cur as int),
                (count - i) as nat,
            ) {
                None => None,
                Some(p) => Some((acc.deep_view() + p.0, p.1)),
            }),
        decreases count - i,
    {
        let (name, p1) = match parse_name_at(s, cur) {
            None => {
                return None;
            },
            Some(x) => x,
        };
        let ghost prev = acc.deep_view();
        acc.push(Voter(name));
        proof {
            assert(acc.deep_view() =~= prev.push(name@));
            let tail_sp = spec_parse_voters(s@.skip(p1 as int), (count - i - 1) as nat);
            match tail_sp {
                None => {},
                Some(p) => {
                    assert(prev + (seq![name@] + p.0) =~= acc.deep_view() + p.0);
                },
            }
        }
        cur = p1;
        i = i + 1;
    }
    proof {
        assert(spec_parse_voters(s@.skip(cur as int), 0) == Some(
            (Seq::<Seq<char>>::empty(), s@.skip(cur as int)),
        ));
        assert(acc.deep_view() + Seq::<Seq<char>>::empty() =~= acc.deep_view());
    }
    Some((acc, cur))
}

// ---------------------------------------------------------------------------
// Validation
// ---------------------------------------------------------------------------

/// Whether no voter appears twice.
#[verifier::loop_isolation(false)]
fn voters_distinct(vs: &Vec<Voter>) -> (r: bool)
    ensures
        r == vs.deep_view().no_duplicates(),
{
    let n = vs.len();
    let ghost dv = vs.deep_view();
    let mut i: usize = 0;
    while i < n
        invariant
            i <= n,
            dv.take(i as int).no_duplicates(),
        decreases n - i,
    {
        let mut j: usize = 0;
        while j < i
            invariant
                j <= i < n,
                forall|k: int| 0 <= k < j ==> dv[k] != dv[i as int],
            decreases i - j,
        {
            if vs[j].0 == vs[i].0 {
                proof {
                    assert(dv[j as int] == dv[i as int]);
                }
                return false;
            }
            j = j + 1;
        }
        proof {
            let t = dv.take(i as int + 1);
            assert forall|a: int, b: int|
                0 <= a < t.len() && 0 <= b < t.len() && a != b implies t[a] != t[b] by {
                assert(t[a] == dv[a]);
                assert(t[b] == dv[b]);
                if a < i && b < i {
                    assert(dv.take(i as int)[a] == dv[a]);
                    assert(dv.take(i as int)[b] == dv[b]);
                } else if b == i {
                    assert(dv[a] != dv[i as int]);
                } else {
                    assert(dv[b] != dv[i as int]);
                }
            }
        }
        i = i + 1;
    }
    proof {
        assert(dv.take(n as int) =~= dv);
    }
    true
}

/// A prefix of the tallies never outweighs the whole.
proof fn lemma_sum_take_le(s: Seq<(Seq<char>, nat)>, m: int)
    requires
        0 <= m <= s.len(),
    ensures
        sum_scores(s.take(m)) <= sum_scores(s),
    decreases s.len() - m,
{
    if m < s.len() {
        lemma_sum_take_le(s, m + 1);
        assert(s.take(m + 1) =~= s.take(m).push((s[m].0, s[m].1)));
        lemma_sum_push(s.take(m), s[m].0, s[m].1);
    } else {
        assert(s.take(m) =~= s);
    }
}

/// Adds up every tally, or reports that the total does not fit the machine's
/// word size.
#[verifier::loop_isolation(false)]
fn sum_scores_checked(scores: &Vec<(Candidate, Score)>) -> (r: Option<usize>)
    ensures
        r is Some ==> r->0 as nat == sum_scores(scores.deep_view()),
        r is None ==> sum_scores(scores.deep_view()) > usize::MAX,
{
    let ghost dv = scores.deep_view();
    let n = scores.len();
    let mut total: usize = 0;
    let mut i: usize = 0;
    proof {
        assert(dv.take(0) =~= Seq::<(Seq<char>, nat)>::empty());
    }
    while i < n
        invariant
            i <= n,
            total as nat == sum_scores(dv.take(i as int)),
        decreases n - i,
    {
        let v = scores[i].1.0;
        proof {
            assert(dv[i as int] == (scores@[i as int].0@, scores@[i as int].1.0 as nat));
            assert(dv.take(i as int + 1) =~= dv.take(i as int).push(
                (dv[i as int].0, dv[i as int].1),
            ));
            lemma_sum_push(dv.take(i as int), dv[i as int].0, dv[i as int].1);
        }
        if total > usize::MAX - v {
            proof {
                lemma_sum_take_le(dv, i as int + 1);
            }
            return None;
        }
        total = total + v;
        i = i + 1;
    }
    proof {
        assert(dv.take(n as int) =~= dv);
    }
    Some(total)
}

/// Reads one machine back from its snapshot text. Returns it only when the
/// text parses exactly and the recorded state is well formed: no voter twice,
/// and tallies plus counters adding up to the attendance size. Malformed or
/// inconsistent text is rejected, never silently mended.
#[verifier::loop_isolation(false)]
pub fn parse_snapshot(s: &str) -> (r: Option<VotingMachine>)
    ensures
        ({
            let sp = spec_parse_snapshot(s@);
            match r {
                None => sp is None || !spec_inv(sp->0),
                Some(machine) => sp is Some && spec_inv(sp->0) && machine@ == sp->0,
            }
        }),
{
    let n = s.unicode_len();
    proof {
        assert(s@.skip(0) =~= s@);
    }
    let (nc, p1) = match parse_nat_at(s, 0) {
        None => {
            return None;
        },
        Some(x) => x,
    };
    let (scores, p2) = match parse_scores_at(s, p1, nc) {
        None => {
            return None;
        },
        Some(x) => x,
    };
    let (blank, p3) = match parse_nat_at(s, p2) {
        None => {
            return None;
        },
        Some(x) => x,
    };
    let (invalid, p4) = match parse_nat_at(s, p3) {
        None => {
            return None;
        },
        Some(x) => x,
    };
    let (nv, p5) = match parse_nat_at(s, p4) {
        None => {
            return None;
        },
        Some(x) => x,
    };
    let (voters, p6) = match parse_voters_at(s, p5, nv) {
        None => {
            return None;
        },
        Some(x) => x,
    };
    if p6 != n {
        return None;
    }
    let ghost model = spec_parse_snapshot(s@)->0;
    proof {
        assert(model.voters == voters.deep_view());
        assert(model.scoreboard.scores == scores.deep_view());
        assert(model.scoreboard.blank == blank as nat);
        assert(model.scoreboard.invalid == invalid as nat);
    }
    if !voters_distinct(&voters) {
        return None;
    }
    let nvoters = voters.len();
    proof {
        assert(model.voters.len() == nvoters as nat);
    }
    let total = match sum_scores_checked(&scores) {
        None => {
            return None;
        },
        Some(t) => t,
    };
    if total > usize::MAX - blank {
        return None;
    }
    let t2 = total + blank;
    if t2 > usize::MAX - invalid {
        return None;
    }
    let t3 = t2 + invalid;
    if t3 != nvoters {
        return None;
    }
    let machine = VotingMachine::recover_from(
        AttendenceSheet(voters),
        Scoreboard { scores, blank_score: Score(blank), invalid_score: Score(invalid) },
    );
    proof {
        assert(machine@ =~~= model);
    }
    Some(machine)
}

// ---------------------------------------------------------------------------
// Plain-value mirrors of the domain types
// ---------------------------------------------------------------------------

/// The scoreboard as plain values, as the snapshot stores it.
pub struct ScoreboardDao {
    pub scores: Vec<(String, usize)>,
    pub blank_score: usize,
    pub invalid_score: usize,
}

/// The machine as plain values, as the snapshot stores it.
pub struct VotingMachineDao {
    pub voters: Vec<String>,
    pub scoreboard: ScoreboardDao,
}

impl View for ScoreboardDao {
    type V = ScoreboardModel;

    open spec fn view(&self) -> ScoreboardModel {
        ScoreboardModel {
            scores: Seq::new(
                self.scores@.len(),
                |i: int| (self.scores@[i].0@, self.scores@[i].1 as nat),
            ),
            blank: self.blank_score as nat,
            invalid: self.invalid_score as nat,
        }
    }
}

impl View for VotingMachineDao {
    type V = MachineModel;

    open spec fn view(&self) -> MachineModel {
        MachineModel { voters: self.voters.deep_view(), scoreboard: self.scoreboard@ }
    }
}

impl ScoreboardDao {
    /// Strips a scoreboard to plain values; the model is unchanged.
    pub fn from(scoreboard: Scoreboard) -> (r: Self)
        ensures
            r@ == scoreboard@,
    {
        let mut scores: Vec<(String, usize)> = Vec::new();
        let mut i: usize = 0;
        let n = scoreboard.scores.len();
        while i < n
            invariant
                i <= n,
                n == scoreboard.scores.len(),
                scores@.len() == i,
                forall|k: int|
                    0 <= k < i ==> (#[trigger] scores@[k]).0@ == scoreboard@.scores[k].0
                        && scores@[k].1 as nat == scoreboard@.scores[k].1,
            decreases n - i,
        {
            scores.push((scoreboard.scores[i].0.0.clone(), scoreboard.scores[i].1.0));
            i = i + 1;
        }
        let r = ScoreboardDao {
            scores,
            blank_score: scoreboard.blank_score.0,
            invalid_score: scoreboard.invalid_score.0,
        };
        proof {
            assert(r@.scores =~= scoreboard@.scores);
            assert(r@ =~= scoreboard@);
        }
        r
    }
}

impl VotingMachineDao {
    /// Strips a machine to plain values; the model is unchanged.
    pub fn from(voting_machine: VotingMachine) -> (r: Self)
        ensures
            r@ == voting_machine@,
    {
        let ghost m = voting_machine@;
        let mut voters: Vec<String> = Vec::new();
        let sheet = voting_machine.get_voters();
        let mut i: usize = 0;
        let n = sheet.0.len();
        while i < n
            invariant
                i <= n,
                n == sheet.0.len(),
                sheet@ == m.voters,
                voters.deep_view() =~= m.voters.take(i as int),
            decreases n - i,
        {
            let ghost prev = voters.deep_view();
            voters.push(sheet.0[i].0.clone());
            proof {
                assert(voters.deep_view() =~= prev.push(sheet.0@[i as int]@));
                assert(voters.deep_view() =~= m.voters.take(i as int + 1));
            }
            i = i + 1;
        }
        let scoreboard = ScoreboardDao::from(voting_machine.get_scoreboard().clone());
        let r = VotingMachineDao { voters, scoreboard };
        proof {
            assert(m.voters.take(n as int) =~= m.voters);
            assert(r@ =~= m);
        }
        r
    }
}

impl Scoreboard {
    /// Rebuilds a scoreboard from plain values; the model is unchanged.
    pub fn from(scoreboard: ScoreboardDao) -> (r: Self)
        ensures
            r@ == scoreboard@,
    {
        let mut scores: Vec<(Candidate, Score)> = Vec::new();
        let mut i: usize = 0;
        let n = scoreboard.scores.len();
        while i < n
            invariant
                i <= n,
                n == scoreboard.scores.len(),
                scores@.len() == i,
                forall|k: int|
                    0 <= k < i ==> (#[trigger] scores@[k]).0.0@ == scoreboard@.scores[k].0
                        && scores@[k].1.0 as nat == scoreboard@.scores[k].1,
            decreases n - i,
        {
            scores.push((Candidate(scoreboard.scores[i].0.clone()), Score(scoreboard.scores[i].1)));
            i = i + 1;
        }
        let r = Scoreboard {
            scores,
            blank_score: Score(scoreboard.blank_score),
            invalid_score: Score(scoreboard.invalid_score),
        };
        proof {
            assert(r@.scores =~= scoreboard@.scores);
            assert(r@ =~= scoreboard@);
        }
        r
    }
}

impl VotingMachine {
    /// Rebuilds a machine from plain values; the model is unchanged.
    pub fn from(voting_machine: VotingMachineDao) -> (r: Self)
        ensures
            r@ == voting_machine@,
    {
        let ghost m = voting_machine@;
        let VotingMachineDao { voters, scoreboard } = voting_machine;
        let mut sheet: Vec<Voter> = Vec::new();
        let mut i: usize = 0;
        let n = voters.len();
        while i < n
            invariant
                i <= n,
                n == voters.len(),
                voters.deep_view() == m.voters,
                sheet.deep_view() =~= m.voters.take(i as int),
            decreases n - i,
        {
            let ghost prev = sheet.deep_view();
            sheet.push(Voter(voters[i].clone()));
            proof {
                assert(sheet.deep_view() =~= prev.push(voters@[i as int]@));
                assert(sheet.deep_view() =~= m.voters.take(i as int + 1));
            }
            i = i + 1;
        }
        proof {
            assert(m.voters.take(n as int) =~= m.voters);
        }
        let r = VotingMachine::recover_from(AttendenceSheet(sheet), Scoreboard::from(scoreboard));
        proof {
            assert(r@ =~= m);
        }
        r
    }
}

} // verus!
