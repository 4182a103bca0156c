//! The view projector: a privacy-filtered snapshot of one game for one
//! viewer. Completed rounds are public; the running round shows each
//! team's encryptor and clues to everyone, but a team's decipher and
//! intercept attempts only to that team itself, until the round
//! completes.

use vstd::prelude::*;
use vstd::multiset::Multiset;
use vstd::seq_lib::lemma_multiset_commutative;

use crate::code::Code;
use crate::game::GameInfo;
use crate::game::GameInfoState;
use crate::game::GameInfoStateCurrentRound;
use crate::id::UserId;
use crate::message::Clue;
use crate::message::CompletedRoundPerTeam;
use crate::message::CurrentRoundPerTeam;
use crate::message::Deadline;
use crate::message::GameStateView;
use crate::message::Inputs;
use crate::message::PlayerInfo;
use crate::round::RoundPerTeam;
use crate::round::TiebreakerRoundPerTeam;
use crate::round::encrypt_done;
use crate::round::spec_score_for;
use crate::settings::Wordlist;
use crate::team::PerTeam;
use crate::team::Team;

verus! {


/// The two optional codes agree, index for index.
pub open spec fn opt_code_like(a: Option<Code>, b: Option<Code>) -> bool {
    match (a, b) {
        (Some(x), Some(y)) => x@ == y@,
        (None, None) => true,
        _ => false,
    }
}

/// The two optional clue lists agree, entry for entry.
pub open spec fn opt_clues_like(a: Option<Vec<Clue>>, b: Option<Vec<Clue>>) -> bool {
    match (a, b) {
        (Some(x), Some(y)) => x@ == y@,
        (None, None) => true,
        _ => false,
    }
}

/// The two per-team round records carry the same information.
pub open spec fn round_entry_like(a: RoundPerTeam, b: RoundPerTeam) -> bool {
    &&& a.encryptor == b.encryptor
    &&& a.code@ == b.code@
    &&& opt_clues_like(a.clues, b.clues)
    &&& opt_code_like(a.decipher, b.decipher)
    &&& opt_code_like(a.intercept, b.intercept)
    &&& a.timed_out == b.timed_out
}

/// The two per-team tiebreaker records carry the same information.
pub open spec fn tb_entry_like(a: TiebreakerRoundPerTeam, b: TiebreakerRoundPerTeam) -> bool {
    &&& a.guesses@ == b.guesses@
    &&& a.timed_out == b.timed_out
}

/// The two inputs values carry the same information.
pub open spec fn inputs_like(a: Inputs, b: Inputs) -> bool {
    match (a, b) {
        (
            Inputs::Encrypt { code: c1, deadline: d1 },
            Inputs::Encrypt { code: c2, deadline: d2 },
        ) => c1@ == c2@ && d1 == d2,
        (x, y) => x == y,
    }
}

fn clone_string(s: &String) -> (r: String)
    ensures
        r == *s,
{
    s.clone()
}

fn clone_strings(v: &Vec<String>) -> (r: Vec<String>)
    ensures
        r@ == v@,
{
    let mut r: Vec<String> = Vec::new();
    let n = v.len();
    let mut i: usize = 0;
    while i < n
        invariant
            i <= n,
            n == v@.len(),
            r@.len() == i,
            forall|k: int| 0 <= k < i ==> r@[k] == v@[k],
        decreases n - i,
    {
        r.push(clone_string(&v[i]));
        i += 1;
    }
    proof {
        assert(r@ =~= v@);
    }
    r
}

fn clone_code(c: &Code) -> (r: Code)
    ensures
        r@ == c@,
{
    let mut data: Vec<usize> = Vec::new();
    let n = c.0.len();
    let mut i: usize = 0;
    while i < n
        invariant
            i <= n,
            n == c.0@.len(),
            data@.len() == i,
            forall|k: int| 0 <= k < i ==> data@[k] == c.0@[k],
        decreases n - i,
    {
        data.push(c.0[i]);
        i += 1;
    }
    proof {
        assert(data@ =~= c.0@);
    }
    Code(data)
}

fn clone_opt_code(c: &Option<Code>) -> (r: Option<Code>)
    ensures
        opt_code_like(r, *c),
{
    match c {
        Some(code) => Some(clone_code(code)),
        None => None,
    }
}

fn clone_clue(c: &Clue) -> (r: Clue)
    ensures
        r == *c,
{
    match c {
        Clue::Text(s) => Clue::Text(clone_string(s)),
        Clue::Image(id) => Clue::Image(*id),
    }
}

fn clone_opt_clues(c: &Option<Vec<Clue>>) -> (r: Option<Vec<Clue>>)
    ensures
        opt_clues_like(r, *c),
{
    match c {
        Some(clues) => {
            let mut r: Vec<Clue> = Vec::new();
            let n = clues.len();
            let mut i: usize = 0;
            while i < n
                invariant
                    i <= n,
                    n == clues@.len(),
                    r@.len() == i,
                    forall|k: int| 0 <= k < i ==> r@[k] == clues@[k],
                decreases n - i,
            {
                r.push(clone_clue(&clues[i]));
                i += 1;
            }
            proof {
                assert(r@ =~= clues@);
            }
            Some(r)
        },
        None => None,
    }
}

fn clone_round_per_team(r: &RoundPerTeam) -> (res: RoundPerTeam)
    ensures
        round_entry_like(res, *r),
{
    RoundPerTeam {
        encryptor: r.encryptor,
        code: clone_code(&r.code),
        clues: clone_opt_clues(&r.clues),
        decipher: clone_opt_code(&r.decipher),
        intercept: clone_opt_code(&r.intercept),
        timed_out: r.timed_out,
    }
}

fn clone_tb_team(t: &TiebreakerRoundPerTeam) -> (res: TiebreakerRoundPerTeam)
    ensures
        tb_entry_like(res, *t),
{
    let mut guesses: Vec<Option<String>> = Vec::new();
    let n = t.guesses.len();
    let mut i: usize = 0;
    while i < n
        invariant
            i <= n,
            n == t.guesses@.len(),
            guesses@.len() == i,
            forall|k: int| 0 <= k < i ==> guesses@[k] == t.guesses@[k],
        decreases n - i,
    {
        let g = match &t.guesses[i] {
            Some(s) => Some(clone_string(s)),
            None => None,
        };
        guesses.push(g);
        i += 1;
    }
    proof {
        assert(guesses@ =~= t.guesses@);
    }
    TiebreakerRoundPerTeam { guesses, timed_out: t.timed_out }
}

fn clone_tiebreaker(t: &Option<PerTeam<TiebreakerRoundPerTeam>>) -> (res: Option<
    PerTeam<TiebreakerRoundPerTeam>,
>)
    ensures
        match (res, *t) {
            (Some(a), Some(b)) => tb_entry_like(a.white, b.white) && tb_entry_like(
                a.black,
                b.black,
            ),
            (None, None) => true,
            _ => false,
        },
{
    match t {
        Some(tb) => Some(
            PerTeam { white: clone_tb_team(&tb.white), black: clone_tb_team(&tb.black) },
        ),
        None => None,
    }
}

/// A completed-round view entry is exactly the stored round plus its
/// computed score.
pub open spec fn completed_view_ok(v: PerTeam<CompletedRoundPerTeam>, r: PerTeam<RoundPerTeam>) -> bool {
    &&& round_entry_like(v.white.non_computed, r.white)
    &&& v.white.score == spec_score_for(r, Team(false))
    &&& round_entry_like(v.black.non_computed, r.black)
    &&& v.black.score == spec_score_for(r, Team(true))
}

/// The running round as the viewer's team may see it: encryptors and
/// clues are public, but each team's decipher and intercept attempts
/// are blanked for everyone but that team itself.
pub open spec fn current_view_ok(
    v: PerTeam<CurrentRoundPerTeam>,
    r: PerTeam<RoundPerTeam>,
    viewer_team: Team,
) -> bool {
    forall|t: Team|
        {
            &&& (#[trigger] v.spec_get(t)).encryptor == r.spec_get(t).encryptor
            &&& opt_clues_like(v.spec_get(t).clues, r.spec_get(t).clues)
            &&& opt_code_like(
                v.spec_get(t).decipher,
                if t == viewer_team {
                    r.spec_get(t).decipher
                } else {
                    None::<Code>
                },
            )
            &&& opt_code_like(
                v.spec_get(t).intercept,
                if t == viewer_team {
                    r.spec_get(t).intercept
                } else {
                    None::<Code>
                },
            )
        }
}

fn completed_rounds_view(rounds: &Vec<PerTeam<RoundPerTeam>>) -> (r: Vec<
    PerTeam<CompletedRoundPerTeam>,
>)
    ensures
        r@.len() == rounds@.len(),
        forall|i: int| 0 <= i < r@.len() ==> completed_view_ok(#[trigger] r@[i], rounds@[i]),
{
    let mut r: Vec<PerTeam<CompletedRoundPerTeam>> = Vec::new();
    let n = rounds.len();
    let mut i: usize = 0;
    while i < n
        invariant
            i <= n,
            n == rounds@.len(),
            r@.len() == i,
            forall|k: int| 0 <= k < i ==> completed_view_ok(#[trigger] r@[k], rounds@[k]),
        decreases n - i,
    {
        let round = &rounds[i];
        let score = round.score();
        r.push(
            PerTeam {
                white: CompletedRoundPerTeam {
                    non_computed: clone_round_per_team(&round.white),
                    score: score.white,
                },
                black: CompletedRoundPerTeam {
                    non_computed: clone_round_per_team(&round.black),
                    score: score.black,
                },
            },
        );
        i += 1;
    }
    r
}

fn current_round_view(round: &PerTeam<RoundPerTeam>, viewer_team: Team) -> (r: PerTeam<
    CurrentRoundPerTeam,
>)
    ensures
        current_view_ok(r, *round, viewer_team),
{
    let white = CurrentRoundPerTeam {
        encryptor: round.white.encryptor,
        clues: clone_opt_clues(&round.white.clues),
        decipher: if !viewer_team.0 {
            clone_opt_code(&round.white.decipher)
        } else {
            None
        },
        intercept: if !viewer_team.0 {
            clone_opt_code(&round.white.intercept)
        } else {
            None
        },
    };
    let black = CurrentRoundPerTeam {
        encryptor: round.black.encryptor,
        clues: clone_opt_clues(&round.black.clues),
        decipher: if viewer_team.0 {
            clone_opt_code(&round.black.decipher)
        } else {
            None
        },
        intercept: if viewer_team.0 {
            clone_opt_code(&round.black.intercept)
        } else {
            None
        },
    };
    let r = PerTeam { white, black };
    proof {
        assert forall|t: Team|
            {
                &&& (#[trigger] r.spec_get(t)).encryptor == round.spec_get(t).encryptor
                &&& opt_clues_like(r.spec_get(t).clues, round.spec_get(t).clues)
                &&& opt_code_like(
                    r.spec_get(t).decipher,
                    if t == viewer_team {
                        round.spec_get(t).decipher
                    } else {
                        None::<Code>
                    },
                )
                &&& opt_code_like(
                    r.spec_get(t).intercept,
                    if t == viewer_team {
                        round.spec_get(t).intercept
                    } else {
                        None::<Code>
                    },
                )
            } by {
            assert(t == Team(false) || t == Team(true));
        }
    }
    r
}

/// What the viewer owes the game in a running normal round: their code
/// while they are the pending encryptor, their team's pending guesses
/// once all clues are in, and otherwise a waiting marker naming the
/// pending teams.
pub open spec fn spec_inputs_normal(
    round: PerTeam<RoundPerTeam>,
    deadlines: PerTeam<Option<Deadline>>,
    first_round: bool,
    team: Team,
    viewer: UserId,
) -> Inputs {
    let own = round.spec_get(team);
    let is_encryptor = own.encryptor == viewer;
    if encrypt_done(round.white) && encrypt_done(round.black) {
        let decipher = own.decipher is None && !is_encryptor;
        let intercept = own.intercept is None && !first_round;
        if own.timed_out.guess is None && (decipher || intercept) {
            Inputs::Guess { intercept, decipher, deadline: deadlines.spec_get(team) }
        } else {
            Inputs::WaitingForGuessers {
                teams: PerTeam {
                    white: round.white.decipher is None || (round.white.intercept is None
                        && !first_round),
                    black: round.black.decipher is None || (round.black.intercept is None
                        && !first_round),
                },
                deadline: deadlines.spec_get(team.spec_other()),
            }
        }
    } else {
        if own.timed_out.encrypt is None && own.clues is None && is_encryptor {
            Inputs::Encrypt { code: own.code, deadline: deadlines.spec_get(team) }
        } else {
            Inputs::WaitingForEncryptors {
                teams: PerTeam {
                    white: round.white.clues is None,
                    black: round.black.clues is None,
                },
                deadline: deadlines.spec_get(team.spec_other()),
            }
        }
    }
}

fn inputs_normal(
    round: &PerTeam<RoundPerTeam>,
    deadlines: &PerTeam<Option<Deadline>>,
    first_round: bool,
    team: Team,
    viewer: UserId,
) -> (r: Inputs)
    ensures
        inputs_like(r, spec_inputs_normal(*round, *deadlines, first_round, team, viewer)),
{
    let own = round.get(team);
    let is_encryptor = own.encryptor == viewer;
    let w_enc_done = round.white.clues.is_some() || round.white.timed_out.encrypt.is_some();
    let b_enc_done = round.black.clues.is_some() || round.black.timed_out.encrypt.is_some();
    if w_enc_done && b_enc_done {
        let decipher = own.decipher.is_none() && !is_encryptor;
        let intercept = own.intercept.is_none() && !first_round;
        if own.timed_out.guess.is_none() && (decipher || intercept) {
            Inputs::Guess { intercept, decipher, deadline: *deadlines.get(team) }
        } else {
            Inputs::WaitingForGuessers {
                teams: PerTeam {
                    white: round.white.decipher.is_none() || (round.white.intercept.is_none()
                        && !first_round),
                    black: round.black.decipher.is_none() || (round.black.intercept.is_none()
                        && !first_round),
                },
                deadline: *deadlines.get(team.other()),
            }
        }
    } else {
        if own.timed_out.encrypt.is_none() && own.clues.is_none() && is_encryptor {
            Inputs::Encrypt { code: clone_code(&own.code), deadline: *deadlines.get(team) }
        } else {
            Inputs::WaitingForEncryptors {
                teams: PerTeam {
                    white: round.white.clues.is_none(),
                    black: round.black.clues.is_none(),
                },
                deadline: *deadlines.get(team.other()),
            }
        }
    }
}

/// Everything the state-dependent view promises of its content, per
/// game state: the lobby readiness report, the privacy-filtered
/// running-game view with its inputs, the opaque marker for viewers
/// without a team, and the fully public terminal snapshot.
pub open spec fn state_view_ok(
    r: GameStateView,
    game: GameInfo,
    viewer: UserId,
    lists: Seq<Wordlist>,
) -> bool {
    match game.state {
        GameInfoState::Lobby => r matches GameStateView::Lobby { reason_not_startable } && {
            &&& reason_not_startable is None <==> game.spec_startable(lists)
            &&& reason_not_startable matches Some(m) ==> m@ == game.spec_startable_error(
                lists,
            )
        },
        GameInfoState::InGame { keywords, completed_rounds, current_round, deadlines } => match (
        if game.spec_has_player(viewer) {
            game.spec_player_info(viewer).spec_team_of()
        } else {
            None
        }) {
            None => r is InGameNotInTeam,
            Some(team) => r matches GameStateView::InGame {
                completed_rounds: crv,
                current_round: cur,
                keywords: kw,
                inputs,
            } && {
                &&& kw@ == keywords.spec_get(team)@
                &&& crv@.len() == completed_rounds@.len()
                &&& forall|i: int|
                    0 <= i < crv@.len() ==> completed_view_ok(
                        #[trigger] crv@[i],
                        completed_rounds@[i],
                    )
                &&& match current_round {
                    GameInfoStateCurrentRound::Normal(round) => cur matches Some(c)
                        && current_view_ok(c, round, team) && inputs_like(
                        inputs,
                        spec_inputs_normal(
                            round,
                            deadlines,
                            completed_rounds@.len() == 0,
                            team,
                            viewer,
                        ),
                    ),
                    GameInfoStateCurrentRound::Tiebreaker(tb) => cur is None && inputs == (
                    Inputs::Tiebreaker {
                        teams_done: PerTeam {
                            white: crate::game::tb_team_done(tb.white),
                            black: crate::game::tb_team_done(tb.black),
                        },
                        deadline: deadlines.spec_get(team),
                    }),
                }
            },
        },
        GameInfoState::GameOver { winner, keywords, completed_rounds, tiebreaker } => r matches GameStateView::GameOver {
            winner: w2,
            keywords: kw2,
            completed_rounds: crv,
            tiebreaker: tb2,
        } && {
            &&& w2 == winner
            &&& kw2.white@ == keywords.white@
            &&& kw2.black@ == keywords.black@
            &&& match (tb2, tiebreaker) {
                (Some(a), Some(b)) => tb_entry_like(a.white, b.white) && tb_entry_like(
                    a.black,
                    b.black,
                ),
                (None, None) => true,
                _ => false,
            }
            &&& crv@.len() == completed_rounds@.len()
            &&& forall|i: int|
                0 <= i < crv@.len() ==> completed_view_ok(
                    #[trigger] crv@[i],
                    completed_rounds@[i],
                )
        },
    }
}

/// Computes the state-dependent part of the viewer's game view. A lobby
/// shows why the game cannot start yet; a running game shows nothing
/// but an opaque marker to a viewer without a team, and to a team
/// member their own keywords, the public record of completed rounds,
/// the privacy-filtered running round, and the inputs they owe; a
/// finished game is fully public.
pub fn game_state_view(game: &GameInfo, viewer: UserId, lists: &Vec<Wordlist>) -> (r: GameStateView)
    requires
        game.wf(),
    ensures
        state_view_ok(r, *game, viewer, lists@),
{
    match &game.state {
        GameInfoState::Lobby => {
            let reason_not_startable = match game.startable(lists) {
                Ok(_) => None,
                Err(m) => Some(m),
            };
            GameStateView::Lobby { reason_not_startable }
        },
        GameInfoState::InGame { keywords, completed_rounds, current_round, deadlines } => {
            let team = match game.team_for_user(viewer) {
                Some(t) => t,
                None => {
                    return GameStateView::InGameNotInTeam;
                },
            };
            let crv = completed_rounds_view(completed_rounds);
            let first_round = completed_rounds.len() == 0;
            let kw = clone_strings(keywords.get(team));
            match current_round {
                GameInfoStateCurrentRound::Normal(round) => {
                    let cur = Some(current_round_view(round, team));
                    let inputs = inputs_normal(round, deadlines, first_round, team, viewer);
                    GameStateView::InGame { completed_rounds: crv, current_round: cur, keywords: kw, inputs }
                },
                GameInfoStateCurrentRound::Tiebreaker(tb) => {
                    let inputs = Inputs::Tiebreaker {
                        teams_done: PerTeam {
                            white: crate::game::tb_team_done_exec(&tb.white),
                            black: crate::game::tb_team_done_exec(&tb.black),
                        },
                        deadline: *deadlines.get(team),
                    };
                    GameStateView::InGame {
                        completed_rounds: crv,
                        current_round: None,
                        keywords: kw,
                        inputs,
                    }
                },
            }
        },
        GameInfoState::GameOver { winner, keywords, completed_rounds, tiebreaker } => {
            let crv = completed_rounds_view(completed_rounds);
            GameStateView::GameOver {
                winner: *winner,
                keywords: PerTeam {
                    white: clone_strings(&keywords.white),
                    black: clone_strings(&keywords.black),
                },
                completed_rounds: crv,
                tiebreaker: clone_tiebreaker(tiebreaker),
            }
        },
    }
}

/// Orders a player list by identifier, keeping exactly the given
/// entries.
pub fn sort_players(list: Vec<PlayerInfo>) -> (r: Vec<PlayerInfo>)
    ensures
        r@.to_multiset() == list@.to_multiset(),
        forall|k: int, l: int| 0 <= k < l < r@.len() ==> r@[k].id.0 <= r@[l].id.0,
{
    broadcast use vstd::seq_lib::group_to_multiset_ensures;

    let mut rest = list;
    let mut out: Vec<PlayerInfo> = Vec::new();
    while rest.len() > 0
        invariant
            out@.to_multiset().add(rest@.to_multiset()) =~= list@.to_multiset(),
            forall|k: int, l: int| 0 <= k < l < out@.len() ==> out@[k].id.0 <= out@[l].id.0,
        decreases rest@.len(),
    {
        let ghost out0 = out@;
        let ghost rest0 = rest@;
        let x = rest.pop().unwrap();
        proof {
            assert(rest0 =~= rest@.push(x));
            vstd::seq_lib::to_multiset_build(rest@, x);
            assert(rest0.to_multiset() =~= rest@.to_multiset().insert(x));
        }
        let n = out.len();
        let mut pos: usize = 0;
        while pos < n && out[pos].id.0 <= x.id.0
            invariant
                pos <= n,
                n == out@.len(),
                forall|k: int| 0 <= k < pos ==> out@[k].id.0 <= x.id.0,
            decreases n - pos,
        {
            pos += 1;
        }
        proof {
            lemma_insert_to_multiset(out@, pos as int, x);
        }
        out.insert(pos, x);
        proof {
            assert forall|k: int, l: int|
                0 <= k < l < out@.len() implies out@[k].id.0 <= out@[l].id.0 by {
                assert(forall|m: int| pos < m < out@.len() ==> out@[m] == out0[m - 1]);
                assert(forall|m: int| 0 <= m < pos ==> out@[m] == out0[m]);
                assert(forall|m: int| pos < m < out@.len() ==> x.id.0 <= out@[m].id.0);
            }
            assert(out@.to_multiset().add(rest@.to_multiset()) =~= list@.to_multiset());
        }
    }
    proof {
        assert(rest@.to_multiset() =~= Multiset::<PlayerInfo>::empty());
        assert(out@.to_multiset() =~= list@.to_multiset());
    }
    out
}

proof fn lemma_insert_to_multiset(s: Seq<PlayerInfo>, pos: int, x: PlayerInfo)
    requires
        0 <= pos <= s.len(),
    ensures
        s.insert(pos, x).to_multiset() == s.to_multiset().insert(x),
{
    broadcast use vstd::seq_lib::group_to_multiset_ensures;

    let s2 = s.insert(pos, x);
    let a = s.take(pos);
    let b = s.skip(pos);
    assert(s2 =~= a.push(x) + b);
    assert(s =~= a + b);
    lemma_multiset_commutative(a.push(x), b);
    lemma_multiset_commutative(a, b);
    vstd::seq_lib::to_multiset_build(a, x);
    assert(a.push(x).to_multiset() =~= a.to_multiset().insert(x));
    assert(s2.to_multiset() =~= a.to_multiset().insert(x).add(b.to_multiset()));
    assert(s.to_multiset().insert(x) =~= a.to_multiset().add(b.to_multiset()).insert(x));
    assert(a.to_multiset().insert(x).add(b.to_multiset()) =~= a.to_multiset().add(
        b.to_multiset(),
    ).insert(x));
}

} // verus!
