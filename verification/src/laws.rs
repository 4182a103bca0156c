//! The engine's general guarantees, stated and proved once: round
//! decisions fire exactly once, unattempted deciphers go unpunished,
//! views never leak the other team's live guesses, team affiliation is
//! permanent, encryptor rotation is cyclic, and duplicate submissions
//! bounce without effect.

use vstd::prelude::*;
use vstd::arithmetic::div_mod::lemma_add_mod_noop;
use vstd::arithmetic::div_mod::lemma_small_mod;

use crate::code::Code;
use crate::game::GameInfo;
use crate::game::GamePlayerInfo;
use crate::game::RoundOutcome;
use crate::game::rotation_index;
use crate::game::spec_outcome;
use crate::game::spec_rotated_encryptor;
use crate::id::UserId;
use crate::message::CurrentRoundPerTeam;
use crate::round::RoundPerTeam;
use crate::round::spec_score_for;
use crate::settings::GameSettings;
use crate::team::PerTeam;
use crate::team::Team;
use crate::view::current_view_ok;
use crate::view::opt_code_like;

verus! {

/// Once a round is complete, exactly one of the three decisions fires:
/// the game continues, the tiebreaker starts, or one team wins — never
/// none of them and never two at once. `next_round_if_ready` puts the
/// game into exactly the state this decision names.
pub proof fn lemma_round_decision_exclusive(
    rounds: Seq<PerTeam<RoundPerTeam>>,
    s: GameSettings,
)
    ensures
        ({
            let o = spec_outcome(rounds, s);
            &&& o is Continue || o is Tiebreaker || o is Win
            &&& !(o is Continue && o is Tiebreaker)
            &&& !(o is Continue && o is Win)
            &&& !(o is Tiebreaker && o is Win)
        }),
{
}

/// A team that never attempted a decipher is not penalized: its score
/// marks the decipher correct whenever no attempt was stored.
pub proof fn lemma_unattempted_decipher_not_penalized(round: PerTeam<RoundPerTeam>, t: Team)
    requires
        round.spec_get(t).decipher is None,
    ensures
        spec_score_for(round, t).decipher == true,
{
}

/// View privacy: whatever the current round holds, a viewer on one team
/// never observes the other team's live decipher or intercept attempts;
/// their slots in the view are always empty.
pub proof fn lemma_view_privacy(
    v: PerTeam<CurrentRoundPerTeam>,
    round: PerTeam<RoundPerTeam>,
    viewer_team: Team,
    other: Team,
)
    requires
        current_view_ok(v, round, viewer_team),
        other != viewer_team,
    ensures
        v.spec_get(other).decipher is None,
        v.spec_get(other).intercept is None,
{
    assert(opt_code_like(v.spec_get(other).decipher, None::<Code>));
    assert(opt_code_like(v.spec_get(other).intercept, None::<Code>));
}

/// What an in-game kick does to a membership state: the player departs,
/// keeping their recorded team.
pub open spec fn kick_transition(m: GamePlayerInfo) -> GamePlayerInfo {
    GamePlayerInfo::LeftGame(m.spec_team_of())
}

/// What an in-game rejoin does to a membership state: a departed player
/// with a recorded team returns to exactly that team; anyone else is
/// left as they are, the rejoin being refused.
pub open spec fn rejoin_transition(m: GamePlayerInfo) -> GamePlayerInfo {
    match m {
        GamePlayerInfo::LeftGame(Some(t)) => GamePlayerInfo::InTeam(t),
        _ => m,
    }
}

/// The membership state after a sequence of in-game kicks (true) and
/// rejoins (false).
pub open spec fn apply_membership_ops(m: GamePlayerInfo, ops: Seq<bool>) -> GamePlayerInfo
    decreases ops.len(),
{
    if ops.len() == 0 {
        m
    } else {
        apply_membership_ops(
            if ops[0] {
                kick_transition(m)
            } else {
                rejoin_transition(m)
            },
            ops.drop_first(),
        )
    }
}

/// Membership permanence: once a player is on team `x`, no sequence of
/// kicks and rejoins ever puts them on another team — every reachable
/// state is either on team `x` or departed with team `x` recorded.
pub proof fn lemma_membership_permanence(x: Team, ops: Seq<bool>)
    ensures
        ({
            let m = apply_membership_ops(GamePlayerInfo::InTeam(x), ops);
            m == GamePlayerInfo::InTeam(x) || m == GamePlayerInfo::LeftGame(Some(x))
        }),
{
    lemma_membership_ops_closed(GamePlayerInfo::InTeam(x), x, ops);
}

/// The two membership states tied to team `x` are closed under kicks
/// and rejoins.
pub proof fn lemma_membership_ops_closed(m: GamePlayerInfo, x: Team, ops: Seq<bool>)
    requires
        m == GamePlayerInfo::InTeam(x) || m == GamePlayerInfo::LeftGame(Some(x)),
    ensures
        ({
            let m2 = apply_membership_ops(m, ops);
            m2 == GamePlayerInfo::InTeam(x) || m2 == GamePlayerInfo::LeftGame(Some(x))
        }),
    decreases ops.len(),
{
    if ops.len() > 0 {
        let m1 = if ops[0] {
            kick_transition(m)
        } else {
            rejoin_transition(m)
        };
        lemma_membership_ops_closed(m1, x, ops.drop_first());
    }
}

/// The encryptor index after `n` rounds of rotation through a team of
/// `k` players, starting at index `i`.
pub open spec fn iterate_rotation(i: nat, n: nat, k: nat) -> nat
    decreases n,
{
    if k == 0 || n == 0 {
        i
    } else {
        iterate_rotation((((i + 1) as int % k as int) as nat), (n - 1) as nat, k)
    }
}

/// Encryptor rotation is a cyclic permutation over the team's stable
/// player order: after `n` rounds with `k` players, the encryptor index
/// has advanced by exactly `n` modulo `k`.
pub proof fn lemma_rotation_advances(i: nat, n: nat, k: nat)
    requires
        k > 0,
        i < k,
    ensures
        iterate_rotation(i, n, k) == (i + n) as int % k as int,
    decreases n,
{
    if n == 0 {
        lemma_small_mod(i, k);
    } else {
        vstd::arithmetic::div_mod::lemma_mod_bound((i + 1) as int, k as int);
        let i1 = ((i + 1) as int % k as int) as nat;
        lemma_rotation_advances(i1, (n - 1) as nat, k);
        lemma_add_mod_noop((i + 1) as int, (n - 1) as int, k as int);
        lemma_add_mod_noop(i1 as int, (n - 1) as int, k as int);
        lemma_small_mod(i1, k);
        assert((i1 as int + (n - 1) as int) % k as int == (i + n) as int % k as int);
    }
}

/// One rotation step from a known position: the next encryptor is the
/// cyclic successor on the affiliation list.
pub proof fn lemma_rotation_step(aff: Seq<UserId>, i: int)
    requires
        0 <= i < aff.len(),
        forall|p: int, q: int| 0 <= p < q < aff.len() ==> aff[p] != aff[q],
    ensures
        spec_rotated_encryptor(aff, aff[i]) == aff[(i + 1) % (aff.len() as int)],
{
    let j = rotation_index(aff, aff[i]);
    assert(0 <= j < aff.len() && aff[j] == aff[i]);
    if i != j {
        assert(aff[i] != aff[j]);
    }
}

/// Duplicate submissions are rejected: once a team's clues are in,
/// another clue submission can never be accepted, whoever sends it.
pub proof fn lemma_duplicate_clues_rejected(g: GameInfo, u: UserId, team: Team, n: int)
    requires
        g.spec_current_normal_round() matches Some(round) && round.spec_get(team).clues is Some,
    ensures
        !g.spec_can_submit_clues(u, team, n),
{
}

/// Duplicate submissions are rejected: once a team's decipher is in,
/// another decipher submission can never be accepted.
pub proof fn lemma_duplicate_decipher_rejected(g: GameInfo, u: UserId, team: Team, n: int)
    requires
        g.spec_current_normal_round() matches Some(round) && round.spec_get(team).decipher
            is Some,
    ensures
        !g.spec_can_submit_decipher(u, team, n),
{
}

/// Duplicate submissions are rejected: once a team's intercept is in,
/// another intercept submission can never be accepted.
pub proof fn lemma_duplicate_intercept_rejected(g: GameInfo, u: UserId, team: Team, n: int)
    requires
        g.spec_current_normal_round() matches Some(round) && round.spec_get(team).intercept
            is Some,
    ensures
        !g.spec_can_submit_intercept(u, team, n),
{
}

} // verus!
