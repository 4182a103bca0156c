//! Pure round logic: per-team round records, readiness predicates,
//! scoring a completed round, and aggregating scores across rounds.

use vstd::prelude::*;

use crate::code::Code;
use crate::id::UserId;
use crate::message::Clue;
use crate::message::DeadlineReason;
use crate::team::PerTeam;
use crate::team::Team;

verus! {

/// The timeouts a team has incurred in one round: at most one for the
/// encrypt phase and one for the guess phase, each with its reason.
#[derive(Debug, Clone, Copy, Default)]
pub struct TimedOut {
    pub encrypt: Option<DeadlineReason>,
    pub guess: Option<DeadlineReason>,
}

impl TimedOut {
    /// Records the next pending timeout: the encrypt slot if still free,
    /// else the guess slot. Both slots being taken already would be an
    /// internal invariant violation, so that case is excluded.
    pub fn set_next(&mut self, reason: DeadlineReason)
        requires
            old(self).encrypt is None || old(self).guess is None,
        ensures
            old(self).encrypt is None ==> *final(self) == (TimedOut {
                encrypt: Some(reason),
                ..*old(self)
            }),
            old(self).encrypt is Some ==> *final(self) == (TimedOut {
                guess: Some(reason),
                ..*old(self)
            }),
    {
        if self.encrypt.is_none() {
            self.encrypt = Some(reason);
        } else {
            self.guess = Some(reason);
        }
    }
}

/// One team's record within one round.
#[derive(Debug, Clone)]
pub struct RoundPerTeam {
    /// The team member who gives the clues this round.
    pub encryptor: UserId,
    /// This team's secret code.
    pub code: Code,
    /// `None` if the team ran out of time, or has not given clues yet.
    pub clues: Option<Vec<Clue>>,
    /// This team's guess at its own code. `None` if the team ran out of
    /// time, or has not guessed yet.
    pub decipher: Option<Code>,
    /// This team's guess at the other team's code. `None` if the team
    /// ran out of time, or has not intercepted yet.
    pub intercept: Option<Code>,
    pub timed_out: TimedOut,
}

/// One team's record within a tiebreaker round.
#[derive(Debug, Clone)]
pub struct TiebreakerRoundPerTeam {
    /// One guess slot per opposing keyword, in the opposing list's
    /// order. `None` while the slot has not been filled.
    pub guesses: Vec<Option<String>>,
    pub timed_out: Option<DeadlineReason>,
}

/// The outcome of one round for one team.
#[derive(Debug, Clone, Copy, PartialEq, Eq)]
pub struct RoundResult {
    /// `None` - didn't attempt to intercept.
    /// `Some(true)` - intercepted successfully.
    /// `Some(false)` - interception failed.
    pub intercept: Option<bool>,
    /// Whether the decipher attempt was correct. A team that never
    /// attempted a decipher is not penalized, so this is `true` then.
    pub decipher: bool,
}

/// A team is encrypt-done once clues are in or the encrypt phase timed
/// out.
pub open spec fn encrypt_done(r: RoundPerTeam) -> bool {
    r.clues is Some || r.timed_out.encrypt is Some
}

/// A team is guess-done once its decipher is in together with its
/// intercept (the intercept is not owed in the first round), or the
/// guess phase timed out.
pub open spec fn guess_done(r: RoundPerTeam, first_round: bool) -> bool {
    (r.decipher is Some && (r.intercept is Some || first_round)) || r.timed_out.guess is Some
}

/// The round is ready to advance when both teams are simultaneously
/// encrypt-done and guess-done.
pub open spec fn round_ready(round: PerTeam<RoundPerTeam>, first_round: bool) -> bool {
    &&& encrypt_done(round.white) && guess_done(round.white, first_round)
    &&& encrypt_done(round.black) && guess_done(round.black, first_round)
}

/// The score one team earns in a completed round.
pub open spec fn spec_score_for(round: PerTeam<RoundPerTeam>, t: Team) -> RoundResult {
    RoundResult {
        intercept: match round.spec_get(t).intercept {
            Some(attempt) => Some(attempt@ == round.spec_get(t.spec_other()).code@),
            None => None,
        },
        decipher: match round.spec_get(t).decipher {
            Some(attempt) => attempt@ == round.spec_get(t).code@,
            None => true,
        },
    }
}

/// Both teams' scores for a completed round.
pub open spec fn spec_score(round: PerTeam<RoundPerTeam>) -> PerTeam<RoundResult> {
    PerTeam { white: spec_score_for(round, Team(false)), black: spec_score_for(round, Team(true)) }
}

impl PerTeam<RoundPerTeam> {
    /// Scores this round: a decipher is correct when it equals the
    /// team's own code, and is not penalized when never attempted; an
    /// intercept is judged against the other team's code, and only when
    /// attempted.
    pub fn score(&self) -> (r: PerTeam<RoundResult>)
        ensures
            r == spec_score(*self),
    {
        let white = self.score_for(Team(false));
        let black = self.score_for(Team(true));
        PerTeam { white, black }
    }

    fn score_for(&self, t: Team) -> (r: RoundResult)
        ensures
            r == spec_score_for(*self, t),
    {
        let own = self.get(t);
        let decipher = match &own.decipher {
            Some(attempt) => *attempt == own.code,
            None => true,
        };
        let intercept = match &own.intercept {
            Some(attempt) => Some(*attempt == self.get(t.other()).code),
            None => None,
        };
        RoundResult { intercept, decipher }
    }
}

/// A team's running score across completed rounds.
#[derive(Debug, Clone, Copy, PartialEq, Eq, Structural)]
pub struct AggregateScore {
    /// Rounds in which the team's decipher attempt was wrong.
    pub miscommunications: usize,
    /// Rounds in which the team intercepted successfully.
    pub intercepts: usize,
}

impl AggregateScore {
    /// The team's total: intercepts minus miscommunications.
    pub fn total(&self) -> (r: i128)
        ensures
            r == self.intercepts - self.miscommunications,
    {
        self.intercepts as i128 - self.miscommunications as i128
    }
}

/// How many of the given rounds the team failed to decipher.
pub open spec fn spec_misc_count(rounds: Seq<PerTeam<RoundPerTeam>>, t: Team) -> nat
    decreases rounds.len(),
{
    if rounds.len() == 0 {
        0
    } else {
        spec_misc_count(rounds.drop_last(), t) + (if !spec_score_for(rounds.last(), t).decipher {
            1nat
        } else {
            0nat
        })
    }
}

/// How many of the given rounds the team intercepted successfully.
pub open spec fn spec_intercept_count(rounds: Seq<PerTeam<RoundPerTeam>>, t: Team) -> nat
    decreases rounds.len(),
{
    if rounds.len() == 0 {
        0
    } else {
        spec_intercept_count(rounds.drop_last(), t) + (if spec_score_for(rounds.last(), t).intercept
            == Some(true) {
            1nat
        } else {
            0nat
        })
    }
}

/// Both counts of either team never exceed the number of rounds.
pub proof fn lemma_counts_bounded(rounds: Seq<PerTeam<RoundPerTeam>>, t: Team)
    ensures
        spec_misc_count(rounds, t) <= rounds.len(),
        spec_intercept_count(rounds, t) <= rounds.len(),
    decreases rounds.len(),
{
    if rounds.len() > 0 {
        lemma_counts_bounded(rounds.drop_last(), t);
    }
}

/// The aggregate both teams have earned over the given completed
/// rounds: the running sums of failed deciphers and of successful
/// intercepts.
pub fn aggregate_scores(rounds: &Vec<PerTeam<RoundPerTeam>>) -> (r: PerTeam<AggregateScore>)
    ensures
        r.white.miscommunications == spec_misc_count(rounds@, Team(false)),
        r.white.intercepts == spec_intercept_count(rounds@, Team(false)),
        r.black.miscommunications == spec_misc_count(rounds@, Team(true)),
        r.black.intercepts == spec_intercept_count(rounds@, Team(true)),
{
    let mut acc = PerTeam {
        white: AggregateScore { miscommunications: 0, intercepts: 0 },
        black: AggregateScore { miscommunications: 0, intercepts: 0 },
    };
    let n = rounds.len();
    let mut i: usize = 0;
    while i < n
        invariant
            n == rounds@.len(),
            i <= n,
            acc.white.miscommunications == spec_misc_count(rounds@.take(i as int), Team(false)),
            acc.white.intercepts == spec_intercept_count(rounds@.take(i as int), Team(false)),
            acc.black.miscommunications == spec_misc_count(rounds@.take(i as int), Team(true)),
            acc.black.intercepts == spec_intercept_count(rounds@.take(i as int), Team(true)),
        decreases n - i,
    {
        proof {
            lemma_counts_bounded(rounds@.take(i as int), Team(false));
            lemma_counts_bounded(rounds@.take(i as int), Team(true));
            assert(rounds@.take(i + 1).drop_last() =~= rounds@.take(i as int));
            assert(rounds@.take(i + 1).last() == rounds@[i as int]);
        }
        let score = rounds[i].score();
        if !score.white.decipher {
            acc.white.miscommunications += 1;
        }
        if let Some(true) = score.white.intercept {
            acc.white.intercepts += 1;
        }
        if !score.black.decipher {
            acc.black.miscommunications += 1;
        }
        if let Some(true) = score.black.intercept {
            acc.black.intercepts += 1;
        }
        i += 1;
    }
    proof {
        assert(rounds@.take(n as int) =~= rounds@);
    }
    acc
}

} // verus!
