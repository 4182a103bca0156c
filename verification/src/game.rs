//! The session state machine: one game's roster, team assignment,
//! round progression, deadlines, and chat log.

use vstd::prelude::*;

use crate::code::Code;
use crate::code::code_wf;
use crate::message::ChatMessage;
use crate::message::Clue;
use crate::message::Deadline;
use crate::message::DeadlineReason;
use crate::id::DrawingId;
use crate::id::UserId;
use crate::round::RoundPerTeam;
use crate::round::RoundResult;
use crate::round::aggregate_scores;
use crate::round::round_ready;
use crate::round::spec_intercept_count;
use crate::round::spec_misc_count;
use crate::round::spec_score;
use crate::round::TiebreakerRoundPerTeam;
use crate::round::TimedOut;
use crate::settings::GameSettings;
use crate::settings::Wordlist;
use crate::settings::is_word_of;
use crate::settings::spec_settings_valid;
use crate::settings::spec_validate_error;
use crate::team::PerTeam;
use crate::textutil::tb_guess_matches;
use crate::team::Team;
use crate::randomness::rand_index;

verus! {

/// Global game state marker.
pub struct GameState {}

/// A user's membership state within one session. A user transitions
/// `NotInTeam -> InTeam -> LeftGame(Some(team))` or
/// `NotInTeam -> LeftGame(None)`; team affiliation, once assigned, is
/// permanent for the life of the session.
#[derive(Debug, Clone, Copy, PartialEq, Eq)]
pub enum GamePlayerInfo {
    /// Recently joined and not in a team yet.
    NotInTeam,
    /// Player is in a team.
    InTeam(Team),
    /// Player left the game, or was kicked from it. They can rejoin
    /// later, in which case the team stays the same; this prevents a
    /// kicked player from rejoining with a different team. A player
    /// kicked while still in the lobby has `LeftGame(None)`, as no team
    /// was recorded yet.
    LeftGame(Option<Team>),
}

impl Default for GamePlayerInfo {
    fn default() -> (r: GamePlayerInfo)
        ensures
            r == GamePlayerInfo::NotInTeam,
    {
        GamePlayerInfo::NotInTeam
    }
}

impl GamePlayerInfo {
    /// The team whose private information this player may access: their
    /// current team, or the team they left.
    pub open spec fn spec_team_of(self) -> Option<Team> {
        match self {
            GamePlayerInfo::NotInTeam => None,
            GamePlayerInfo::InTeam(t) => Some(t),
            GamePlayerInfo::LeftGame(t) => t,
        }
    }

    /// Returns the team of the player, if one was ever assigned.
    pub fn access_to_info(&self) -> (r: Option<Team>)
        ensures
            r == self.spec_team_of(),
    {
        match self {
            GamePlayerInfo::NotInTeam => None,
            GamePlayerInfo::InTeam(t) => Some(*t),
            GamePlayerInfo::LeftGame(t) => *t,
        }
    }
}

/// The round currently being played.
#[derive(Debug, Clone)]
pub enum GameInfoStateCurrentRound {
    Normal(PerTeam<RoundPerTeam>),
    Tiebreaker(PerTeam<TiebreakerRoundPerTeam>),
}

/// State-specific information about the game.
#[derive(Debug, Clone)]
pub enum GameInfoState {
    /// Players are still gathering and picking teams.
    Lobby,
    /// The game has started.
    InGame {
        keywords: PerTeam<Vec<String>>,
        completed_rounds: Vec<PerTeam<RoundPerTeam>>,
        current_round: GameInfoStateCurrentRound,
        deadlines: PerTeam<Option<Deadline>>,
    },
    /// The game is over; results are available.
    GameOver {
        winner: Option<Team>,
        keywords: PerTeam<Vec<String>>,
        completed_rounds: Vec<PerTeam<RoundPerTeam>>,
        tiebreaker: Option<PerTeam<TiebreakerRoundPerTeam>>,
    },
}

impl Default for GameInfoState {
    fn default() -> (r: GameInfoState)
        ensures
            r == GameInfoState::Lobby,
    {
        GameInfoState::Lobby
    }
}

/// The keys of a roster are pairwise distinct.
pub open spec fn unique_keys(s: Seq<(UserId, GamePlayerInfo)>) -> bool {
    forall|i: int, j: int| 0 <= i < j < s.len() ==> (#[trigger] s[i]).0 != (#[trigger] s[j]).0
}

/// The roster holds an entry for this user.
pub open spec fn roster_has(s: Seq<(UserId, GamePlayerInfo)>, u: UserId) -> bool {
    exists|i: int| 0 <= i < s.len() && (#[trigger] s[i]).0 == u
}

/// The roster index of this user's entry.
pub open spec fn roster_index(s: Seq<(UserId, GamePlayerInfo)>, u: UserId) -> int {
    choose|i: int| 0 <= i < s.len() && (#[trigger] s[i]).0 == u
}

/// The membership state recorded for this user.
pub open spec fn roster_info(s: Seq<(UserId, GamePlayerInfo)>, u: UserId) -> GamePlayerInfo {
    s[roster_index(s, u)].1
}

/// In a roster with unique keys, an entry with the right key sits at
/// the user's roster index.
pub proof fn lemma_roster_index_unique(s: Seq<(UserId, GamePlayerInfo)>, u: UserId, i: int)
    requires
        unique_keys(s),
        0 <= i < s.len(),
        s[i].0 == u,
    ensures
        roster_index(s, u) == i,
        roster_info(s, u) == s[i].1,
{
    assert(roster_has(s, u));
    let j = roster_index(s, u);
    assert(0 <= j < s.len() && s[j].0 == u);
    if i != j {
        assert(s[i].0 != s[j].0);
    }
}

/// The users currently playing for the team, in roster order.
pub open spec fn team_members(s: Seq<(UserId, GamePlayerInfo)>, t: Team) -> Seq<UserId>
    decreases s.len(),
{
    if s.len() == 0 {
        Seq::empty()
    } else {
        team_members(s.drop_last(), t) + (if s.last().1 == GamePlayerInfo::InTeam(t) {
            seq![s.last().0]
        } else {
            Seq::empty()
        })
    }
}

/// The users ever assigned to the team, current or departed, in roster
/// order. This list never changes while a game is running, so it is
/// the stable order that encryptor rotation follows.
pub open spec fn affiliated(s: Seq<(UserId, GamePlayerInfo)>, t: Team) -> Seq<UserId>
    decreases s.len(),
{
    if s.len() == 0 {
        Seq::empty()
    } else {
        affiliated(s.drop_last(), t) + (if s.last().1.spec_team_of() == Some(t) {
            seq![s.last().0]
        } else {
            Seq::empty()
        })
    }
}

/// Every current team member is affiliated with the team.
pub proof fn lemma_members_affiliated(s: Seq<(UserId, GamePlayerInfo)>, t: Team)
    ensures
        forall|u: UserId| team_members(s, t).contains(u) ==> affiliated(s, t).contains(u),
    decreases s.len(),
{
    if s.len() > 0 {
        lemma_members_affiliated(s.drop_last(), t);
        assert forall|u: UserId| team_members(s, t).contains(u) implies affiliated(
            s,
            t,
        ).contains(u) by {
            let m = team_members(s, t);
            let md = team_members(s.drop_last(), t);
            let i = choose|i: int| 0 <= i < m.len() && m[i] == u;
            if i < md.len() {
                assert(md.contains(u));
                let a = affiliated(s.drop_last(), t);
                let j = choose|j: int| 0 <= j < a.len() && a[j] == u;
                assert(affiliated(s, t)[j] == u);
            } else {
                assert(s.last().1 == GamePlayerInfo::InTeam(t));
                assert(u == s.last().0);
                let a = affiliated(s, t);
                assert(a.last() == u);
            }
        }
    }
}

/// Two membership states that grant access to the same team contribute
/// alike to the affiliation list, so updating one to the other keeps
/// the list unchanged.
pub proof fn lemma_affiliated_update(
    s: Seq<(UserId, GamePlayerInfo)>,
    i: int,
    v: GamePlayerInfo,
    t: Team,
)
    requires
        0 <= i < s.len(),
        v.spec_team_of() == s[i].1.spec_team_of(),
    ensures
        affiliated(s.update(i, (s[i].0, v)), t) == affiliated(s, t),
    decreases s.len(),
{
    let s2 = s.update(i, (s[i].0, v));
    if i == s.len() - 1 {
        assert(s2.drop_last() =~= s.drop_last());
        assert(s2.last().1.spec_team_of() == s.last().1.spec_team_of());
        assert(s2.last().0 == s.last().0);
    } else {
        assert(s2.drop_last() =~= s.drop_last().update(i, (s[i].0, v)));
        assert(s.drop_last()[i] == s[i]);
        lemma_affiliated_update(s.drop_last(), i, v, t);
        assert(s2.last() == s.last());
    }
}

/// Appending a player who never belonged to a team keeps every
/// affiliation list unchanged.
pub proof fn lemma_affiliated_push_neutral(
    s: Seq<(UserId, GamePlayerInfo)>,
    u: UserId,
    v: GamePlayerInfo,
    t: Team,
)
    requires
        v.spec_team_of() != Some(t),
    ensures
        affiliated(s.push((u, v)), t) == affiliated(s, t),
{
    assert(s.push((u, v)).drop_last() =~= s);
    assert(affiliated(s.push((u, v)), t) =~= affiliated(s, t));
}

/// One game instance.
#[derive(Debug, Clone)]
pub struct GameInfo {
    /// Settings for the game.
    pub settings: GameSettings,
    pub global_chat: Vec<ChatMessage>,
    /// All players that have ever been in this game.
    pub players: Vec<(UserId, GamePlayerInfo)>,
    /// Drawings in this game lobby, in png format.
    pub drawings: Vec<(DrawingId, Vec<u8>)>,
    /// State of the game.
    pub state: GameInfoState,
}

/// The numeric settings bounds that every live game keeps: the bounds
/// the validator demands, and a machine cap so that the keyword count
/// can be doubled without overflow.
pub open spec fn settings_sane(s: GameSettings) -> bool {
    &&& s.keyword_count >= 4
    &&& 2 <= s.clue_count <= s.keyword_count
    &&& s.keyword_count <= 0x1000_0000
}

impl GameInfo {
    /// The roster, as specifications see it.
    pub open spec fn players_seq(self) -> Seq<(UserId, GamePlayerInfo)> {
        self.players@
    }

    /// The roster holds an entry for this user (members, team-less
    /// joiners and departed players alike).
    pub open spec fn spec_has_player(self, u: UserId) -> bool {
        roster_has(self.players_seq(), u)
    }

    /// This user's recorded membership state.
    pub open spec fn spec_player_info(self, u: UserId) -> GamePlayerInfo {
        roster_info(self.players_seq(), u)
    }

    /// The structural invariant of a game: roster keys unique, numeric
    /// settings sane, keyword lists of the configured size, tiebreaker
    /// guess lists of the configured size, and each running round's
    /// encryptor drawn from his team's stable affiliation list.
    pub open spec fn wf(self) -> bool {
        &&& unique_keys(self.players_seq())
        &&& settings_sane(self.settings)
        &&& match self.state {
            GameInfoState::Lobby => true,
            GameInfoState::InGame { keywords, completed_rounds, current_round, deadlines } => {
                &&& keywords.white@.len() == self.settings.keyword_count
                &&& keywords.black@.len() == self.settings.keyword_count
                &&& match current_round {
                    GameInfoStateCurrentRound::Normal(round) => {
                        &&& affiliated(self.players_seq(), Team(false)).contains(
                            round.white.encryptor,
                        )
                        &&& affiliated(self.players_seq(), Team(true)).contains(
                            round.black.encryptor,
                        )
                    },
                    GameInfoStateCurrentRound::Tiebreaker(tb) => {
                        &&& tb.white.guesses@.len() == self.settings.keyword_count
                        &&& tb.black.guesses@.len() == self.settings.keyword_count
                    },
                }
            },
            GameInfoState::GameOver { .. } => true,
        }
    }
}

impl Default for GameInfo {
    /// A fresh lobby with default settings and an empty roster.
    fn default() -> (r: GameInfo)
        ensures
            r.wf(),
            r.players_seq() =~= Seq::<(UserId, GamePlayerInfo)>::empty(),
            r.global_chat@ =~= Seq::<ChatMessage>::empty(),
            r.drawings@ =~= Seq::<(DrawingId, Vec<u8>)>::empty(),
            r.state == GameInfoState::Lobby,
            r.settings.round_limit == Some(8usize),
            r.settings.keyword_count == 4usize,
            r.settings.clue_count == 3usize,
            r.settings.wordlist@ == "original"@,
            r.settings.miscommunication_limit == 2usize,
            r.settings.intercept_limit == 2usize,
    {
        GameInfo {
            settings: GameSettings::default(),
            global_chat: Vec::new(),
            players: Vec::new(),
            drawings: Vec::new(),
            state: GameInfoState::Lobby,
        }
    }
}

impl GameInfo {
    /// Adds a newly joined user to the roster, not yet in a team. The
    /// guard against adding a user twice is the caller's
    /// responsibility.
    pub fn add_player(&mut self, user_id: UserId)
        requires
            old(self).wf(),
            !old(self).spec_has_player(user_id),
        ensures
            final(self).wf(),
            final(self).players_seq() == old(self).players_seq().push(
                (user_id, GamePlayerInfo::NotInTeam),
            ),
            final(self).settings == old(self).settings,
            final(self).global_chat == old(self).global_chat,
            final(self).drawings == old(self).drawings,
            final(self).state == old(self).state,
    {
        proof {
            lemma_affiliated_push_neutral(
                self.players_seq(),
                user_id,
                GamePlayerInfo::NotInTeam,
                Team(false),
            );
            lemma_affiliated_push_neutral(
                self.players_seq(),
                user_id,
                GamePlayerInfo::NotInTeam,
                Team(true),
            );
        }
        self.players.push((user_id, GamePlayerInfo::NotInTeam));
    }

    /// Overwrites a present user's membership state. While a game is
    /// running, only changes that keep the user's team affiliation are
    /// allowed, so the stable rotation order survives.
    pub fn assign_player(&mut self, user_id: UserId, info: GamePlayerInfo)
        requires
            old(self).wf(),
            old(self).spec_has_player(user_id),
            (old(self).state matches GameInfoState::InGame { .. }) ==> info.spec_team_of() == old(
                self,
            ).spec_player_info(user_id).spec_team_of(),
        ensures
            final(self).wf(),
            final(self).players_seq() == old(self).players_seq().update(
                roster_index(old(self).players_seq(), user_id),
                (user_id, info),
            ),
            final(self).spec_has_player(user_id),
            final(self).spec_player_info(user_id) == info,
            forall|u: UserId|
                #![trigger final(self).spec_has_player(u)]
                #![trigger final(self).spec_player_info(u)]
                u != user_id ==> (final(self).spec_has_player(u) == old(self).spec_has_player(u)
                    && (old(self).spec_has_player(u) ==> final(self).spec_player_info(u) == old(
                    self,
                ).spec_player_info(u))),
            final(self).settings == old(self).settings,
            final(self).global_chat == old(self).global_chat,
            final(self).drawings == old(self).drawings,
            final(self).state == old(self).state,
    {
        let ghost s0 = self.players_seq();
        let n = self.players.len();
        let mut i: usize = 0;
        while i < n
            invariant
                i <= n,
                n == self.players@.len(),
                self == old(self),
                old(self).wf(),
                s0 == old(self).players_seq(),
                exists|k: int| i <= k < n && (#[trigger] self.players@[k]).0 == user_id,
                (old(self).state matches GameInfoState::InGame { .. }) ==> info.spec_team_of()
                    == old(self).spec_player_info(user_id).spec_team_of(),
            decreases n - i,
        {
            if self.players[i].0 == user_id {
                proof {
                    lemma_roster_index_unique(self.players@, user_id, i as int);
                    if self.state matches GameInfoState::InGame { .. } {
                        lemma_affiliated_update(self.players@, i as int, info, Team(false));
                        lemma_affiliated_update(self.players@, i as int, info, Team(true));
                    }
                }
                self.players.set(i, (user_id, info));
                proof {
                    assert(forall|k: int|
                        0 <= k < self.players@.len() ==> (#[trigger] self.players@[k]).0
                            == s0[k].0);
                    lemma_roster_index_unique(self.players@, user_id, i as int);
                    assert forall|u: UserId| u != user_id implies #[trigger] roster_has(
                        self.players@,
                        u,
                    ) == roster_has(s0, u) && (roster_has(s0, u) ==> roster_info(self.players@, u)
                        == roster_info(s0, u)) by {
                        if roster_has(s0, u) {
                            let k = roster_index(s0, u);
                            assert(self.players@[k].0 == u);
                            lemma_roster_index_unique(self.players@, u, k);
                        }
                        if roster_has(self.players@, u) {
                            let k = roster_index(self.players@, u);
                            assert(s0[k].0 == u);
                        }
                    }
                }
                return ;
            }
            i += 1;
        }
        proof {
            assert(false);
        }
    }

    /// Marks a present user as having left or been kicked, recording
    /// the team they had if the game is running. Also used when the
    /// player leaves the game themselves.
    pub fn kick_player(&mut self, user_id: UserId)
        requires
            old(self).wf(),
            old(self).spec_has_player(user_id),
        ensures
            final(self).wf(),
            final(self).spec_player_info(user_id) == GamePlayerInfo::LeftGame(
                if old(self).state is Lobby {
                    None
                } else {
                    old(self).spec_player_info(user_id).spec_team_of()
                },
            ),
            final(self).players_seq() == old(self).players_seq().update(
                roster_index(old(self).players_seq(), user_id),
                (user_id, final(self).spec_player_info(user_id)),
            ),
            forall|u: UserId|
                #![trigger final(self).spec_has_player(u)]
                #![trigger final(self).spec_player_info(u)]
                u != user_id ==> (final(self).spec_has_player(u) == old(self).spec_has_player(u)
                    && (old(self).spec_has_player(u) ==> final(self).spec_player_info(u) == old(
                    self,
                ).spec_player_info(u))),
            final(self).spec_has_player(user_id),
            final(self).settings == old(self).settings,
            final(self).global_chat == old(self).global_chat,
            final(self).drawings == old(self).drawings,
            final(self).state == old(self).state,
    {
        let in_lobby = match &self.state {
            GameInfoState::Lobby => true,
            _ => false,
        };
        let old_team = if in_lobby {
            None
        } else {
            self.player_info(user_id).unwrap().access_to_info()
        };
        self.assign_player(user_id, GamePlayerInfo::LeftGame(old_team));
        proof {
            assert forall|u: UserId|
                #![trigger self.spec_has_player(u)]
                #![trigger self.spec_player_info(u)]
                u != user_id implies (self.spec_has_player(u) == old(self).spec_has_player(u) && (
            old(self).spec_has_player(u) ==> self.spec_player_info(u) == old(
                self,
            ).spec_player_info(u))) by {
                let s0 = old(self).players_seq();
                let s1 = self.players_seq();
                if roster_has(s0, u) {
                    let k = roster_index(s0, u);
                    assert(s0[k].0 == u);
                    assert(s1[k].0 == u);
                    lemma_roster_index_unique(s1, u, k);
                }
                if roster_has(s1, u) {
                    let k = roster_index(s1, u);
                    assert(s0[k].0 == u);
                }
                assert(self.spec_has_player(u) == old(self).spec_has_player(u));
                assert(old(self).spec_has_player(u) ==> self.spec_player_info(u) == old(
                    self,
                ).spec_player_info(u));
            }
        }
    }

    /// This user's membership entry, if the roster has one.
    pub fn player_info(&self, user_id: UserId) -> (r: Option<GamePlayerInfo>)
        requires
            self.wf(),
        ensures
            r is Some <==> self.spec_has_player(user_id),
            r matches Some(info) ==> info == self.spec_player_info(user_id),
    {
        let n = self.players.len();
        let mut i: usize = 0;
        while i < n
            invariant
                i <= n,
                n == self.players@.len(),
                self.wf(),
                forall|k: int| 0 <= k < i ==> (#[trigger] self.players@[k]).0 != user_id,
            decreases n - i,
        {
            if self.players[i].0 == user_id {
                proof {
                    lemma_roster_index_unique(self.players@, user_id, i as int);
                }
                return Some(self.players[i].1);
            }
            i += 1;
        }
        None
    }

    /// The full roster, every user ever in this game with their
    /// membership state, in join order.
    pub fn players(&self) -> (r: &Vec<(UserId, GamePlayerInfo)>)
        ensures
            r@ == self.players_seq(),
    {
        &self.players
    }

    /// The team this user currently may see private information of.
    pub fn team_for_user(&self, user_id: UserId) -> (r: Option<Team>)
        requires
            self.wf(),
        ensures
            r == (if self.spec_has_player(user_id) {
                self.spec_player_info(user_id).spec_team_of()
            } else {
                None::<Team>
            }),
    {
        match self.player_info(user_id) {
            Some(info) => info.access_to_info(),
            None => None,
        }
    }

    /// The users currently playing for the team, in roster order.
    pub fn players_in_team(&self, team: Team) -> (r: Vec<UserId>)
        ensures
            r@ == team_members(self.players_seq(), team),
    {
        let n = self.players.len();
        let mut r: Vec<UserId> = Vec::new();
        let mut i: usize = 0;
        while i < n
            invariant
                i <= n,
                n == self.players@.len(),
                r@ == team_members(self.players@.take(i as int), team),
            decreases n - i,
        {
            proof {
                assert(self.players@.take(i + 1).drop_last() =~= self.players@.take(i as int));
                assert(self.players@.take(i + 1).last() == self.players@[i as int]);
            }
            let keep = match self.players[i].1 {
                GamePlayerInfo::InTeam(t) => t.0 == team.0,
                _ => false,
            };
            if keep {
                r.push(self.players[i].0);
            }
            i += 1;
        }
        proof {
            assert(self.players@.take(n as int) =~= self.players@);
        }
        r
    }

    /// The users ever assigned to the team, in roster order: the
    /// stable order that encryptor rotation follows.
    pub fn affiliated_players(&self, team: Team) -> (r: Vec<UserId>)
        ensures
            r@ == affiliated(self.players_seq(), team),
    {
        let n = self.players.len();
        let mut r: Vec<UserId> = Vec::new();
        let mut i: usize = 0;
        while i < n
            invariant
                i <= n,
                n == self.players@.len(),
                r@ == affiliated(self.players@.take(i as int), team),
            decreases n - i,
        {
            proof {
                assert(self.players@.take(i + 1).drop_last() =~= self.players@.take(i as int));
                assert(self.players@.take(i + 1).last() == self.players@[i as int]);
            }
            let keep = match self.players[i].1.access_to_info() {
                Some(t) => t.0 == team.0,
                None => false,
            };
            if keep {
                r.push(self.players[i].0);
            }
            i += 1;
        }
        proof {
            assert(self.players@.take(n as int) =~= self.players@);
        }
        r
    }
}

/// A clock instant a duration later, clamped to the largest
/// representable instant.
pub open spec fn spec_deadline_sum(now: u64, dur: u64) -> u64 {
    if now + dur <= u64::MAX {
        (now + dur) as u64
    } else {
        u64::MAX
    }
}

fn deadline_sum(now: u64, dur: u64) -> (r: u64)
    ensures
        r == spec_deadline_sum(now, dur),
{
    if dur > u64::MAX - now {
        u64::MAX
    } else {
        now + dur
    }
}

/// The fixed-reason deadline a configured limit arms, if one is
/// configured.
pub open spec fn spec_fixed_deadline(limit: Option<u64>, now: u64) -> Option<Deadline> {
    match limit {
        Some(d) => Some(Deadline { at: spec_deadline_sum(now, d), reason: DeadlineReason::Fixed }),
        None => None,
    }
}

fn fixed_deadline(limit: Option<u64>, now: u64) -> (r: Option<Deadline>)
    ensures
        r == spec_fixed_deadline(limit, now),
{
    match limit {
        Some(d) => Some(Deadline { at: deadline_sum(now, d), reason: DeadlineReason::Fixed }),
        None => None,
    }
}

/// Some player has not picked a team yet.
pub open spec fn spec_any_not_in_team(s: Seq<(UserId, GamePlayerInfo)>) -> bool {
    exists|i: int| 0 <= i < s.len() && (#[trigger] s[i]).1 == GamePlayerInfo::NotInTeam
}

/// A freshly drawn pair of keyword sets: one set of the configured size
/// per team, all entries taken from the word source, with no duplicate
/// inside a set and nothing shared between the sets.
pub open spec fn keywords_drawn(kw: PerTeam<Vec<String>>, words: Seq<String>, kc: usize) -> bool {
    &&& kw.white@.len() == kc
    &&& kw.black@.len() == kc
    &&& forall|i: int| 0 <= i < kw.white@.len() ==> is_word_of(#[trigger] kw.white@[i], words)
    &&& forall|i: int| 0 <= i < kw.black@.len() ==> is_word_of(#[trigger] kw.black@[i], words)
    &&& forall|i: int, j: int| 0 <= i < j < kw.white@.len() ==> kw.white@[i]@ != kw.white@[j]@
    &&& forall|i: int, j: int| 0 <= i < j < kw.black@.len() ==> kw.black@[i]@ != kw.black@[j]@
    &&& forall|i: int, j: int|
        0 <= i < kw.white@.len() && 0 <= j < kw.black@.len() ==> kw.white@[i]@ != kw.black@[j]@
}

/// A per-team round record as a game start or a round advance creates
/// it: a well-formed fresh code, the given encryptor, and nothing
/// submitted or timed out yet.
pub open spec fn fresh_round_for(r: RoundPerTeam, encryptor: UserId, s: GameSettings) -> bool {
    &&& r.encryptor == encryptor
    &&& code_wf(r.code@, s.clue_count, s.keyword_count)
    &&& r.clues is None
    &&& r.decipher is None
    &&& r.intercept is None
    &&& r.timed_out.encrypt is None
    &&& r.timed_out.guess is None
}

impl GameInfo {
    /// All conditions under which the game can start, given the
    /// available word sources.
    pub open spec fn spec_startable(self, lists: Seq<Wordlist>) -> bool {
        &&& self.state is Lobby
        &&& !spec_any_not_in_team(self.players_seq())
        &&& team_members(self.players_seq(), Team(false)).len() >= 2
        &&& team_members(self.players_seq(), Team(true)).len() >= 2
        &&& spec_settings_valid(self.settings, lists)
    }

    /// The report for the first reason the game cannot start, in
    /// checking order.
    pub open spec fn spec_startable_error(self, lists: Seq<Wordlist>) -> Seq<char> {
        if !(self.state is Lobby) {
            "Only games in lobby can be started"@
        } else if spec_any_not_in_team(self.players_seq()) {
            "All players must join a team before starting the game"@
        } else if team_members(self.players_seq(), Team(false)).len() < 2 || team_members(
            self.players_seq(),
            Team(true),
        ).len() < 2 {
            "Each team must have at least 2 players"@
        } else {
            spec_validate_error(self.settings, lists)
        }
    }

    /// Whether the game can start: it must still be a lobby, every
    /// player must have picked a team, both teams need at least two
    /// players, and the settings must validate against the available
    /// word sources. Reports the first failing condition.
    pub fn startable(&self, lists: &Vec<Wordlist>) -> (r: Result<(), String>)
        requires
            self.wf(),
        ensures
            r is Ok <==> self.spec_startable(lists@),
            r matches Err(m) ==> m@ == self.spec_startable_error(lists@),
    {
        let in_lobby = match &self.state {
            GameInfoState::Lobby => true,
            _ => false,
        };
        if !in_lobby {
            return Err(String::from_str("Only games in lobby can be started"));
        }
        let n = self.players.len();
        let mut i: usize = 0;
        while i < n
            invariant
                i <= n,
                n == self.players@.len(),
                self.state is Lobby,
                forall|k: int|
                    0 <= k < i ==> (#[trigger] self.players@[k]).1 != GamePlayerInfo::NotInTeam,
            decreases n - i,
        {
            let not_in_team = match self.players[i].1 {
                GamePlayerInfo::NotInTeam => true,
                _ => false,
            };
            if not_in_team {
                return Err(
                    String::from_str("All players must join a team before starting the game"),
                );
            }
            i += 1;
        }
        if self.players_in_team(Team(false)).len() < 2 || self.players_in_team(Team(true)).len()
            < 2 {
            return Err(String::from_str("Each team must have at least 2 players"));
        }
        self.settings.validate(lists)
    }

    /// Starts the game: draws both teams' keyword sets from the given
    /// word source, picks a uniformly random encryptor in each team,
    /// generates a fresh code per team, and arms the fixed encrypt
    /// deadline if one is configured. The caller has checked
    /// `startable`; the word source passed in is the one the settings
    /// name.
    pub fn start(&mut self, words: &Vec<String>, now: u64)
        requires
            old(self).wf(),
            old(self).state is Lobby,
            team_members(old(self).players_seq(), Team(false)).len() >= 1,
            team_members(old(self).players_seq(), Team(true)).len() >= 1,
            words@.len() >= 2 * old(self).settings.keyword_count,
            forall|p: int, q: int| 0 <= p < q < words@.len() ==> words@[p]@ != words@[q]@,
        ensures
            final(self).wf(),
            final(self).players_seq() == old(self).players_seq(),
            final(self).settings == old(self).settings,
            final(self).global_chat == old(self).global_chat,
            final(self).drawings == old(self).drawings,
            final(self).state matches GameInfoState::InGame {
                keywords,
                completed_rounds,
                current_round: GameInfoStateCurrentRound::Normal(round),
                deadlines,
            } && {
                &&& keywords_drawn(keywords, words@, old(self).settings.keyword_count)
                &&& completed_rounds@.len() == 0
                &&& team_members(old(self).players_seq(), Team(false)).contains(
                    round.white.encryptor,
                )
                &&& team_members(old(self).players_seq(), Team(true)).contains(
                    round.black.encryptor,
                )
                &&& fresh_round_for(round.white, round.white.encryptor, old(self).settings)
                &&& fresh_round_for(round.black, round.black.encryptor, old(self).settings)
                &&& deadlines.white == spec_fixed_deadline(
                    old(self).settings.encrypt_time_limit.fixed,
                    now,
                )
                &&& deadlines.black == spec_fixed_deadline(
                    old(self).settings.encrypt_time_limit.fixed,
                    now,
                )
            },
    {
        let white_team = self.players_in_team(Team(false));
        let black_team = self.players_in_team(Team(true));
        let we = white_team[rand_index(white_team.len())];
        let be = black_team[rand_index(black_team.len())];
        proof {
            assert(team_members(self.players_seq(), Team(false)).contains(we));
            assert(team_members(self.players_seq(), Team(true)).contains(be));
            lemma_members_affiliated(self.players_seq(), Team(false));
            lemma_members_affiliated(self.players_seq(), Team(true));
        }
        let keywords = self.settings.pick_random_keywords(words);
        let white_round = RoundPerTeam {
            encryptor: we,
            code: self.settings.make_random_code(),
            clues: None,
            decipher: None,
            intercept: None,
            timed_out: TimedOut { encrypt: None, guess: None },
        };
        let black_round = RoundPerTeam {
            encryptor: be,
            code: self.settings.make_random_code(),
            clues: None,
            decipher: None,
            intercept: None,
            timed_out: TimedOut { encrypt: None, guess: None },
        };
        let dl = fixed_deadline(self.settings.encrypt_time_limit.fixed, now);
        self.state = GameInfoState::InGame {
            keywords,
            completed_rounds: Vec::new(),
            current_round: GameInfoStateCurrentRound::Normal(
                PerTeam { white: white_round, black: black_round },
            ),
            deadlines: PerTeam { white: dl, black: dl },
        };
    }
}

impl GameInfo {
    /// The round being played normally, if one is.
    pub open spec fn spec_current_normal_round(self) -> Option<PerTeam<RoundPerTeam>> {
        match self.state {
            GameInfoState::InGame {
                current_round: GameInfoStateCurrentRound::Normal(round),
                ..
            } => Some(round),
            _ => None,
        }
    }

    /// The tiebreaker round being played, if one is.
    pub open spec fn spec_current_tiebreaker(self) -> Option<PerTeam<TiebreakerRoundPerTeam>> {
        match self.state {
            GameInfoState::InGame {
                current_round: GameInfoStateCurrentRound::Tiebreaker(tb),
                ..
            } => Some(tb),
            _ => None,
        }
    }

    /// The completed rounds so far.
    pub open spec fn spec_completed_rounds(self) -> Seq<PerTeam<RoundPerTeam>> {
        match self.state {
            GameInfoState::InGame { completed_rounds, .. } => completed_rounds@,
            GameInfoState::GameOver { completed_rounds, .. } => completed_rounds@,
            GameInfoState::Lobby => Seq::empty(),
        }
    }

    /// Clues may go in: a normal round is running, the submitter is the
    /// team's encryptor, the count is right, and the team has not
    /// submitted clues this round.
    pub open spec fn spec_can_submit_clues(self, u: UserId, team: Team, n: int) -> bool {
        self.spec_current_normal_round() matches Some(round) && {
            &&& round.spec_get(team).encryptor == u
            &&& n == self.settings.clue_count
            &&& round.spec_get(team).clues is None
        }
    }

    /// The report for the first reason a clue submission is rejected.
    pub open spec fn spec_submit_clues_error(self, u: UserId, team: Team, n: int) -> Seq<char> {
        if !(self.state matches GameInfoState::InGame { .. }) {
            "Game not in progress"@
        } else {
            match self.spec_current_normal_round() {
                None => "No round in progress"@,
                Some(round) => if round.spec_get(team).encryptor != u {
                    "You are not the encryptor for your team"@
                } else if n != self.settings.clue_count {
                    "Incorrect number of clues submitted"@
                } else {
                    "Clues already submitted"@
                },
            }
        }
    }

    /// Stores the encryptor's clues for their team's current round.
    /// Rejects, without any state change, a submission outside a normal
    /// round, from anyone but the team's encryptor, with the wrong
    /// number of clues, or when clues are already in.
    pub fn submit_clues(&mut self, user_id: UserId, team: Team, clues: Vec<Clue>) -> (r: Result<
        (),
        String,
    >)
        requires
            old(self).wf(),
        ensures
            final(self).wf(),
            final(self).players_seq() == old(self).players_seq(),
            final(self).settings == old(self).settings,
            final(self).global_chat == old(self).global_chat,
            final(self).drawings == old(self).drawings,
            r is Ok <==> old(self).spec_can_submit_clues(user_id, team, clues@.len() as int),
            r matches Err(m) ==> m@ == old(self).spec_submit_clues_error(
                user_id,
                team,
                clues@.len() as int,
            ) && *final(self) == *old(self),
            r is Ok ==> (old(self).state matches GameInfoState::InGame {
                keywords,
                completed_rounds,
                current_round: GameInfoStateCurrentRound::Normal(round),
                deadlines,
            } && final(self).state == (GameInfoState::InGame {
                keywords,
                completed_rounds,
                current_round: GameInfoStateCurrentRound::Normal(
                    round.spec_set(
                        team,
                        RoundPerTeam { clues: Some(clues), ..round.spec_get(team) },
                    ),
                ),
                deadlines,
            })),
    {
        match &self.state {
            GameInfoState::InGame {
                current_round: GameInfoStateCurrentRound::Normal(round),
                ..
            } => {
                if round.get(team).encryptor != user_id {
                    return Err(String::from_str("You are not the encryptor for your team"));
                }
                if clues.len() != self.settings.clue_count {
                    return Err(String::from_str("Incorrect number of clues submitted"));
                }
                if round.get(team).clues.is_some() {
                    return Err(String::from_str("Clues already submitted"));
                }
            },
            GameInfoState::InGame { .. } => {
                return Err(String::from_str("No round in progress"));
            },
            _ => {
                return Err(String::from_str("Game not in progress"));
            },
        }
        let mut st = GameInfoState::Lobby;
        core::mem::swap(&mut st, &mut self.state);
        match st {
            GameInfoState::InGame {
                keywords,
                completed_rounds,
                current_round: GameInfoStateCurrentRound::Normal(round),
                deadlines,
            } => {
                let PerTeam { white, black } = round;
                let (white, black) = if team.0 {
                    (white, RoundPerTeam { clues: Some(clues), ..black })
                } else {
                    (RoundPerTeam { clues: Some(clues), ..white }, black)
                };
                self.state = GameInfoState::InGame {
                    keywords,
                    completed_rounds,
                    current_round: GameInfoStateCurrentRound::Normal(PerTeam { white, black }),
                    deadlines,
                };
                Ok(())
            },
            _ => vstd::pervasive::unreached(),
        }
    }
}

fn clone_str(s: &String) -> (r: String)
    ensures
        r == *s,
{
    s.clone()
}

impl GameInfo {
    /// A decipher may go in: a normal round is running, the submitter
    /// is not the team's encryptor, the length is right, and the team
    /// has not deciphered this round.
    pub open spec fn spec_can_submit_decipher(self, u: UserId, team: Team, n: int) -> bool {
        self.spec_current_normal_round() matches Some(round) && {
            &&& round.spec_get(team).encryptor != u
            &&& n == self.settings.clue_count
            &&& round.spec_get(team).decipher is None
        }
    }

    /// The report for the first reason a decipher submission is
    /// rejected.
    pub open spec fn spec_submit_decipher_error(self, u: UserId, team: Team, n: int) -> Seq<char> {
        if !(self.state matches GameInfoState::InGame { .. }) {
            "Game not in progress"@
        } else {
            match self.spec_current_normal_round() {
                None => "No round in progress"@,
                Some(round) => if round.spec_get(team).encryptor == u {
                    "You are not allowed to submit decipher clues as an encryptor"@
                } else if n != self.settings.clue_count {
                    "Incorrect format"@
                } else {
                    "Decipher already submitted"@
                },
            }
        }
    }

    /// Stores the team's guess at its own code. Rejects, without any
    /// state change, a submission outside a normal round, from the
    /// team's encryptor, with the wrong length, or when a decipher is
    /// already in.
    pub fn submit_decipher(&mut self, user_id: UserId, team: Team, attempt: Code) -> (r: Result<
        (),
        String,
    >)
        requires
            old(self).wf(),
        ensures
            final(self).wf(),
            final(self).players_seq() == old(self).players_seq(),
            final(self).settings == old(self).settings,
            final(self).global_chat == old(self).global_chat,
            final(self).drawings == old(self).drawings,
            r is Ok <==> old(self).spec_can_submit_decipher(user_id, team, attempt@.len() as int),
            r matches Err(m) ==> m@ == old(self).spec_submit_decipher_error(
                user_id,
                team,
                attempt@.len() as int,
            ) && *final(self) == *old(self),
            r is Ok ==> (old(self).state matches GameInfoState::InGame {
                keywords,
                completed_rounds,
                current_round: GameInfoStateCurrentRound::Normal(round),
                deadlines,
            } && final(self).state == (GameInfoState::InGame {
                keywords,
                completed_rounds,
                current_round: GameInfoStateCurrentRound::Normal(
                    round.spec_set(
                        team,
                        RoundPerTeam { decipher: Some(attempt), ..round.spec_get(team) },
                    ),
                ),
                deadlines,
            })),
    {
        match &self.state {
            GameInfoState::InGame {
                current_round: GameInfoStateCurrentRound::Normal(round),
                ..
            } => {
                if round.get(team).encryptor == user_id {
                    return Err(
                        String::from_str(
                            "You are not allowed to submit decipher clues as an encryptor",
                        ),
                    );
                }
                if attempt.len() != self.settings.clue_count {
                    return Err(String::from_str("Incorrect format"));
                }
                if round.get(team).decipher.is_some() {
                    return Err(String::from_str("Decipher already submitted"));
                }
            },
            GameInfoState::InGame { .. } => {
                return Err(String::from_str("No round in progress"));
            },
            _ => {
                return Err(String::from_str("Game not in progress"));
            },
        }
        let mut st = GameInfoState::Lobby;
        core::mem::swap(&mut st, &mut self.state);
        match st {
            GameInfoState::InGame {
                keywords,
                completed_rounds,
                current_round: GameInfoStateCurrentRound::Normal(round),
                deadlines,
            } => {
                let PerTeam { white, black } = round;
                let (white, black) = if team.0 {
                    (white, RoundPerTeam { decipher: Some(attempt), ..black })
                } else {
                    (RoundPerTeam { decipher: Some(attempt), ..white }, black)
                };
                self.state = GameInfoState::InGame {
                    keywords,
                    completed_rounds,
                    current_round: GameInfoStateCurrentRound::Normal(PerTeam { white, black }),
                    deadlines,
                };
                Ok(())
            },
            _ => vstd::pervasive::unreached(),
        }
    }

    /// An intercept may go in: a normal round past the first is
    /// running, the submitter is not the team's encryptor, the length
    /// is right, and the team has not intercepted this round.
    pub open spec fn spec_can_submit_intercept(self, u: UserId, team: Team, n: int) -> bool {
        &&& self.spec_completed_rounds().len() > 0
        &&& self.spec_current_normal_round() matches Some(round) && {
            &&& round.spec_get(team).encryptor != u
            &&& n == self.settings.clue_count
            &&& round.spec_get(team).intercept is None
        }
    }

    /// The report for the first reason an intercept submission is
    /// rejected.
    pub open spec fn spec_submit_intercept_error(self, u: UserId, team: Team, n: int) -> Seq<
        char,
    > {
        if !(self.state matches GameInfoState::InGame { .. }) {
            "Game not in progress"@
        } else if self.spec_completed_rounds().len() == 0 {
            "Cannot intercept in the first round"@
        } else {
            match self.spec_current_normal_round() {
                None => "No round in progress"@,
                Some(round) => if round.spec_get(team).encryptor == u {
                    "You are not allowed to submit intercept clues as an encryptor"@
                } else if n != self.settings.clue_count {
                    "Incorrect format"@
                } else {
                    "Intercept already submitted"@
                },
            }
        }
    }

    /// Stores the team's guess at the opposing team's code. Rejects,
    /// without any state change, a submission in the first round,
    /// outside a normal round, from the team's encryptor, with the
    /// wrong length, or when an intercept is already in.
    pub fn submit_intercept(&mut self, user_id: UserId, team: Team, attempt: Code) -> (r: Result<
        (),
        String,
    >)
        requires
            old(self).wf(),
        ensures
            final(self).wf(),
            final(self).players_seq() == old(self).players_seq(),
            final(self).settings == old(self).settings,
            final(self).global_chat == old(self).global_chat,
            final(self).drawings == old(self).drawings,
            r is Ok <==> old(self).spec_can_submit_intercept(user_id, team, attempt@.len() as int),
            r matches Err(m) ==> m@ == old(self).spec_submit_intercept_error(
                user_id,
                team,
                attempt@.len() as int,
            ) && *final(self) == *old(self),
            r is Ok ==> (old(self).state matches GameInfoState::InGame {
                keywords,
                completed_rounds,
                current_round: GameInfoStateCurrentRound::Normal(round),
                deadlines,
            } && final(self).state == (GameInfoState::InGame {
                keywords,
                completed_rounds,
                current_round: GameInfoStateCurrentRound::Normal(
                    round.spec_set(
                        team,
                        RoundPerTeam { intercept: Some(attempt), ..round.spec_get(team) },
                    ),
                ),
                deadlines,
            })),
    {
        match &self.state {
            GameInfoState::InGame {
                completed_rounds,
                current_round: GameInfoStateCurrentRound::Normal(round),
                ..
            } => {
                if completed_rounds.len() == 0 {
                    return Err(String::from_str("Cannot intercept in the first round"));
                }
                if round.get(team).encryptor == user_id {
                    return Err(
                        String::from_str(
                            "You are not allowed to submit intercept clues as an encryptor",
                        ),
                    );
                }
                if attempt.len() != self.settings.clue_count {
                    return Err(String::from_str("Incorrect format"));
                }
                if round.get(team).intercept.is_some() {
                    return Err(String::from_str("Intercept already submitted"));
                }
            },
            GameInfoState::InGame { completed_rounds, .. } => {
                if completed_rounds.len() == 0 {
                    return Err(String::from_str("Cannot intercept in the first round"));
                }
                return Err(String::from_str("No round in progress"));
            },
            _ => {
                return Err(String::from_str("Game not in progress"));
            },
        }
        let mut st = GameInfoState::Lobby;
        core::mem::swap(&mut st, &mut self.state);
        match st {
            GameInfoState::InGame {
                keywords,
                completed_rounds,
                current_round: GameInfoStateCurrentRound::Normal(round),
                deadlines,
            } => {
                let PerTeam { white, black } = round;
                let (white, black) = if team.0 {
                    (white, RoundPerTeam { intercept: Some(attempt), ..black })
                } else {
                    (RoundPerTeam { intercept: Some(attempt), ..white }, black)
                };
                self.state = GameInfoState::InGame {
                    keywords,
                    completed_rounds,
                    current_round: GameInfoStateCurrentRound::Normal(PerTeam { white, black }),
                    deadlines,
                };
                Ok(())
            },
            _ => vstd::pervasive::unreached(),
        }
    }

    /// Tiebreaker guesses may go in: a tiebreaker round is running, one
    /// guess per opposing keyword was given, and the team has not
    /// submitted its guesses yet.
    pub open spec fn spec_can_submit_tiebreaker(self, team: Team, n: int) -> bool {
        self.spec_current_tiebreaker() matches Some(tb) && {
            &&& n == self.settings.keyword_count
            &&& forall|i: int|
                0 <= i < tb.spec_get(team).guesses@.len() ==> tb.spec_get(team).guesses@[i]
                    is None
        }
    }

    /// The report for the first reason a tiebreaker submission is
    /// rejected.
    pub open spec fn spec_submit_tiebreaker_error(self, team: Team, n: int) -> Seq<char> {
        if !(self.state matches GameInfoState::InGame { .. }) {
            "Game not in progress"@
        } else {
            match self.spec_current_tiebreaker() {
                None => "No tiebreaker in progress"@,
                Some(tb) => if n != self.settings.keyword_count {
                    "Incorrect number of guesses submitted"@
                } else {
                    "Tiebreaker guesses already submitted"@
                },
            }
        }
    }

    /// Stores one team's tiebreaker guesses, one per opposing keyword
    /// slot. Rejects, without any state change, a submission outside a
    /// tiebreaker round, with the wrong number of guesses, or when the
    /// team's guesses are already in.
    pub fn submit_tiebreaker(&mut self, team: Team, guesses: Vec<String>) -> (r: Result<
        (),
        String,
    >)
        requires
            old(self).wf(),
        ensures
            final(self).wf(),
            final(self).players_seq() == old(self).players_seq(),
            final(self).settings == old(self).settings,
            final(self).global_chat == old(self).global_chat,
            final(self).drawings == old(self).drawings,
            r is Ok <==> old(self).spec_can_submit_tiebreaker(team, guesses@.len() as int),
            r matches Err(m) ==> m@ == old(self).spec_submit_tiebreaker_error(
                team,
                guesses@.len() as int,
            ) && *final(self) == *old(self),
            r is Ok ==> (old(self).state matches GameInfoState::InGame {
                keywords,
                completed_rounds,
                current_round: GameInfoStateCurrentRound::Tiebreaker(tb),
                deadlines,
            } && final(self).state matches GameInfoState::InGame {
                keywords: kw2,
                completed_rounds: cr2,
                current_round: GameInfoStateCurrentRound::Tiebreaker(tb2),
                deadlines: dl2,
            } && {
                &&& kw2 == keywords
                &&& cr2 == completed_rounds
                &&& dl2 == deadlines
                &&& tb2.spec_get(team.spec_other()) == tb.spec_get(team.spec_other())
                &&& tb2.spec_get(team).timed_out == tb.spec_get(team).timed_out
                &&& tb2.spec_get(team).guesses@.len() == guesses@.len()
                &&& forall|i: int|
                    0 <= i < guesses@.len() ==> tb2.spec_get(team).guesses@[i] == Some(
                        guesses@[i],
                    )
            }),
    {
        match &self.state {
            GameInfoState::InGame {
                current_round: GameInfoStateCurrentRound::Tiebreaker(tb),
                ..
            } => {
                if guesses.len() != self.settings.keyword_count {
                    return Err(String::from_str("Incorrect number of guesses submitted"));
                }
                let slots = &tb.get(team).guesses;
                let n = slots.len();
                let mut i: usize = 0;
                while i < n
                    invariant
                        i <= n,
                        n == slots@.len(),
                        self == old(self),
                        old(self).wf(),
                        guesses@.len() == self.settings.keyword_count,
                        self.spec_current_tiebreaker() matches Some(t) && slots@ == t.spec_get(
                            team,
                        ).guesses@,
                        forall|k: int| 0 <= k < i ==> slots@[k] is None,
                    decreases n - i,
                {
                    if slots[i].is_some() {
                        return Err(String::from_str("Tiebreaker guesses already submitted"));
                    }
                    i += 1;
                }
            },
            GameInfoState::InGame { .. } => {
                return Err(String::from_str("No tiebreaker in progress"));
            },
            _ => {
                return Err(String::from_str("Game not in progress"));
            },
        }
        let mut filled: Vec<Option<String>> = Vec::new();
        let m = guesses.len();
        let mut i: usize = 0;
        while i < m
            invariant
                i <= m,
                m == guesses@.len(),
                filled@.len() == i,
                forall|k: int| 0 <= k < i ==> filled@[k] == Some(guesses@[k]),
            decreases m - i,
        {
            filled.push(Some(clone_str(&guesses[i])));
            i += 1;
        }
        let mut st = GameInfoState::Lobby;
        core::mem::swap(&mut st, &mut self.state);
        match st {
            GameInfoState::InGame {
                keywords,
                completed_rounds,
                current_round: GameInfoStateCurrentRound::Tiebreaker(tb),
                deadlines,
            } => {
                let PerTeam { white, black } = tb;
                let (white, black) = if team.0 {
                    (white, TiebreakerRoundPerTeam { guesses: filled, timed_out: black.timed_out })
                } else {
                    (TiebreakerRoundPerTeam { guesses: filled, timed_out: white.timed_out }, black)
                };
                self.state = GameInfoState::InGame {
                    keywords,
                    completed_rounds,
                    current_round: GameInfoStateCurrentRound::Tiebreaker(
                        PerTeam { white, black },
                    ),
                    deadlines,
                };
                Ok(())
            },
            _ => vstd::pervasive::unreached(),
        }
    }
}

/// What follows a completed round: the game continues, goes to a
/// tiebreaker, or one team has won.
#[derive(Debug, Clone, Copy, PartialEq, Eq, Structural)]
pub enum RoundOutcome {
    Continue,
    Tiebreaker,
    Win(Team),
}

/// The decision taken after a round completes, from the updated round
/// history and the settings: if either team's aggregate intercepts or
/// miscommunications reach their limit, the game ends — with a
/// tiebreaker when the totals are tied, else with the higher-total team
/// winning; otherwise a reached round limit forces the tiebreaker, and
/// failing all that the game continues.
pub open spec fn spec_outcome(rounds: Seq<PerTeam<RoundPerTeam>>, s: GameSettings) -> RoundOutcome {
    let mw = spec_misc_count(rounds, Team(false));
    let iw = spec_intercept_count(rounds, Team(false));
    let mb = spec_misc_count(rounds, Team(true));
    let ib = spec_intercept_count(rounds, Team(true));
    if iw >= s.intercept_limit || ib >= s.intercept_limit || mw >= s.miscommunication_limit || mb
        >= s.miscommunication_limit {
        if iw - mw == ib - mb {
            RoundOutcome::Tiebreaker
        } else if iw - mw > ib - mb {
            RoundOutcome::Win(Team(false))
        } else {
            RoundOutcome::Win(Team(true))
        }
    } else if s.round_limit matches Some(rl) && rounds.len() >= rl {
        RoundOutcome::Tiebreaker
    } else {
        RoundOutcome::Continue
    }
}

/// Every user on an affiliation list is on the roster.
pub proof fn lemma_affiliated_in_roster(s: Seq<(UserId, GamePlayerInfo)>, t: Team)
    ensures
        forall|u: UserId| affiliated(s, t).contains(u) ==> roster_has(s, u),
    decreases s.len(),
{
    if s.len() > 0 {
        lemma_affiliated_in_roster(s.drop_last(), t);
        assert forall|u: UserId| affiliated(s, t).contains(u) implies roster_has(s, u) by {
            let a = affiliated(s, t);
            let ad = affiliated(s.drop_last(), t);
            let i = choose|i: int| 0 <= i < a.len() && a[i] == u;
            if i < ad.len() {
                assert(a[i] == ad[i]);
                assert(ad.contains(u));
                assert(roster_has(s.drop_last(), u));
                let k = roster_index(s.drop_last(), u);
                assert(0 <= k < s.drop_last().len() && s.drop_last()[k].0 == u);
                assert(s.drop_last()[k] == s[k]);
                assert(s[k].0 == u);
            } else {
                assert(u == s.last().0);
                assert(s[s.len() - 1].0 == u);
            }
        }
    }
}

/// On a roster with unique keys, an affiliation list repeats no user.
pub proof fn lemma_affiliated_unique(s: Seq<(UserId, GamePlayerInfo)>, t: Team)
    requires
        unique_keys(s),
    ensures
        forall|i: int, j: int|
            0 <= i < j < affiliated(s, t).len() ==> affiliated(s, t)[i] != affiliated(s, t)[j],
    decreases s.len(),
{
    if s.len() > 0 {
        lemma_affiliated_unique(s.drop_last(), t);
        lemma_affiliated_in_roster(s.drop_last(), t);
        let a = affiliated(s, t);
        let ad = affiliated(s.drop_last(), t);
        assert forall|i: int, j: int| 0 <= i < j < a.len() implies a[i] != a[j] by {
            if j < ad.len() {
                assert(ad[i] != ad[j]);
            } else if j == ad.len() && a.len() == ad.len() + 1 {
                assert(a[j] == s.last().0);
                assert(ad.contains(ad[i]));
                assert(roster_has(s.drop_last(), ad[i]));
                let k = roster_index(s.drop_last(), ad[i]);
                assert(s.drop_last()[k] == s[k]);
                assert(s[k].0 == ad[i]);
                assert(s[k].0 != s[s.len() - 1].0);
            }
        }
    }
}

/// The position the rotation starts from: the previous encryptor's
/// index on the team's affiliation list.
pub open spec fn rotation_index(aff: Seq<UserId>, prev: UserId) -> int {
    choose|i: int| 0 <= i < aff.len() && aff[i] == prev
}

/// The next round's encryptor: the cyclic successor of the previous one
/// on the team's stable affiliation list.
pub open spec fn spec_rotated_encryptor(aff: Seq<UserId>, prev: UserId) -> UserId {
    aff[(rotation_index(aff, prev) + 1) % (aff.len() as int)]
}

fn index_of_user(v: &Vec<UserId>, u: UserId) -> (r: usize)
    requires
        v@.contains(u),
        forall|i: int, j: int| 0 <= i < j < v@.len() ==> v@[i] != v@[j],
    ensures
        r < v@.len(),
        v@[r as int] == u,
        r == rotation_index(v@, u),
{
    let n = v.len();
    let mut i: usize = 0;
    while i < n
        invariant
            i <= n,
            n == v@.len(),
            v@.contains(u),
            forall|p: int, q: int| 0 <= p < q < v@.len() ==> v@[p] != v@[q],
            forall|k: int| 0 <= k < i ==> v@[k] != u,
        decreases n - i,
    {
        if v[i] == u {
            proof {
                let j = rotation_index(v@, u);
                assert(0 <= j < v@.len() && v@[j] == u);
                if j != i {
                    assert(v@[j] != v@[i as int]);
                }
            }
            return i;
        }
        i += 1;
    }
    proof {
        let j = choose|j: int| 0 <= j < v@.len() && v@[j] == u;
        assert(v@[j] != u);
    }
    vstd::pervasive::unreached()
}

fn empty_tb_team(kc: usize) -> (r: TiebreakerRoundPerTeam)
    ensures
        r.guesses@.len() == kc,
        forall|i: int| 0 <= i < kc ==> r.guesses@[i] is None,
        r.timed_out is None,
{
    let mut guesses: Vec<Option<String>> = Vec::new();
    let mut i: usize = 0;
    while i < kc
        invariant
            i <= kc,
            guesses@.len() == i,
            forall|k: int| 0 <= k < i ==> guesses@[k] is None,
        decreases kc - i,
    {
        guesses.push(None);
        i += 1;
    }
    TiebreakerRoundPerTeam { guesses, timed_out: None }
}

/// An all-empty tiebreaker slot list of the configured size, nothing
/// timed out.
pub open spec fn tb_team_fresh(t: TiebreakerRoundPerTeam, kc: usize) -> bool {
    &&& t.guesses@.len() == kc
    &&& forall|i: int| 0 <= i < t.guesses@.len() ==> t.guesses@[i] is None
    &&& t.timed_out is None
}


/// Everything a round advance promises of the game it acted on: the
/// roster, settings and drawings stay; while the round is not ready
/// nothing changes and nothing is returned; once it is, the completed
/// round's score comes back, the history grows by that round, and the
/// state is exactly what the decision names — a terminal snapshot for a
/// win, a fresh tiebreaker round for a tie or a reached round limit, or
/// the next round with rotated encryptors.
pub open spec fn round_advance_ok(
    pre: GameInfo,
    post: GameInfo,
    r: Option<PerTeam<RoundResult>>,
    now: u64,
) -> bool {
    &&& post.players_seq() == pre.players_seq()
    &&& post.settings == pre.settings
    &&& post.drawings == pre.drawings
    &&& (pre.spec_current_normal_round() matches Some(round) ==> ({
        let first = pre.spec_completed_rounds().len() == 0;
        let rounds1 = pre.spec_completed_rounds().push(round);
        let s = pre.settings;
        if !round_ready(round, first) {
            r is None && post.state == pre.state && post.global_chat == pre.global_chat
        } else {
            &&& r == Some(spec_score(round))
            &&& post.spec_completed_rounds() == rounds1
            &&& match spec_outcome(rounds1, s) {
                RoundOutcome::Win(t) => post.state matches GameInfoState::GameOver {
                    winner,
                    keywords,
                    completed_rounds,
                    tiebreaker,
                } && winner == Some(t) && keywords == pre.spec_keywords() && tiebreaker is None,
                RoundOutcome::Tiebreaker => post.state matches GameInfoState::InGame {
                    keywords,
                    completed_rounds,
                    current_round: GameInfoStateCurrentRound::Tiebreaker(tb),
                    deadlines,
                } && {
                    &&& keywords == pre.spec_keywords()
                    &&& tb_team_fresh(tb.white, s.keyword_count)
                    &&& tb_team_fresh(tb.black, s.keyword_count)
                    &&& deadlines.white == spec_fixed_deadline(s.tiebreaker_time_limit.fixed, now)
                    &&& deadlines.black == spec_fixed_deadline(s.tiebreaker_time_limit.fixed, now)
                },
                RoundOutcome::Continue => post.state matches GameInfoState::InGame {
                    keywords,
                    completed_rounds,
                    current_round: GameInfoStateCurrentRound::Normal(nr),
                    deadlines,
                } && {
                    &&& keywords == pre.spec_keywords()
                    &&& fresh_round_for(
                        nr.white,
                        spec_rotated_encryptor(
                            affiliated(pre.players_seq(), Team(false)),
                            round.white.encryptor,
                        ),
                        s,
                    )
                    &&& fresh_round_for(
                        nr.black,
                        spec_rotated_encryptor(
                            affiliated(pre.players_seq(), Team(true)),
                            round.black.encryptor,
                        ),
                        s,
                    )
                    &&& deadlines.white == spec_fixed_deadline(s.encrypt_time_limit.fixed, now)
                    &&& deadlines.black == spec_fixed_deadline(s.encrypt_time_limit.fixed, now)
                },
            }
        }
    }))
}

impl GameInfo {
    /// The keyword sets of a started game.
    pub open spec fn spec_keywords(self) -> PerTeam<Vec<String>> {
        match self.state {
            GameInfoState::InGame { keywords, .. } => keywords,
            GameInfoState::GameOver { keywords, .. } => keywords,
            GameInfoState::Lobby => vstd::pervasive::arbitrary(),
        }
    }

    /// Advances the game when the current round is complete. If either
    /// team is not yet encrypt-done and guess-done, nothing changes and
    /// nothing is returned. Once both are, the round moves to the
    /// history, its score is computed and returned, and exactly one of
    /// three things happens: a team whose total is ahead at a reached
    /// score limit wins and the game is over; a reached score limit
    /// with tied totals, or a reached round limit, starts the
    /// tiebreaker round; otherwise a fresh round begins, with each
    /// team's encryptor rotated to the cyclic successor on that team's
    /// stable player order, and fixed encrypt deadlines re-armed.
    pub fn next_round_if_ready(&mut self, now: u64) -> (r: Option<PerTeam<RoundResult>>)
        requires
            old(self).wf(),
            old(self).spec_current_normal_round() is Some,
        ensures
            final(self).wf(),
            final(self).global_chat == old(self).global_chat,
            round_advance_ok(*old(self), *final(self), r, now),
    {
        let first: bool;
        let ready: bool;
        match &self.state {
            GameInfoState::InGame {
                completed_rounds,
                current_round: GameInfoStateCurrentRound::Normal(round),
                ..
            } => {
                first = completed_rounds.len() == 0;
                let w = &round.white;
                let b = &round.black;
                let wd = (w.clues.is_some() || w.timed_out.encrypt.is_some()) && ((
                w.decipher.is_some() && (w.intercept.is_some() || first))
                    || w.timed_out.guess.is_some());
                let bd = (b.clues.is_some() || b.timed_out.encrypt.is_some()) && ((
                b.decipher.is_some() && (b.intercept.is_some() || first))
                    || b.timed_out.guess.is_some());
                ready = wd && bd;
            },
            _ => {
                return vstd::pervasive::unreached();
            },
        }
        if !ready {
            return None;
        }
        let white_aff = self.affiliated_players(Team(false));
        let black_aff = self.affiliated_players(Team(true));
        proof {
            lemma_affiliated_unique(self.players_seq(), Team(false));
            lemma_affiliated_unique(self.players_seq(), Team(true));
        }
        let mut st = GameInfoState::Lobby;
        core::mem::swap(&mut st, &mut self.state);
        match st {
            GameInfoState::InGame {
                keywords,
                mut completed_rounds,
                current_round: GameInfoStateCurrentRound::Normal(round),
                deadlines: _,
            } => {
                let score = round.score();
                let we_prev = round.white.encryptor;
                let be_prev = round.black.encryptor;
                completed_rounds.push(round);
                let aggr = aggregate_scores(&completed_rounds);
                let hit = aggr.white.intercepts >= self.settings.intercept_limit
                    || aggr.black.intercepts >= self.settings.intercept_limit
                    || aggr.white.miscommunications >= self.settings.miscommunication_limit
                    || aggr.black.miscommunications >= self.settings.miscommunication_limit;
                if hit {
                    let tw = aggr.white.total();
                    let tb = aggr.black.total();
                    if tw == tb {
                        let dl = fixed_deadline(self.settings.tiebreaker_time_limit.fixed, now);
                        let tbw = empty_tb_team(self.settings.keyword_count);
                        let tbb = empty_tb_team(self.settings.keyword_count);
                        self.state = GameInfoState::InGame {
                            keywords,
                            completed_rounds,
                            current_round: GameInfoStateCurrentRound::Tiebreaker(
                                PerTeam { white: tbw, black: tbb },
                            ),
                            deadlines: PerTeam { white: dl, black: dl },
                        };
                        return Some(score);
                    }
                    let winner = if tw > tb {
                        Team(false)
                    } else {
                        Team(true)
                    };
                    self.state = GameInfoState::GameOver {
                        winner: Some(winner),
                        keywords,
                        completed_rounds,
                        tiebreaker: None,
                    };
                    return Some(score);
                }
                let round_limit_hit = match self.settings.round_limit {
                    Some(rl) => completed_rounds.len() >= rl,
                    None => false,
                };
                if round_limit_hit {
                    let dl = fixed_deadline(self.settings.tiebreaker_time_limit.fixed, now);
                    let tbw = empty_tb_team(self.settings.keyword_count);
                    let tbb = empty_tb_team(self.settings.keyword_count);
                    self.state = GameInfoState::InGame {
                        keywords,
                        completed_rounds,
                        current_round: GameInfoStateCurrentRound::Tiebreaker(
                            PerTeam { white: tbw, black: tbb },
                        ),
                        deadlines: PerTeam { white: dl, black: dl },
                    };
                    return Some(score);
                }
                let wi = index_of_user(&white_aff, we_prev);
                let bi = index_of_user(&black_aff, be_prev);
                let wn = white_aff.len();
                let bn = black_aff.len();
                proof {
                    assert(wi < wn);
                    assert(bi < bn);
                    assert(wi + 1 <= wn <= usize::MAX);
                    assert(bi + 1 <= bn <= usize::MAX);
                }
                let we = white_aff[(wi + 1) % wn];
                let be = black_aff[(bi + 1) % bn];
                proof {
                    assert(affiliated(self.players_seq(), Team(false)).contains(we));
                    assert(affiliated(self.players_seq(), Team(true)).contains(be));
                }
                let wr = RoundPerTeam {
                    encryptor: we,
                    code: self.settings.make_random_code(),
                    clues: None,
                    decipher: None,
                    intercept: None,
                    timed_out: TimedOut { encrypt: None, guess: None },
                };
                let br = RoundPerTeam {
                    encryptor: be,
                    code: self.settings.make_random_code(),
                    clues: None,
                    decipher: None,
                    intercept: None,
                    timed_out: TimedOut { encrypt: None, guess: None },
                };
                let dl = fixed_deadline(self.settings.encrypt_time_limit.fixed, now);
                self.state = GameInfoState::InGame {
                    keywords,
                    completed_rounds,
                    current_round: GameInfoStateCurrentRound::Normal(
                        PerTeam { white: wr, black: br },
                    ),
                    deadlines: PerTeam { white: dl, black: dl },
                };
                Some(score)
            },
            _ => vstd::pervasive::unreached(),
        }
    }
}

/// How many tiebreaker guess slots match their keyword, slot for slot
/// against the keyword list in its original order.
pub open spec fn tb_score(guesses: Seq<Option<String>>, kws: Seq<String>) -> nat
    decreases guesses.len(),
{
    if guesses.len() == 0 || guesses.len() != kws.len() {
        0
    } else {
        tb_score(guesses.drop_last(), kws.drop_last()) + (match guesses.last() {
            Some(g) => if tb_guess_matches(g@, kws.last()@) {
                1nat
            } else {
                0nat
            },
            None => 0nat,
        })
    }
}

/// A team is done with the tiebreaker once every guess slot is filled
/// or the team timed out.
pub open spec fn tb_team_done(t: TiebreakerRoundPerTeam) -> bool {
    (forall|i: int| 0 <= i < t.guesses@.len() ==> t.guesses@[i] is Some) || t.timed_out is Some
}

pub(crate) fn tb_team_done_exec(t: &TiebreakerRoundPerTeam) -> (b: bool)
    ensures
        b == tb_team_done(*t),
{
    if t.timed_out.is_some() {
        return true;
    }
    let n = t.guesses.len();
    let mut i: usize = 0;
    while i < n
        invariant
            i <= n,
            n == t.guesses@.len(),
            t.timed_out is None,
            forall|k: int| 0 <= k < i ==> t.guesses@[k] is Some,
        decreases n - i,
    {
        if t.guesses[i].is_none() {
            return false;
        }
        i += 1;
    }
    true
}

fn tb_team_score(guesses: &Vec<Option<String>>, kws: &Vec<String>) -> (c: usize)
    requires
        guesses@.len() == kws@.len(),
    ensures
        c == tb_score(guesses@, kws@),
{
    let n = guesses.len();
    let mut c: usize = 0;
    let mut i: usize = 0;
    while i < n
        invariant
            i <= n,
            n == guesses@.len(),
            n == kws@.len(),
            c <= i,
            c == tb_score(guesses@.take(i as int), kws@.take(i as int)),
        decreases n - i,
    {
        proof {
            assert(guesses@.take(i + 1).drop_last() =~= guesses@.take(i as int));
            assert(kws@.take(i + 1).drop_last() =~= kws@.take(i as int));
            assert(guesses@.take(i + 1).last() == guesses@[i as int]);
            assert(kws@.take(i + 1).last() == kws@[i as int]);
        }
        match &guesses[i] {
            Some(g) => {
                if crate::textutil::check_tiebreaker_guess(g.as_str(), kws[i].as_str()) {
                    c += 1;
                }
            },
            None => {},
        }
        i += 1;
    }
    proof {
        assert(guesses@.take(n as int) =~= guesses@);
        assert(kws@.take(n as int) =~= kws@);
    }
    c
}

impl GameInfo {
    /// Ends the tiebreaker when both teams are done: each team's score
    /// counts how many of the opposing team's keywords it guessed,
    /// slot for slot; the higher count wins, equal counts leave a draw.
    /// Returns nothing, and changes nothing, while a team is still
    /// guessing.
    pub fn tiebreaker_over_if_ready(&mut self) -> (r: Option<PerTeam<usize>>)
        requires
            old(self).wf(),
            old(self).spec_current_tiebreaker() is Some,
        ensures
            final(self).wf(),
            final(self).players_seq() == old(self).players_seq(),
            final(self).settings == old(self).settings,
            final(self).global_chat == old(self).global_chat,
            final(self).drawings == old(self).drawings,
            old(self).spec_current_tiebreaker() matches Some(tb) ==> ({
                let kws = old(self).spec_keywords();
                let sw = tb_score(tb.white.guesses@, kws.black@);
                let sb = tb_score(tb.black.guesses@, kws.white@);
                if !(tb_team_done(tb.white) && tb_team_done(tb.black)) {
                    r is None && *final(self) == *old(self)
                } else {
                    &&& r matches Some(scores) && scores.white as nat == sw && scores.black as nat
                        == sb
                    &&& final(self).state matches GameInfoState::GameOver {
                        winner,
                        keywords,
                        completed_rounds,
                        tiebreaker,
                    } && {
                        &&& winner == (if sw > sb {
                            Some(Team(false))
                        } else if sb > sw {
                            Some(Team(true))
                        } else {
                            None::<Team>
                        })
                        &&& keywords == kws
                        &&& completed_rounds@ == old(self).spec_completed_rounds()
                        &&& tiebreaker == Some(tb)
                    }
                }
            }),
    {
        let sw: usize;
        let sb: usize;
        match &self.state {
            GameInfoState::InGame {
                keywords,
                current_round: GameInfoStateCurrentRound::Tiebreaker(tb),
                ..
            } => {
                if !(tb_team_done_exec(&tb.white) && tb_team_done_exec(&tb.black)) {
                    return None;
                }
                sw = tb_team_score(&tb.white.guesses, &keywords.black);
                sb = tb_team_score(&tb.black.guesses, &keywords.white);
            },
            _ => {
                return vstd::pervasive::unreached();
            },
        }
        let mut st = GameInfoState::Lobby;
        core::mem::swap(&mut st, &mut self.state);
        match st {
            GameInfoState::InGame {
                keywords,
                completed_rounds,
                current_round: GameInfoStateCurrentRound::Tiebreaker(tb),
                deadlines: _,
            } => {
                let winner = if sw > sb {
                    Some(Team(false))
                } else if sb > sw {
                    Some(Team(true))
                } else {
                    None
                };
                self.state = GameInfoState::GameOver {
                    winner,
                    keywords,
                    completed_rounds,
                    tiebreaker: Some(tb),
                };
                Some(PerTeam { white: sw, black: sb })
            },
            _ => vstd::pervasive::unreached(),
        }
    }
}

/// A deadline has passed at the given instant.
pub open spec fn spec_deadline_expired(d: Option<Deadline>, now: u64) -> bool {
    d matches Some(dl) && dl.at < now
}

/// The next pending timeout slot filled with the reason: the encrypt
/// slot if still free, else the guess slot, else nothing (both slots
/// taken leaves the record as it is).
pub open spec fn timeout_next(to: TimedOut, reason: DeadlineReason) -> TimedOut {
    if to.encrypt is None {
        TimedOut { encrypt: Some(reason), guess: to.guess }
    } else if to.guess is None {
        TimedOut { encrypt: to.encrypt, guess: Some(reason) }
    } else {
        to
    }
}

/// One team's round record after its deadline, if expired, was
/// enforced.
pub open spec fn spec_enforced_round(rt: RoundPerTeam, d: Option<Deadline>, now: u64) -> RoundPerTeam {
    if spec_deadline_expired(d, now) {
        match d {
            Some(dl) => RoundPerTeam { timed_out: timeout_next(rt.timed_out, dl.reason), ..rt },
            None => rt,
        }
    } else {
        rt
    }
}

/// One team's tiebreaker record after its deadline, if expired, was
/// enforced.
pub open spec fn spec_enforced_tb(
    t: TiebreakerRoundPerTeam,
    d: Option<Deadline>,
    now: u64,
) -> TiebreakerRoundPerTeam {
    if spec_deadline_expired(d, now) {
        match d {
            Some(dl) => TiebreakerRoundPerTeam {
                guesses: t.guesses,
                timed_out: if t.timed_out is None {
                    Some(dl.reason)
                } else {
                    t.timed_out
                },
            },
            None => t,
        }
    } else {
        t
    }
}

/// A deadline once enforcement ran: cleared if it had expired.
pub open spec fn spec_enforced_deadline(d: Option<Deadline>, now: u64) -> Option<Deadline> {
    if spec_deadline_expired(d, now) {
        None
    } else {
        d
    }
}

fn timeout_next_exec(to: TimedOut, reason: DeadlineReason) -> (r: TimedOut)
    ensures
        r == timeout_next(to, reason),
{
    if to.encrypt.is_none() {
        TimedOut { encrypt: Some(reason), guess: to.guess }
    } else if to.guess.is_none() {
        TimedOut { encrypt: to.encrypt, guess: Some(reason) }
    } else {
        to
    }
}

fn enforce_team_round(rt: RoundPerTeam, d: Option<Deadline>, now: u64) -> (res: (
    RoundPerTeam,
    Option<Deadline>,
    bool,
))
    ensures
        res.0 == spec_enforced_round(rt, d, now),
        res.1 == spec_enforced_deadline(d, now),
        res.2 == spec_deadline_expired(d, now),
{
    match d {
        Some(dl) => {
            if dl.at < now {
                let to = timeout_next_exec(rt.timed_out, dl.reason);
                (RoundPerTeam { timed_out: to, ..rt }, None, true)
            } else {
                (rt, Some(dl), false)
            }
        },
        None => (rt, None, false),
    }
}

fn enforce_team_tb(t: TiebreakerRoundPerTeam, d: Option<Deadline>, now: u64) -> (res: (
    TiebreakerRoundPerTeam,
    Option<Deadline>,
    bool,
))
    ensures
        res.0 == spec_enforced_tb(t, d, now),
        res.1 == spec_enforced_deadline(d, now),
        res.2 == spec_deadline_expired(d, now),
{
    match d {
        Some(dl) => {
            if dl.at < now {
                let timed_out = if t.timed_out.is_none() {
                    Some(dl.reason)
                } else {
                    t.timed_out
                };
                (TiebreakerRoundPerTeam { guesses: t.guesses, timed_out }, None, true)
            } else {
                (t, Some(dl), false)
            }
        },
        None => (t, None, false),
    }
}

impl GameInfo {
    /// Walks both teams' deadlines at the given instant and enforces
    /// every expired one: the team's next pending timeout slot is set
    /// to the deadline's reason and the deadline is cleared. Returns
    /// whether anything changed. Deadline enforcement is cooperative:
    /// it runs only when a client asks for a timer check or another
    /// action does.
    pub fn enforce_expired_deadlines(&mut self, now: u64) -> (changed: bool)
        requires
            old(self).wf(),
            old(self).state matches GameInfoState::InGame { .. },
        ensures
            final(self).wf(),
            final(self).players_seq() == old(self).players_seq(),
            final(self).settings == old(self).settings,
            final(self).global_chat == old(self).global_chat,
            final(self).drawings == old(self).drawings,
            old(self).state matches GameInfoState::InGame {
                keywords,
                completed_rounds,
                current_round,
                deadlines,
            } ==> ({
                &&& changed == (spec_deadline_expired(deadlines.white, now)
                    || spec_deadline_expired(deadlines.black, now))
                &&& final(self).state == (GameInfoState::InGame {
                    keywords,
                    completed_rounds,
                    current_round: match current_round {
                        GameInfoStateCurrentRound::Normal(round) => GameInfoStateCurrentRound::Normal(
                            PerTeam {
                                white: spec_enforced_round(round.white, deadlines.white, now),
                                black: spec_enforced_round(round.black, deadlines.black, now),
                            },
                        ),
                        GameInfoStateCurrentRound::Tiebreaker(tb) => GameInfoStateCurrentRound::Tiebreaker(
                            PerTeam {
                                white: spec_enforced_tb(tb.white, deadlines.white, now),
                                black: spec_enforced_tb(tb.black, deadlines.black, now),
                            },
                        ),
                    },
                    deadlines: PerTeam {
                        white: spec_enforced_deadline(deadlines.white, now),
                        black: spec_enforced_deadline(deadlines.black, now),
                    },
                })
            }),
    {
        let mut st = GameInfoState::Lobby;
        core::mem::swap(&mut st, &mut self.state);
        match st {
            GameInfoState::InGame { keywords, completed_rounds, current_round, deadlines } => {
                let PerTeam { white: dw, black: db } = deadlines;
                match current_round {
                    GameInfoStateCurrentRound::Normal(round) => {
                        let PerTeam { white, black } = round;
                        let (white, dw2, cw) = enforce_team_round(white, dw, now);
                        let (black, db2, cb) = enforce_team_round(black, db, now);
                        self.state = GameInfoState::InGame {
                            keywords,
                            completed_rounds,
                            current_round: GameInfoStateCurrentRound::Normal(
                                PerTeam { white, black },
                            ),
                            deadlines: PerTeam { white: dw2, black: db2 },
                        };
                        cw || cb
                    },
                    GameInfoStateCurrentRound::Tiebreaker(tb) => {
                        let PerTeam { white, black } = tb;
                        let (white, dw2, cw) = enforce_team_tb(white, dw, now);
                        let (black, db2, cb) = enforce_team_tb(black, db, now);
                        self.state = GameInfoState::InGame {
                            keywords,
                            completed_rounds,
                            current_round: GameInfoStateCurrentRound::Tiebreaker(
                                PerTeam { white, black },
                            ),
                            deadlines: PerTeam { white: dw2, black: db2 },
                        };
                        cw || cb
                    },
                }
            },
            _ => vstd::pervasive::unreached(),
        }
    }

    /// Handles a "hurry up" request against the named teams during a
    /// normal round. A named team whose deadline has already expired
    /// has it enforced on the spot, with no new timer armed; a fully
    /// timed-out team gets nothing armed either; any other named team
    /// gets a frustration deadline at the configured grace period from
    /// now, overwriting whatever deadline it had. Returns, per team,
    /// whether a frustration timer was armed.
    pub fn mark_frustrated(&mut self, encrypting: bool, teams: PerTeam<bool>, now: u64) -> (armed:
        PerTeam<bool>)
        requires
            old(self).wf(),
            old(self).spec_current_normal_round() is Some,
        ensures
            final(self).wf(),
            final(self).players_seq() == old(self).players_seq(),
            final(self).settings == old(self).settings,
            final(self).global_chat == old(self).global_chat,
            final(self).drawings == old(self).drawings,
            old(self).state matches GameInfoState::InGame {
                keywords,
                completed_rounds,
                current_round: GameInfoStateCurrentRound::Normal(round),
                deadlines,
            } ==> ({
                let grace = if encrypting {
                    old(self).settings.encrypt_time_limit.after_frustrated
                } else {
                    old(self).settings.guess_time_limit.after_frustrated
                };
                let fr_w = spec_frustrated_team(round.white, deadlines.white, teams.white, grace, now);
                let fr_b = spec_frustrated_team(round.black, deadlines.black, teams.black, grace, now);
                &&& final(self).state == (GameInfoState::InGame {
                    keywords,
                    completed_rounds,
                    current_round: GameInfoStateCurrentRound::Normal(
                        PerTeam { white: fr_w.0, black: fr_b.0 },
                    ),
                    deadlines: PerTeam { white: fr_w.1, black: fr_b.1 },
                })
                &&& armed == (PerTeam { white: fr_w.2, black: fr_b.2 })
            }),
    {
        let grace = if encrypting {
            self.settings.encrypt_time_limit.after_frustrated
        } else {
            self.settings.guess_time_limit.after_frustrated
        };
        let mut st = GameInfoState::Lobby;
        core::mem::swap(&mut st, &mut self.state);
        match st {
            GameInfoState::InGame {
                keywords,
                completed_rounds,
                current_round: GameInfoStateCurrentRound::Normal(round),
                deadlines,
            } => {
                let PerTeam { white, black } = round;
                let PerTeam { white: dw, black: db } = deadlines;
                let (white, dw2, aw) = frustrate_team(white, dw, teams.white, grace, now);
                let (black, db2, ab) = frustrate_team(black, db, teams.black, grace, now);
                self.state = GameInfoState::InGame {
                    keywords,
                    completed_rounds,
                    current_round: GameInfoStateCurrentRound::Normal(PerTeam { white, black }),
                    deadlines: PerTeam { white: dw2, black: db2 },
                };
                PerTeam { white: aw, black: ab }
            },
            _ => vstd::pervasive::unreached(),
        }
    }
}

/// One team's round record, deadline, and armed flag after a
/// frustration request: an unnamed team is untouched; a named team
/// with an expired deadline has it enforced and nothing armed; a named
/// team that already used both its timeout slots is left alone, since a
/// further deadline could never be enforced; any other named team gets
/// a frustration deadline at the grace period from now.
pub open spec fn spec_frustrated_team(
    rt: RoundPerTeam,
    d: Option<Deadline>,
    named: bool,
    grace: u64,
    now: u64,
) -> (RoundPerTeam, Option<Deadline>, bool) {
    if !named {
        (rt, d, false)
    } else if spec_deadline_expired(d, now) {
        (spec_enforced_round(rt, d, now), None, false)
    } else if rt.timed_out.encrypt is Some && rt.timed_out.guess is Some {
        (rt, d, false)
    } else {
        (
            rt,
            Some(
                Deadline {
                    at: spec_deadline_sum(now, grace),
                    reason: DeadlineReason::Frustrated,
                },
            ),
            true,
        )
    }
}

fn frustrate_team(rt: RoundPerTeam, d: Option<Deadline>, named: bool, grace: u64, now: u64) -> (res:
    (RoundPerTeam, Option<Deadline>, bool))
    ensures
        res == spec_frustrated_team(rt, d, named, grace, now),
{
    if !named {
        return (rt, d, false);
    }
    let expired = match &d {
        Some(dl) => dl.at < now,
        None => false,
    };
    if expired {
        let (rt2, d2, _) = enforce_team_round(rt, d, now);
        (rt2, d2, false)
    } else if rt.timed_out.encrypt.is_some() && rt.timed_out.guess.is_some() {
        (rt, d, false)
    } else {
        (
            rt,
            Some(Deadline { at: deadline_sum(now, grace), reason: DeadlineReason::Frustrated }),
            true,
        )
    }
}

/// Everything a deadline-enforcement pass promises of a running game's
/// state: per team, an expired deadline fills the next timeout slot
/// with its reason and is cleared; everything else stays.
pub open spec fn deadlines_enforced_ok(pre: GameInfo, post: GameInfo, now: u64) -> bool {
    pre.state matches GameInfoState::InGame {
        keywords,
        completed_rounds,
        current_round,
        deadlines,
    } ==> post.state == (GameInfoState::InGame {
        keywords,
        completed_rounds,
        current_round: match current_round {
            GameInfoStateCurrentRound::Normal(round) => GameInfoStateCurrentRound::Normal(
                PerTeam {
                    white: spec_enforced_round(round.white, deadlines.white, now),
                    black: spec_enforced_round(round.black, deadlines.black, now),
                },
            ),
            GameInfoStateCurrentRound::Tiebreaker(tb) => GameInfoStateCurrentRound::Tiebreaker(
                PerTeam {
                    white: spec_enforced_tb(tb.white, deadlines.white, now),
                    black: spec_enforced_tb(tb.black, deadlines.black, now),
                },
            ),
        },
        deadlines: PerTeam {
            white: spec_enforced_deadline(deadlines.white, now),
            black: spec_enforced_deadline(deadlines.black, now),
        },
    })
}

/// Everything a frustration request promises of a running game's state:
/// per named team, an expired deadline is enforced on the spot and a
/// team still owing work gets the frustration timer; submissions stay.
pub open spec fn frustration_ok(
    pre: GameInfo,
    post: GameInfo,
    encrypting: bool,
    teams: PerTeam<bool>,
    now: u64,
) -> bool {
    pre.state matches GameInfoState::InGame {
        keywords,
        completed_rounds,
        current_round: GameInfoStateCurrentRound::Normal(round),
        deadlines,
    } ==> ({
        let grace = if encrypting {
            pre.settings.encrypt_time_limit.after_frustrated
        } else {
            pre.settings.guess_time_limit.after_frustrated
        };
        let fr_w = spec_frustrated_team(round.white, deadlines.white, teams.white, grace, now);
        let fr_b = spec_frustrated_team(round.black, deadlines.black, teams.black, grace, now);
        post.state == (GameInfoState::InGame {
            keywords,
            completed_rounds,
            current_round: GameInfoStateCurrentRound::Normal(
                PerTeam { white: fr_w.0, black: fr_b.0 },
            ),
            deadlines: PerTeam { white: fr_w.1, black: fr_b.1 },
        })
    })
}

/// The game with one team's guess slot filled in the running normal
/// round: the decipher slot when `decipher` is set, else the intercept
/// slot; any other game is left as it is.
pub open spec fn game_with_guess(g: GameInfo, team: Team, attempt: Code, decipher: bool) -> GameInfo {
    match g.state {
        GameInfoState::InGame {
            keywords,
            completed_rounds,
            current_round: GameInfoStateCurrentRound::Normal(round),
            deadlines,
        } => GameInfo {
            state: GameInfoState::InGame {
                keywords,
                completed_rounds,
                current_round: GameInfoStateCurrentRound::Normal(
                    round.spec_set(
                        team,
                        if decipher {
                            RoundPerTeam { decipher: Some(attempt), ..round.spec_get(team) }
                        } else {
                            RoundPerTeam { intercept: Some(attempt), ..round.spec_get(team) }
                        },
                    ),
                ),
                deadlines,
            },
            ..g
        },
        _ => g,
    }
}

} // verus!
