//! The session directory: owns all connections, users and games,
//! routes inbound actions to the right game, and fans out
//! privacy-filtered state views to the affected participants.

use vstd::prelude::*;

use crate::assoc::assoc_find;
use crate::assoc::assoc_has;
use crate::assoc::assoc_index;
use crate::assoc::assoc_replace;
use crate::assoc::assoc_val;
use crate::assoc::keys_unique;
use crate::assoc::lemma_assoc_index_unique;
use crate::assoc::lemma_assoc_push_frame;
use crate::assoc::lemma_assoc_remove_frame;
use crate::assoc::lemma_assoc_update_frame;
use crate::code::Code;
use crate::game::GameInfo;
use crate::game::GameInfoState;
use crate::game::deadlines_enforced_ok;
use crate::game::fresh_round_for;
use crate::game::frustration_ok;
use crate::game::game_with_guess;
use crate::game::keywords_drawn;
use crate::game::round_advance_ok;
use crate::game::spec_fixed_deadline;
use crate::game::team_members;
use crate::message::Clue;
use crate::message::ErrorSeverity;
use crate::round::RoundResult;
use crate::team::PerTeam;
use crate::team::Team;
use crate::game::GamePlayerInfo;
use crate::id::ConnectionId;
use crate::id::GameId;
use crate::id::UserId;
use crate::id::UserSecret;
use crate::message::FromClient;
use crate::message::GameView;
use crate::message::PlayerInfo;
use crate::message::ToClient;
use crate::message::UserInfo;
use crate::settings::Wordlist;
use crate::view::game_state_view;
use crate::view::sort_players;
use crate::view::state_view_ok;

verus! {

/// What the directory keeps per live connection; the transport sink
/// itself lives with the caller.
#[derive(Debug, Clone, Copy)]
pub struct ClientData {
    /// The user this connection authenticated as, if any.
    pub authenticated_as: Option<UserId>,
}

/// A persistent identity surviving disconnects.
#[derive(Debug, Clone)]
pub struct UserData {
    /// Null when not connected at the moment.
    pub connection_id: Option<ConnectionId>,
    /// Secret used to authenticate the user again.
    pub secret: UserSecret,
    /// User-given nickname.
    pub nick: Option<String>,
    /// Joined game, if any.
    pub game: Option<GameId>,
}

/// A message the caller should push to one connection.
pub struct Outbound {
    pub to: ConnectionId,
    pub msg: ToClient,
}

/// The directory of all connections, users, and game sessions,
/// each keyed by its identifier value.
pub struct State {
    pub clients: Vec<(u128, ClientData)>,
    pub users: Vec<(u128, UserData)>,
    pub games: Vec<(u128, GameInfo)>,
}

impl State {
    /// The directory invariant: all three collections keyed uniquely,
    /// every authenticated connection names an existing user, every
    /// joined user names an existing game whose roster holds them, and
    /// every game keeps its own invariant.
    pub open spec fn wf(self) -> bool {
        &&& keys_unique(self.clients@)
        &&& keys_unique(self.users@)
        &&& keys_unique(self.games@)
        &&& forall|i: int|
            0 <= i < self.clients@.len() ==> ((#[trigger] self.clients@[i]).1.authenticated_as
                matches Some(u) ==> assoc_has(self.users@, u.0))
        &&& forall|i: int|
            0 <= i < self.users@.len() ==> ((#[trigger] self.users@[i]).1.game matches Some(g) ==> {
                &&& assoc_has(self.games@, g.0)
                &&& assoc_val(self.games@, g.0).spec_has_player(UserId(self.users@[i].0))
            })
        &&& forall|i: int| 0 <= i < self.games@.len() ==> (#[trigger] self.games@[i]).1.wf()
        &&& forall|i: int, m: int|
            0 <= i < self.games@.len() && 0 <= m < self.games@[i].1.players_seq().len()
                ==> assoc_has(
                self.users@,
                ((#[trigger] self.games@[i].1.players_seq()[m]).0).0,
            )
    }

    /// A connection the directory knows.
    pub open spec fn spec_has_client(self, id: ConnectionId) -> bool {
        assoc_has(self.clients@, id.0)
    }

    /// The record of a known connection.
    pub open spec fn spec_client(self, id: ConnectionId) -> ClientData {
        assoc_val(self.clients@, id.0)
    }

    /// A user the directory knows.
    pub open spec fn spec_has_user(self, id: UserId) -> bool {
        assoc_has(self.users@, id.0)
    }

    /// The record of a known user.
    pub open spec fn spec_user(self, id: UserId) -> UserData {
        assoc_val(self.users@, id.0)
    }

    /// A game the directory knows.
    pub open spec fn spec_has_game(self, id: GameId) -> bool {
        assoc_has(self.games@, id.0)
    }

    /// The record of a known game.
    pub open spec fn spec_game(self, id: GameId) -> GameInfo {
        assoc_val(self.games@, id.0)
    }

    /// An empty directory.
    pub fn new() -> (r: State)
        ensures
            r.wf(),
            r.clients@.len() == 0,
            r.users@.len() == 0,
            r.games@.len() == 0,
    {
        State { clients: Vec::new(), users: Vec::new(), games: Vec::new() }
    }

    /// Registers a fresh connection, not yet authenticated. A reused
    /// connection identifier starts over unauthenticated.
    pub fn on_connect(&mut self, id: ConnectionId)
        requires
            old(self).wf(),
        ensures
            final(self).wf(),
            final(self).users == old(self).users,
            final(self).games == old(self).games,
            final(self).spec_has_client(id),
            final(self).spec_client(id).authenticated_as is None,
            forall|c: ConnectionId|
                #![trigger final(self).spec_has_client(c)]
                #![trigger final(self).spec_client(c)]
                c != id ==> (final(self).spec_has_client(c) == old(self).spec_has_client(c) && (
                old(self).spec_has_client(c) ==> final(self).spec_client(c) == old(
                    self,
                ).spec_client(c))),
    {
        let fresh = ClientData { authenticated_as: None };
        match assoc_find(&self.clients, id.0) {
            Some(i) => {
                proof {
                    lemma_assoc_update_frame(self.clients@, i as int, fresh);
                }
                let _ = assoc_replace(&mut self.clients, i, id.0, fresh);
            },
            None => {
                proof {
                    lemma_assoc_push_frame(self.clients@, id.0, fresh);
                }
                self.clients.push((id.0, fresh));
            },
        }
    }

    /// Forgets a closed connection. If it was authenticated, the user
    /// it named is marked disconnected; the returned game, if any, is
    /// the one whose members should be told.
    pub fn on_disconnect(&mut self, id: ConnectionId) -> (r: Option<GameId>)
        requires
            old(self).wf(),
            old(self).spec_has_client(id),
        ensures
            final(self).wf(),
            final(self).games == old(self).games,
            !final(self).spec_has_client(id),
            forall|c: ConnectionId|
                #![trigger final(self).spec_has_client(c)]
                #![trigger final(self).spec_client(c)]
                c != id ==> (final(self).spec_has_client(c) == old(self).spec_has_client(c) && (
                old(self).spec_has_client(c) ==> final(self).spec_client(c) == old(
                    self,
                ).spec_client(c))),
            old(self).spec_client(id).authenticated_as matches Some(u) ==> {
                &&& final(self).spec_user(u).connection_id is None
                &&& final(self).spec_user(u).secret == old(self).spec_user(u).secret
                &&& final(self).spec_user(u).nick == old(self).spec_user(u).nick
                &&& final(self).spec_user(u).game == old(self).spec_user(u).game
                &&& r == old(self).spec_user(u).game
                &&& forall|u2: UserId|
                    #![trigger final(self).spec_has_user(u2)]
                    #![trigger final(self).spec_user(u2)]
                    u2 != u ==> (final(self).spec_has_user(u2) == old(self).spec_has_user(u2) && (
                    old(self).spec_has_user(u2) ==> final(self).spec_user(u2) == old(
                        self,
                    ).spec_user(u2)))
            },
            old(self).spec_client(id).authenticated_as is None ==> final(self).users == old(
                self,
            ).users && r is None,
    {
        let i = match assoc_find(&self.clients, id.0) {
            Some(i) => i,
            None => {
                return vstd::pervasive::unreached();
            },
        };
        let client = self.clients[i].1;
        proof {
            lemma_assoc_remove_frame(self.clients@, i as int);
        }
        let _ = self.clients.remove(i);
        match client.authenticated_as {
            Some(user_id) => {
                let j = match assoc_find(&self.users, user_id.0) {
                    Some(j) => j,
                    None => {
                        return vstd::pervasive::unreached();
                    },
                };
                let mut ud = clone_user_data(&self.users[j].1);
                ud.connection_id = None;
                let game = ud.game;
                proof {
                    lemma_assoc_update_frame(self.users@, j as int, ud);
                }
                let _ = assoc_replace(&mut self.users, j, user_id.0, ud);
                game
            },
            None => None,
        }
    }

    /// The user, if any, whose secret this is.
    pub fn find_client_by_secret(&self, secret: UserSecret) -> (r: Option<UserId>)
        requires
            self.wf(),
        ensures
            r matches Some(u) ==> self.spec_has_user(u) && self.spec_user(u).secret == secret,
            r is None ==> forall|i: int|
                0 <= i < self.users@.len() ==> (#[trigger] self.users@[i]).1.secret != secret,
    {
        let n = self.users.len();
        let mut i: usize = 0;
        while i < n
            invariant
                i <= n,
                n == self.users@.len(),
                self.wf(),
                forall|k: int| 0 <= k < i ==> (#[trigger] self.users@[k]).1.secret != secret,
            decreases n - i,
        {
            if self.users[i].1.secret.0 == secret.0 {
                proof {
                    lemma_assoc_index_unique(self.users@, self.users@[i as int].0, i as int);
                }
                return Some(UserId(self.users[i].0));
            }
            i += 1;
        }
        None
    }
}

fn clone_user_data(u: &UserData) -> (r: UserData)
    ensures
        r == *u,
{
    UserData {
        connection_id: u.connection_id,
        secret: u.secret,
        nick: match &u.nick {
            Some(n) => Some(n.clone()),
            None => None,
        },
        game: u.game,
    }
}

/// One shown roster row is right for one roster entry: the identifier,
/// connectivity, presence, nickname and team all come from the books.
pub open spec fn player_entry_ok(
    p: PlayerInfo,
    entry: (UserId, GamePlayerInfo),
    users: Seq<(u128, UserData)>,
) -> bool {
    &&& p.id == entry.0
    &&& assoc_has(users, entry.0.0)
    &&& p.connected == (assoc_val(users, entry.0.0).connection_id is Some)
    &&& p.is_in_game == !(entry.1 is LeftGame)
    &&& p.team == (match entry.1 {
        GamePlayerInfo::InTeam(t) => Some(t),
        _ => None,
    })
    &&& match assoc_val(users, entry.0.0).nick {
        Some(n) => p.nick == n,
        None => p.nick@ == Seq::<char>::empty(),
    }
}

/// Everything a game view promises: the right identifier and settings,
/// the full chat log, a roster sorted by identifier whose rows are
/// each right for some roster entry and which covers every roster
/// entry, and a state view that keeps the per-team privacy rules.
pub open spec fn game_view_ok(
    gv: GameView,
    game_id: GameId,
    game: GameInfo,
    viewer: UserId,
    users: Seq<(u128, UserData)>,
    lists: Seq<Wordlist>,
) -> bool {
    &&& gv.id == game_id
    &&& gv.settings == game.settings
    &&& gv.global_chat@ == game.global_chat@
    &&& gv.players@.len() == game.players_seq().len()
    &&& forall|k: int|
        0 <= k < gv.players@.len() ==> exists|m: int|
            0 <= m < game.players_seq().len() && player_entry_ok(
                #[trigger] gv.players@[k],
                game.players_seq()[m],
                users,
            )
    &&& forall|m: int|
        0 <= m < game.players_seq().len() ==> exists|k: int|
            0 <= k < gv.players@.len() && player_entry_ok(
                gv.players@[k],
                #[trigger] game.players_seq()[m],
                users,
            )
    &&& forall|k: int, l: int|
        0 <= k < l < gv.players@.len() ==> (#[trigger] gv.players@[k]).id.0 <= (
        #[trigger] gv.players@[l]).id.0
    &&& state_view_ok(gv.state, game, viewer, lists)
}

/// The two directory states hold the same connections, users, and
/// games.
pub open spec fn state_eq(a: State, b: State) -> bool {
    &&& a.clients@ == b.clients@
    &&& a.users@ == b.users@
    &&& a.games@ == b.games@
}

/// How many of the game's first `upto` roster members have a live
/// connection on the books.
pub open spec fn connected_count(st: State, game_id: GameId, upto: int) -> int
    decreases upto,
{
    if upto <= 0 {
        0
    } else {
        connected_count(st, game_id, upto - 1) + (if assoc_val(
            st.users@,
            st.spec_game(game_id).players_seq()[upto - 1].0.0,
        ).connection_id is Some {
            1int
        } else {
            0int
        })
    }
}

/// The connected count never decreases and grows by at most one per
/// member.
pub proof fn lemma_connected_count_bounds(st: State, game_id: GameId, a: int, b: int)
    requires
        0 <= a <= b,
    ensures
        connected_count(st, game_id, a) <= connected_count(st, game_id, b),
        connected_count(st, game_id, b) - connected_count(st, game_id, a) <= b - a,
        0 <= connected_count(st, game_id, a),
    decreases b - a,
{
    if a == b {
        lemma_connected_count_nonneg(st, game_id, a);
    } else {
        lemma_connected_count_bounds(st, game_id, a, b - 1);
    }
}

proof fn lemma_connected_count_nonneg(st: State, game_id: GameId, a: int)
    ensures
        0 <= connected_count(st, game_id, a),
    decreases (if a > 0 {
        a
    } else {
        0
    }),
{
    if a > 0 {
        lemma_connected_count_nonneg(st, game_id, a - 1);
    }
}

/// One broadcast message is sound: it goes to the live connection of a
/// member of the game, and it is that member's own state view.
pub open spec fn broadcast_entry_ok(st: State, game_id: GameId, u: UserId, out: Outbound) -> bool {
    &&& st.spec_game(game_id).spec_has_player(u)
    &&& st.spec_has_user(u)
    &&& st.spec_user(u).connection_id == Some(out.to)
    &&& out.msg matches ToClient::State { user_info, game } && user_info.id == u
}

impl State {
    /// Builds the privacy-filtered game view for one user: their
    /// session, if they are in one, with the roster sorted by
    /// identifier and all round data filtered for their team.
    pub fn game_from_user_perspective(&self, user_id: UserId, lists: &Vec<Wordlist>) -> (r: Option<
        GameView,
    >)
        requires
            self.wf(),
            self.spec_has_user(user_id),
        ensures
            r is Some <==> self.spec_user(user_id).game is Some,
            r matches Some(gv) ==> self.spec_user(user_id).game matches Some(gid) && game_view_ok(
                gv,
                gid,
                self.spec_game(gid),
                user_id,
                self.users@,
                lists@,
            ),
    {
        broadcast use vstd::seq_lib::group_to_multiset_ensures;

        let j = match assoc_find(&self.users, user_id.0) {
            Some(j) => j,
            None => {
                return vstd::pervasive::unreached();
            },
        };
        let game_id = match self.users[j].1.game {
            Some(g) => g,
            None => {
                return None;
            },
        };
        proof {
            lemma_assoc_index_unique(self.users@, user_id.0, j as int);
        }
        let gi = match assoc_find(&self.games, game_id.0) {
            Some(i) => i,
            None => {
                return vstd::pervasive::unreached();
            },
        };
        let game = &self.games[gi].1;
        proof {
            lemma_assoc_index_unique(self.games@, game_id.0, gi as int);
        }
        let roster = game.players();
        let mut players: Vec<PlayerInfo> = Vec::new();
        let n = roster.len();
        let mut i: usize = 0;
        while i < n
            invariant
                i <= n,
                n == roster@.len(),
                self.wf(),
                roster@ == self.spec_game(game_id).players_seq(),
                self.spec_has_game(game_id),
                forall|m: int|
                    0 <= m < roster@.len() ==> assoc_has(self.users@, (#[trigger] roster@[m]).0.0),
                players@.len() == i,
                forall|k: int|
                    0 <= k < i ==> player_entry_ok(
                        #[trigger] players@[k],
                        roster@[k],
                        self.users@,
                    ),
            decreases n - i,
        {
            let entry_user = roster[i].0;
            let uj = match assoc_find(&self.users, entry_user.0) {
                Some(uj) => uj,
                None => {
                    return vstd::pervasive::unreached();
                },
            };
            let udata = &self.users[uj].1;
            proof {
                lemma_assoc_index_unique(self.users@, entry_user.0, uj as int);
            }
            let nick = match &udata.nick {
                Some(nk) => nk.clone(),
                None => String::new(),
            };
            let team = match roster[i].1 {
                GamePlayerInfo::InTeam(t) => Some(t),
                _ => None,
            };
            let is_in_game = match roster[i].1 {
                GamePlayerInfo::LeftGame(_) => false,
                _ => true,
            };
            players.push(
                PlayerInfo {
                    id: entry_user,
                    connected: udata.connection_id.is_some(),
                    is_in_game,
                    nick,
                    team,
                },
            );
            i += 1;
        }
        let ghost unsorted = players@;
        let players = sort_players(players);
        proof {
            assert(unsorted.to_multiset().len() == unsorted.len());
            assert(players@.to_multiset().len() == players@.len());
            assert(unsorted.len() == players@.len());
            assert forall|k: int| 0 <= k < players@.len() implies exists|m: int|
                0 <= m < roster@.len() && player_entry_ok(
                    #[trigger] players@[k],
                    roster@[m],
                    self.users@,
                ) by {
                assert(players@.contains(players@[k]));
                assert(players@.to_multiset().count(players@[k]) > 0);
                assert(unsorted.to_multiset().count(players@[k]) > 0);
                assert(unsorted.contains(players@[k]));
                let m = choose|m: int| 0 <= m < unsorted.len() && unsorted[m] == players@[k];
                assert(player_entry_ok(unsorted[m], roster@[m], self.users@));
            }
            assert forall|m: int| 0 <= m < roster@.len() implies exists|k: int|
                0 <= k < players@.len() && player_entry_ok(
                    players@[k],
                    #[trigger] roster@[m],
                    self.users@,
                ) by {
                assert(unsorted.contains(unsorted[m]));
                assert(unsorted.to_multiset().count(unsorted[m]) > 0);
                assert(players@.to_multiset().count(unsorted[m]) > 0);
                assert(players@.contains(unsorted[m]));
                let k = choose|k: int| 0 <= k < players@.len() && players@[k] == unsorted[m];
                assert(player_entry_ok(players@[k], roster@[m], self.users@));
            }
        }
        let state = game_state_view(game, user_id, lists);
        Some(
            GameView {
                id: game_id,
                settings: clone_settings(&game.settings),
                players,
                global_chat: clone_chat(&game.global_chat),
                state,
            },
        )
    }

    /// The freshest state message for one user, addressed to their live
    /// connection; nothing for a disconnected user.
    pub fn state_message_for_user(&self, user_id: UserId, lists: &Vec<Wordlist>) -> (r: Option<
        Outbound,
    >)
        requires
            self.wf(),
            self.spec_has_user(user_id),
        ensures
            r is Some <==> self.spec_user(user_id).connection_id is Some,
            r matches Some(out) ==> {
                &&& Some(out.to) == self.spec_user(user_id).connection_id
                &&& out.msg matches ToClient::State { user_info, game } && {
                    &&& user_info.id == user_id
                    &&& user_info.secret == self.spec_user(user_id).secret
                    &&& user_info.nick == self.spec_user(user_id).nick
                    &&& game is Some <==> self.spec_user(user_id).game is Some
                    &&& game matches Some(gv) ==> self.spec_user(user_id).game matches Some(gid)
                        && game_view_ok(gv, gid, self.spec_game(gid), user_id, self.users@, lists@)
                }
            },
    {
        let j = match assoc_find(&self.users, user_id.0) {
            Some(j) => j,
            None => {
                return vstd::pervasive::unreached();
            },
        };
        proof {
            lemma_assoc_index_unique(self.users@, user_id.0, j as int);
        }
        let connection = match self.users[j].1.connection_id {
            Some(c) => c,
            None => {
                return None;
            },
        };
        let game = self.game_from_user_perspective(user_id, lists);
        let nick = match &self.users[j].1.nick {
            Some(n) => Some(n.clone()),
            None => None,
        };
        let user_info = UserInfo { id: user_id, secret: self.users[j].1.secret, nick };
        Some(Outbound { to: connection, msg: ToClient::State { user_info, game } })
    }

    /// State messages for every connected member of one game: each
    /// message is addressed to that member's own connection and holds
    /// that member's own filtered view.
    pub fn broadcast_game_state(&self, game_id: GameId, lists: &Vec<Wordlist>) -> (r: Vec<Outbound>)
        requires
            self.wf(),
            self.spec_has_game(game_id),
        ensures
            forall|k: int|
                #![trigger r@[k]]
                0 <= k < r@.len() ==> (r@[k].msg matches ToClient::State { user_info, game }
                    && broadcast_entry_ok(*self, game_id, user_info.id, r@[k])),
            r@.len() == connected_count(
                *self,
                game_id,
                self.spec_game(game_id).players_seq().len() as int,
            ),
            forall|m: int|
                #![trigger self.spec_game(game_id).players_seq()[m]]
                0 <= m < self.spec_game(game_id).players_seq().len() && self.spec_user(
                    self.spec_game(game_id).players_seq()[m].0,
                ).connection_id is Some ==> broadcast_entry_ok(
                    *self,
                    game_id,
                    self.spec_game(game_id).players_seq()[m].0,
                    r@[connected_count(*self, game_id, m)],
                ),
    {
        let gi = match assoc_find(&self.games, game_id.0) {
            Some(i) => i,
            None => {
                return vstd::pervasive::unreached();
            },
        };
        proof {
            lemma_assoc_index_unique(self.games@, game_id.0, gi as int);
        }
        let roster = self.games[gi].1.players();
        let n = roster.len();
        let mut r: Vec<Outbound> = Vec::new();
        let mut i: usize = 0;
        while i < n
            invariant
                i <= n,
                n == roster@.len(),
                self.wf(),
                self.spec_has_game(game_id),
                roster@ == self.spec_game(game_id).players_seq(),
                r@.len() == connected_count(*self, game_id, i as int),
                forall|k: int|
                    #![trigger r@[k]]
                    0 <= k < r@.len() ==> (r@[k].msg matches ToClient::State { user_info, game }
                        && broadcast_entry_ok(*self, game_id, user_info.id, r@[k])),
                forall|m: int|
                    #![trigger roster@[m]]
                    0 <= m < i && self.spec_user(roster@[m].0).connection_id is Some
                        ==> broadcast_entry_ok(
                        *self,
                        game_id,
                        roster@[m].0,
                        r@[connected_count(*self, game_id, m)],
                    ),
            decreases n - i,
        {
            let user_id = roster[i].0;
            proof {
                assert(crate::game::roster_has(roster@, user_id));
                let gidx = assoc_index(self.games@, game_id.0);
                assert(self.games@[gidx].1.players_seq()[i as int].0 == user_id);
            }
            let ghost r0 = r@;
            if let Some(out) = self.state_message_for_user(user_id, lists) {
                let ghost outg = out;
                r.push(out);
                proof {
                    assert(r@.last() == outg);
                    assert(self.spec_game(game_id).spec_has_player(user_id));
                    assert(broadcast_entry_ok(*self, game_id, user_id, r@[r@.len() - 1]));
                }
            }
            proof {
                assert(connected_count(*self, game_id, i + 1) == connected_count(
                    *self,
                    game_id,
                    i as int,
                ) + (if self.spec_user(roster@[i as int].0).connection_id is Some {
                    1int
                } else {
                    0int
                }));
                assert forall|m: int|
                    #![trigger roster@[m]]
                    0 <= m < i + 1 && self.spec_user(roster@[m].0).connection_id is Some implies
                    broadcast_entry_ok(
                    *self,
                    game_id,
                    roster@[m].0,
                    r@[connected_count(*self, game_id, m)],
                ) by {
                    if m < i {
                        assert(connected_count(*self, game_id, m + 1) == connected_count(
                            *self,
                            game_id,
                            m,
                        ) + 1);
                        lemma_connected_count_bounds(*self, game_id, m + 1, i as int);
                        lemma_connected_count_bounds(*self, game_id, 0, m);
                        assert(connected_count(*self, game_id, m) < r0.len());
                        assert(r@[connected_count(*self, game_id, m)] == r0[connected_count(
                            *self,
                            game_id,
                            m,
                        )]);
                    } else {
                        lemma_connected_count_bounds(*self, game_id, 0, m);
                        assert(r@[connected_count(*self, game_id, m)] == r@[r@.len() - 1]);
                    }
                }
            }
            i += 1;
        }
        r
    }
}

fn clone_settings(s: &crate::settings::GameSettings) -> (r: crate::settings::GameSettings)
    ensures
        r == *s,
{
    crate::settings::GameSettings {
        round_limit: s.round_limit,
        keyword_count: s.keyword_count,
        clue_count: s.clue_count,
        clue_mode: s.clue_mode,
        wordlist: s.wordlist.clone(),
        miscommunication_limit: s.miscommunication_limit,
        intercept_limit: s.intercept_limit,
        tiebreaker: s.tiebreaker,
        encrypt_time_limit: s.encrypt_time_limit,
        guess_time_limit: s.guess_time_limit,
        tiebreaker_time_limit: s.tiebreaker_time_limit,
    }
}

fn clone_chat(v: &Vec<crate::message::ChatMessage>) -> (r: Vec<crate::message::ChatMessage>)
    ensures
        r@ == v@,
{
    let mut r: Vec<crate::message::ChatMessage> = Vec::new();
    let n = v.len();
    let mut i: usize = 0;
    while i < n
        invariant
            i <= n,
            n == v@.len(),
            r@.len() == i,
            forall|k: int| 0 <= k < i ==> r@[k] == v@[k],
        decreases n - i,
    {
        let m = &v[i];
        r.push(crate::message::ChatMessage { author: m.author, text: m.text.clone() });
        i += 1;
    }
    proof {
        assert(r@ =~= v@);
    }
    r
}

/// Every available word source carries distinct entries, as the word
/// source collaborator promises.
pub open spec fn wordlists_wf(lists: Seq<Wordlist>) -> bool {
    forall|i: int|
        0 <= i < lists.len() ==> forall|p: int, q: int|
            0 <= p < q < (#[trigger] lists[i]).words@.len() ==> lists[i].words@[p]@
                != lists[i].words@[q]@
}

fn error_to(id: ConnectionId, text: &str, severity: crate::message::ErrorSeverity) -> (o: Outbound)
    ensures
        o.to == id,
        o.msg matches ToClient::Error { message, severity: s2 } && message@ == text@ && s2
            == severity,
{
    Outbound {
        to: id,
        msg: ToClient::Error { message: String::from_str(text), severity },
    }
}

fn info_to(id: ConnectionId, text: &str) -> (o: Outbound)
    ensures
        o.to == id,
        o.msg matches ToClient::Error { message, severity } && message@ == text@ && severity
            == crate::message::ErrorSeverity::Info,
{
    error_to(id, text, crate::message::ErrorSeverity::Info)
}

fn info_string_to(id: ConnectionId, text: String) -> (o: Outbound)
    ensures
        o.to == id,
        o.msg matches ToClient::Error { message, severity } && message == text && severity
            == crate::message::ErrorSeverity::Info,
{
    Outbound {
        to: id,
        msg: ToClient::Error { message: text, severity: crate::message::ErrorSeverity::Info },
    }
}

/// The chat label of a user: their identifier in angle brackets.
fn user_label(u: UserId) -> (r: String)
    ensures
        r@ == "<@"@ + crate::textutil::dec_str(u.0 as nat) + ">"@,
{
    let mut s = String::from_str("<@");
    crate::textutil::append_decimal(&mut s, u.0);
    s.append(">");
    proof {
        assert(s@ =~= "<@"@ + crate::textutil::dec_str(u.0 as nat) + ">"@);
    }
    s
}

fn user_event_text(u: UserId, suffix: &str) -> (r: String)
    ensures
        r@ == "<@"@ + crate::textutil::dec_str(u.0 as nat) + ">"@ + suffix@,
{
    let mut s = user_label(u);
    s.append(suffix);
    s
}

fn team_label(t: crate::team::Team) -> (r: String)
    ensures
        t.0 ==> r@ == "team:1"@,
        !t.0 ==> r@ == "team:0"@,
{
    if t.0 {
        String::from_str("team:1")
    } else {
        String::from_str("team:0")
    }
}

fn round_result_text(rr: crate::round::RoundResult) -> String {
    let mut s = String::from_str(
        if rr.decipher {
            "decipher ok"
        } else {
            "decipher failed"
        },
    );
    match rr.intercept {
        Some(true) => s.append(", intercept ok"),
        Some(false) => s.append(", intercept failed"),
        None => (),
    }
    s
}

fn round_score_text(score: &crate::team::PerTeam<crate::round::RoundResult>) -> String {
    let mut s = String::from_str("Round ended, scores:\n<team:0>: ");
    s.append(round_result_text(score.white).as_str());
    s.append("\n<team:1>: ");
    s.append(round_result_text(score.black).as_str());
    s
}

/// The index of a word source with the given name and enough words to
/// start a game with the given keyword count.
fn find_usable_wordlist(lists: &Vec<Wordlist>, name: &String, kc: usize) -> (r: Option<usize>)
    ensures
        r matches Some(i) ==> i < lists@.len() && lists@[i as int].name@ == name@
            && lists@[i as int].words@.len() >= 2 * kc,
        r is None ==> forall|i: int|
            0 <= i < lists@.len() ==> !((#[trigger] lists@[i]).name@ == name@
                && lists@[i].words@.len() >= 2 * kc),
{
    let n = lists.len();
    let mut i: usize = 0;
    while i < n
        invariant
            i <= n,
            n == lists@.len(),
            forall|m: int|
                0 <= m < i ==> !((#[trigger] lists@[m]).name@ == name@ && lists@[m].words@.len()
                    >= 2 * kc),
        decreases n - i,
    {
        if lists[i].name == *name {
            if lists[i].words.len() / 2 >= kc {
                proof {
                    assert(lists@[i as int].words@.len() >= 2 * kc) by (nonlinear_arith)
                        requires
                            lists@[i as int].words.len() / 2 >= kc,
                    ;
                }
                return Some(i);
            }
            proof {
                assert(lists@[i as int].words@.len() < 2 * kc) by (nonlinear_arith)
                    requires
                        lists@[i as int].words.len() / 2 < kc,
                ;
            }
        }
        i += 1;
    }
    None
}

impl State {
    /// The user a connection speaks for, if it has authenticated.
    fn auth_user(&self, id: ConnectionId) -> (r: Option<UserId>)
        requires
            self.wf(),
            self.spec_has_client(id),
        ensures
            r == self.spec_client(id).authenticated_as,
            r matches Some(u) ==> self.spec_has_user(u),
    {
        let i = match assoc_find(&self.clients, id.0) {
            Some(i) => i,
            None => {
                return vstd::pervasive::unreached();
            },
        };
        let r = self.clients[i].1.authenticated_as;
        proof {
            if r is Some {
                assert(self.clients@[i as int].1.authenticated_as is Some);
            }
        }
        r
    }

    /// The game a user has joined, as an index into the directory's
    /// game list.
    fn resolve_game(&self, user_id: UserId) -> (r: Option<(usize, GameId)>)
        requires
            self.wf(),
            self.spec_has_user(user_id),
        ensures
            r is Some <==> self.spec_user(user_id).game is Some,
            r matches Some((gi, gid)) ==> {
                &&& self.spec_user(user_id).game == Some(gid)
                &&& gi < self.games@.len()
                &&& self.games@[gi as int].0 == gid.0
                &&& gi as int == assoc_index(self.games@, gid.0)
                &&& self.spec_has_game(gid)
            },
    {
        let j = match assoc_find(&self.users, user_id.0) {
            Some(j) => j,
            None => {
                return vstd::pervasive::unreached();
            },
        };
        let gid = match self.users[j].1.game {
            Some(g) => g,
            None => {
                return None;
            },
        };
        proof {
            assert(self.users@[j as int].1.game == Some(gid));
        }
        let gi = match assoc_find(&self.games, gid.0) {
            Some(i) => i,
            None => {
                return vstd::pervasive::unreached();
            },
        };
        Some((gi, gid))
    }

    /// Replaces a user's record, keeping the key.
    fn put_user(&mut self, j: usize, user_id: UserId, data: UserData)
        requires
            old(self).wf(),
            j < old(self).users@.len(),
            old(self).users@[j as int].0 == user_id.0,
            data.game matches Some(g) ==> old(self).spec_has_game(g) && old(self).spec_game(
                g,
            ).spec_has_player(user_id),
        ensures
            final(self).wf(),
            final(self).clients == old(self).clients,
            final(self).games == old(self).games,
            final(self).users@ == old(self).users@.update(j as int, (user_id.0, data)),
            final(self).spec_user(user_id) == data,
            final(self).spec_has_user(user_id),
            forall|u2: UserId|
                #![trigger final(self).spec_has_user(u2)]
                #![trigger final(self).spec_user(u2)]
                u2 != user_id ==> (final(self).spec_has_user(u2) == old(self).spec_has_user(u2) && (
                old(self).spec_has_user(u2) ==> final(self).spec_user(u2) == old(self).spec_user(
                    u2,
                ))),
    {
        proof {
            lemma_assoc_update_frame(self.users@, j as int, data);
        }
        let _ = assoc_replace(&mut self.users, j, user_id.0, data);
    }

    /// Takes a game out of the directory for mutation; `restore_game`
    /// must put it back under the same key before the directory is
    /// used again.
    fn take_game(&mut self, gi: usize, gid: GameId) -> (g: GameInfo)
        requires
            old(self).wf(),
            gi < old(self).games@.len(),
            old(self).games@[gi as int].0 == gid.0,
        ensures
            g == old(self).games@[gi as int].1,
            g == old(self).spec_game(gid),
            g.wf(),
            final(self).clients == old(self).clients,
            final(self).users == old(self).users,
            final(self).games@ == old(self).games@.update(
                gi as int,
                (gid.0, final(self).games@[gi as int].1),
            ),
            final(self).games@.len() == old(self).games@.len(),
            final(self).games@[gi as int].0 == gid.0,
            final(self).spec_has_game(gid),
            keys_unique(final(self).games@),
            forall|g2: GameId|
                #![trigger final(self).spec_has_game(g2)]
                #![trigger final(self).spec_game(g2)]
                g2 != gid ==> (final(self).spec_has_game(g2) == old(self).spec_has_game(g2) && (
                old(self).spec_has_game(g2) ==> final(self).spec_game(g2) == old(self).spec_game(
                    g2,
                ))),
    {
        let placeholder = GameInfo::default();
        proof {
            lemma_assoc_index_unique(self.games@, gid.0, gi as int);
            lemma_assoc_update_frame(self.games@, gi as int, placeholder);
        }
        assoc_replace(&mut self.games, gi, gid.0, placeholder)
    }

    /// Puts a taken game back under its key, re-establishing the
    /// directory invariant: the mutation may not have dropped any
    /// roster entry the books rely on, and may only have added roster
    /// entries for known users.
    fn restore_game(&mut self, gi: usize, gid: GameId, g: GameInfo, Ghost(pre): Ghost<State>)
        requires
            pre.wf(),
            gi < pre.games@.len(),
            pre.games@[gi as int].0 == gid.0,
            old(self).users == pre.users,
            old(self).clients == pre.clients,
            old(self).games@ == pre.games@.update(
                gi as int,
                (gid.0, old(self).games@[gi as int].1),
            ),
            g.wf(),
            forall|u: UserId|
                #![trigger g.spec_has_player(u)]
                pre.spec_game(gid).spec_has_player(u) ==> g.spec_has_player(u),
            forall|m: int|
                0 <= m < g.players_seq().len() ==> assoc_has(
                    pre.users@,
                    ((#[trigger] g.players_seq()[m]).0).0,
                ),
        ensures
            final(self).wf(),
            final(self).clients == pre.clients,
            final(self).users == pre.users,
            final(self).games@ == pre.games@.update(gi as int, (gid.0, g)),
            final(self).spec_has_game(gid),
            final(self).spec_game(gid) == g,
            forall|g2: GameId|
                #![trigger final(self).spec_has_game(g2)]
                #![trigger final(self).spec_game(g2)]
                g2 != gid ==> (final(self).spec_has_game(g2) == pre.spec_has_game(g2) && (
                pre.spec_has_game(g2) ==> final(self).spec_game(g2) == pre.spec_game(g2))),
    {
        proof {
            assert(keys_unique(self.games@)) by {
                assert(forall|m: int|
                    0 <= m < self.games@.len() ==> (#[trigger] self.games@[m]).0
                        == pre.games@[m].0);
            }
            lemma_assoc_update_frame(self.games@, gi as int, g);
        }
        let _ = assoc_replace(&mut self.games, gi, gid.0, g);
        proof {
            assert(self.games@ =~= pre.games@.update(gi as int, (gid.0, g)));
            lemma_assoc_index_unique(self.games@, gid.0, gi as int);
            assert forall|g2: GameId|
                #![trigger self.spec_has_game(g2)]
                #![trigger self.spec_game(g2)]
                g2 != gid implies (self.spec_has_game(g2) == pre.spec_has_game(g2) && (
            pre.spec_has_game(g2) ==> self.spec_game(g2) == pre.spec_game(g2))) by {
                if assoc_has(pre.games@, g2.0) {
                    let m = assoc_index(pre.games@, g2.0);
                    assert(pre.games@[m].0 == g2.0);
                    assert(self.games@[m].0 == g2.0);
                    lemma_assoc_index_unique(self.games@, g2.0, m);
                    lemma_assoc_index_unique(pre.games@, g2.0, m);
                }
                if assoc_has(self.games@, g2.0) {
                    let m = assoc_index(self.games@, g2.0);
                    assert(pre.games@[m].0 == g2.0);
                }
            }
            assert forall|i: int|
                0 <= i < self.users@.len() implies ((#[trigger] self.users@[i]).1.game
                matches Some(g2) ==> {
                &&& assoc_has(self.games@, g2.0)
                &&& assoc_val(self.games@, g2.0).spec_has_player(UserId(self.users@[i].0))
            }) by {
                match self.users@[i].1.game {
                    Some(g2) => {
                        assert(pre.users@[i].1.game == Some(g2));
                        assert(assoc_has(pre.games@, g2.0));
                        if g2 == gid {
                            assert(pre.spec_game(gid).spec_has_player(UserId(pre.users@[i].0)));
                            assert(self.spec_game(gid) == g);
                        } else {
                            let m = assoc_index(pre.games@, g2.0);
                            assert(pre.games@[m].0 == g2.0);
                            assert(self.games@[m].0 == g2.0);
                            lemma_assoc_index_unique(self.games@, g2.0, m);
                            lemma_assoc_index_unique(pre.games@, g2.0, m);
                        }
                    },
                    None => {},
                }
            }
            assert forall|i: int|
                0 <= i < self.games@.len() implies (#[trigger] self.games@[i]).1.wf() by {
                if i != gi {
                    assert(self.games@[i] == pre.games@[i]);
                    assert(pre.games@[i].1.wf());
                }
            }
            assert forall|i: int, m: int|
                0 <= i < self.games@.len() && 0 <= m < self.games@[i].1.players_seq().len() implies
                assoc_has(self.users@, ((#[trigger] self.games@[i].1.players_seq()[m]).0).0) by {
                if i == gi {
                    assert(self.games@[i].1 == g);
                } else {
                    assert(self.games@[i] == pre.games@[i]);
                    assert(assoc_has(
                        pre.users@,
                        ((pre.games@[i].1.players_seq()[m]).0).0,
                    ));
                }
            }
        }
    }
}
/// One rejection reply: a single Info-severity error with the given
/// text, addressed to the offending connection.
pub open spec fn info_reply(out: Seq<Outbound>, id: ConnectionId, text: Seq<char>) -> bool {
    &&& out.len() == 1
    &&& out[0].to == id
    &&& out[0].msg matches ToClient::Error { message, severity } && message@ == text && severity
        == ErrorSeverity::Info
}

/// The team a game records for a user, if any.
pub open spec fn member_team(st: State, gid: GameId, u: UserId) -> Option<Team> {
    if st.spec_game(gid).spec_has_player(u) {
        st.spec_game(gid).spec_player_info(u).spec_team_of()
    } else {
        None
    }
}

/// The reply to an action that needs a game from a user not in one:
/// a single report, nothing changed.
pub open spec fn not_in_game_reply(
    pre: State,
    post: State,
    out: Seq<Outbound>,
    id: ConnectionId,
) -> bool {
    post == pre && info_reply(out, id, "You are not in a game"@)
}

/// Everything authentication promises: the games stay; the connection
/// ends up bound to a known, connected user; a secret held by some
/// user binds only to a holder of that secret, creating nobody; and an
/// unrecognized or absent secret binds a brand-new, empty user — never
/// an existing identity — unless even the deterministic fallback key is
/// taken.
pub open spec fn auth_post(
    pre: State,
    post: State,
    out: Seq<Outbound>,
    id: ConnectionId,
    secret: Option<UserSecret>,
) -> bool {
    &&& post.games == pre.games
    &&& post.spec_has_client(id)
    &&& post.spec_client(id).authenticated_as matches Some(u) && post.spec_has_user(u)
        && post.spec_user(u).connection_id == Some(id)
    &&& (secret matches Some(s) ==> ((exists|i: int|
        0 <= i < pre.users@.len() && (#[trigger] pre.users@[i]).1.secret == s) ==> (
    post.spec_client(id).authenticated_as matches Some(u) ==> (pre.spec_has_user(u)
        && pre.spec_user(u).secret == s))))
    &&& (secret matches Some(s) ==> ((exists|i: int|
        0 <= i < pre.users@.len() && (#[trigger] pre.users@[i]).1.secret == s) ==> (
    post.users@.len() == pre.users@.len() && forall|i: int|
        0 <= i < pre.users@.len() ==> (#[trigger] post.users@[i]).0 == pre.users@[i].0)))
    &&& ((match secret {
        Some(s) => forall|i: int|
            0 <= i < pre.users@.len() ==> (#[trigger] pre.users@[i]).1.secret != s,
        None => true,
    }) ==> (post.spec_client(id).authenticated_as matches Some(u) ==> ((!pre.spec_has_user(u)
        && post.spec_user(u).nick is None && post.spec_user(u).game is None) || pre.spec_has_user(
        UserId(u128::MAX),
    ))))
}

/// Everything a rename promises: a nickname outside 2 to 64 characters
/// is reported and changes nothing; otherwise exactly the nickname
/// changes, on exactly that user.
pub open spec fn set_nick_post(
    pre: State,
    post: State,
    out: Seq<Outbound>,
    id: ConnectionId,
    u: UserId,
    nick: String,
) -> bool {
    &&& post.clients == pre.clients
    &&& !(2 <= nick@.len() <= 64) ==> (post.users == pre.users && post.games == pre.games
        && info_reply(out, id, "Nickname must be between 2 and 64 characters"@))
    &&& 2 <= nick@.len() <= 64 ==> {
        &&& post.spec_user(u).nick == Some(nick)
        &&& post.spec_user(u).game == pre.spec_user(u).game
        &&& post.spec_user(u).connection_id == pre.spec_user(u).connection_id
        &&& post.spec_user(u).secret == pre.spec_user(u).secret
    }
}

/// Everything lobby creation promises: a user already in a game is
/// reported and changes nothing; otherwise a fresh lobby exists with
/// them as its only, team-less member and their game link set — unless
/// even the deterministic fallback key is taken.
pub open spec fn create_lobby_post(
    pre: State,
    post: State,
    out: Seq<Outbound>,
    id: ConnectionId,
    u: UserId,
) -> bool {
    &&& post.clients == pre.clients
    &&& pre.spec_user(u).game is Some ==> (post == pre && info_reply(
        out,
        id,
        "You are already in a game"@,
    ))
    &&& pre.spec_user(u).game is None ==> ((post.spec_user(u).game matches Some(gid)
        && !pre.spec_has_game(gid) && post.spec_has_game(gid) && post.spec_game(
        gid,
    ).spec_has_player(u) && post.spec_game(gid).state is Lobby) || (post == pre
        && pre.spec_has_game(GameId(u128::MAX))))
}

/// Everything joining a lobby promises: an unknown game is reported and
/// changes nothing; a newcomer is added team-less and linked; a member
/// of a game still forming is reset to team-less and linked; in a
/// running game, a departed player with a recorded team returns to
/// exactly that team and is linked, while anyone else is refused with
/// no change.
pub open spec fn join_lobby_post(
    pre: State,
    post: State,
    out: Seq<Outbound>,
    id: ConnectionId,
    u: UserId,
    gid: GameId,
) -> bool {
    &&& post.clients == pre.clients
    &&& !pre.spec_has_game(gid) ==> (post == pre && info_reply(out, id, "Game not found"@))
    &&& (pre.spec_has_game(gid) && !pre.spec_game(gid).spec_has_player(u)) ==> (post.spec_game(
        gid,
    ).spec_has_player(u) && post.spec_game(gid).spec_player_info(u) == GamePlayerInfo::NotInTeam
        && post.spec_user(u).game == Some(gid))
    &&& (pre.spec_has_game(gid) && pre.spec_game(gid).spec_has_player(u) && !(pre.spec_game(
        gid,
    ).state matches GameInfoState::InGame { .. })) ==> (post.spec_game(gid).spec_player_info(u)
        == GamePlayerInfo::NotInTeam && post.spec_user(u).game == Some(gid))
    &&& (pre.spec_has_game(gid) && pre.spec_game(gid).spec_has_player(u) && pre.spec_game(
        gid,
    ).state matches GameInfoState::InGame { .. }) ==> (match pre.spec_game(gid).spec_player_info(
        u,
    ) {
        GamePlayerInfo::LeftGame(Some(team)) => post.spec_game(gid).spec_player_info(u)
            == GamePlayerInfo::InTeam(team) && post.spec_user(u).game == Some(gid),
        _ => post == pre,
    })
}

/// Everything leaving a game promises: the game link is cleared and the
/// membership becomes departed, keeping the recorded team unless the
/// game is still a lobby.
pub open spec fn leave_lobby_post(
    pre: State,
    post: State,
    out: Seq<Outbound>,
    id: ConnectionId,
    u: UserId,
) -> bool {
    &&& post.clients == pre.clients
    &&& post.spec_user(u).game is None
    &&& pre.spec_user(u).game matches Some(gid) ==> post.spec_game(gid).spec_player_info(u)
        == GamePlayerInfo::LeftGame(
        if pre.spec_game(gid).state is Lobby {
            None
        } else {
            pre.spec_game(gid).spec_player_info(u).spec_team_of()
        },
    )
}

/// Everything a team choice promises: refused with a report and no
/// change once the game runs, else the membership becomes exactly that
/// team.
pub open spec fn join_team_post(
    pre: State,
    post: State,
    out: Seq<Outbound>,
    id: ConnectionId,
    u: UserId,
    team: Team,
) -> bool {
    &&& post.clients == pre.clients
    &&& post.users == pre.users
    &&& pre.spec_user(u).game matches Some(gid) ==> {
        &&& !(pre.spec_game(gid).state is Lobby) ==> (post == pre && info_reply(
            out,
            id,
            "Cannot change teams while in game"@,
        ))
        &&& pre.spec_game(gid).state is Lobby ==> post.spec_game(gid).spec_player_info(u)
            == GamePlayerInfo::InTeam(team)
    }
}

/// Everything a kick promises: a target absent from the game, or still
/// connected, is reported and changes nothing; otherwise the target's
/// membership becomes departed (keeping the recorded team unless the
/// game is still a lobby) and their game link is cleared.
pub open spec fn kick_post(
    pre: State,
    post: State,
    out: Seq<Outbound>,
    id: ConnectionId,
    u: UserId,
    target: UserId,
) -> bool {
    &&& post.clients == pre.clients
    &&& pre.spec_user(u).game matches Some(gid) ==> {
        &&& !pre.spec_game(gid).spec_has_player(target) ==> (post == pre && info_reply(
            out,
            id,
            "User not in game"@,
        ))
        &&& (pre.spec_game(gid).spec_has_player(target) && pre.spec_has_user(target)
            && pre.spec_user(target).connection_id is Some) ==> (post == pre && info_reply(
            out,
            id,
            "You can only kick users that are not connected"@,
        ))
        &&& (pre.spec_game(gid).spec_has_player(target) && pre.spec_has_user(target)
            && pre.spec_user(target).connection_id is None) ==> (post.spec_game(
            gid,
        ).spec_player_info(target) == GamePlayerInfo::LeftGame(
            if pre.spec_game(gid).state is Lobby {
                None
            } else {
                pre.spec_game(gid).spec_player_info(target).spec_team_of()
            },
        ) && post.spec_user(target).game is None)
    }
}

/// Everything a chat message promises: an oversized message is reported
/// and changes nothing; otherwise exactly it is appended to the game's
/// log under the sender's name.
pub open spec fn global_chat_post(
    pre: State,
    post: State,
    out: Seq<Outbound>,
    id: ConnectionId,
    u: UserId,
    message: String,
) -> bool {
    &&& post.clients == pre.clients
    &&& post.users == pre.users
    &&& message@.len() >= 4096 ==> (post == pre && info_reply(out, id, "Message too long"@))
    &&& pre.spec_user(u).game matches Some(gid) ==> (message@.len() < 4096 ==> post.spec_game(
        gid,
    ).global_chat@ == pre.spec_game(gid).global_chat@.push(
        (crate::message::ChatMessage { author: Some(u), text: message }),
    ))
}

/// Everything a fresh game start promises of the game it acted on: the
/// roster and settings stay; the state becomes a first normal round
/// with keywords drawn from the configured word source, an encryptor
/// from each team's current members, fresh well-formed codes, nothing
/// submitted, and the fixed encrypt deadline armed if configured.
pub open spec fn game_started_ok(
    pre: GameInfo,
    post: GameInfo,
    lists: Seq<Wordlist>,
    now: u64,
) -> bool {
    &&& post.players_seq() == pre.players_seq()
    &&& post.settings == pre.settings
    &&& post.state matches GameInfoState::InGame {
        keywords,
        completed_rounds,
        current_round: crate::game::GameInfoStateCurrentRound::Normal(round),
        deadlines,
    } && {
        &&& (exists|wi: int|
            0 <= wi < lists.len() && (#[trigger] lists[wi]).name@ == pre.settings.wordlist@
                && keywords_drawn(keywords, lists[wi].words@, pre.settings.keyword_count))
        &&& completed_rounds@.len() == 0
        &&& team_members(pre.players_seq(), Team(false)).contains(round.white.encryptor)
        &&& team_members(pre.players_seq(), Team(true)).contains(round.black.encryptor)
        &&& fresh_round_for(round.white, round.white.encryptor, pre.settings)
        &&& fresh_round_for(round.black, round.black.encryptor, pre.settings)
        &&& deadlines.white == spec_fixed_deadline(pre.settings.encrypt_time_limit.fixed, now)
        &&& deadlines.black == spec_fixed_deadline(pre.settings.encrypt_time_limit.fixed, now)
    }
}

/// Everything a start request promises: a game that cannot start yet
/// only has its first failing reason reported back, with no change;
/// otherwise the game starts as `game_started_ok` says.
pub open spec fn start_game_post(
    pre: State,
    post: State,
    out: Seq<Outbound>,
    id: ConnectionId,
    u: UserId,
    lists: Seq<Wordlist>,
    now: u64,
) -> bool {
    &&& post.clients == pre.clients
    &&& post.users == pre.users
    &&& pre.spec_user(u).game matches Some(gid) ==> {
        &&& !pre.spec_game(gid).spec_startable(lists) ==> (post == pre && info_reply(
            out,
            id,
            pre.spec_game(gid).spec_startable_error(lists),
        ))
        &&& pre.spec_game(gid).spec_startable(lists) ==> game_started_ok(
            pre.spec_game(gid),
            post.spec_game(gid),
            lists,
            now,
        )
    }
}

/// Everything a clue submission promises: a sender without a team, or
/// one the game's gate refuses, is reported with no state change; an
/// accepted submission stores exactly those clues in the sender's
/// team's slot of the running round.
pub open spec fn submit_clues_post(
    pre: State,
    post: State,
    out: Seq<Outbound>,
    id: ConnectionId,
    u: UserId,
    clues: Vec<Clue>,
) -> bool {
    &&& post.clients == pre.clients
    &&& post.users == pre.users
    &&& pre.spec_user(u).game matches Some(gid) ==> (match member_team(pre, gid, u) {
        None => post == pre && info_reply(out, id, "You are not in a team"@),
        Some(team) => if pre.spec_game(gid).spec_can_submit_clues(
            u,
            team,
            clues@.len() as int,
        ) {
            post.spec_game(gid).spec_current_normal_round() matches Some(r2) && r2.spec_get(
                team,
            ).clues == Some(clues)
        } else {
            state_eq(post, pre) && info_reply(
                out,
                id,
                pre.spec_game(gid).spec_submit_clues_error(u, team, clues@.len() as int),
            )
        },
    })
}

/// Everything a decipher or intercept submission promises: a sender
/// without a team, or one the game's gate refuses (the encryptor, a
/// wrong length, a duplicate, the first round for intercepts), is
/// reported with no state change; an accepted attempt is stored and
/// the round advanced exactly as `round_advance_ok` says.
pub open spec fn submit_guess_post(
    pre: State,
    post: State,
    out: Seq<Outbound>,
    id: ConnectionId,
    u: UserId,
    attempt: Code,
    decipher: bool,
    now: u64,
) -> bool {
    &&& post.clients == pre.clients
    &&& post.users == pre.users
    &&& pre.spec_user(u).game matches Some(gid) ==> (match member_team(pre, gid, u) {
        None => post == pre && info_reply(out, id, "You are not in a team"@),
        Some(team) => {
            let n = attempt@.len() as int;
            let can = if decipher {
                pre.spec_game(gid).spec_can_submit_decipher(u, team, n)
            } else {
                pre.spec_game(gid).spec_can_submit_intercept(u, team, n)
            };
            if can {
                exists|res: Option<PerTeam<RoundResult>>|
                    round_advance_ok(
                        game_with_guess(pre.spec_game(gid), team, attempt, decipher),
                        post.spec_game(gid),
                        res,
                        now,
                    )
            } else {
                state_eq(post, pre) && info_reply(
                    out,
                    id,
                    if decipher {
                        pre.spec_game(gid).spec_submit_decipher_error(u, team, n)
                    } else {
                        pre.spec_game(gid).spec_submit_intercept_error(u, team, n)
                    },
                )
            }
        },
    })
}

/// Everything a tiebreaker submission promises: a sender without a
/// team, or a submission the game refuses, is reported with no state
/// change; an accepted submission leaves the game either still in the
/// tiebreaker with exactly those guesses stored for the team, or
/// resolved.
pub open spec fn submit_tiebreaker_post(
    pre: State,
    post: State,
    out: Seq<Outbound>,
    id: ConnectionId,
    u: UserId,
    guesses: Vec<String>,
) -> bool {
    &&& post.clients == pre.clients
    &&& post.users == pre.users
    &&& pre.spec_user(u).game matches Some(gid) ==> (match member_team(pre, gid, u) {
        None => post == pre && info_reply(out, id, "You are not in a team"@),
        Some(team) => if pre.spec_game(gid).spec_can_submit_tiebreaker(
            team,
            guesses@.len() as int,
        ) {
            ||| (post.spec_game(gid).spec_current_tiebreaker() matches Some(tb2) && tb2.spec_get(
                team,
            ).guesses@.len() == guesses@.len() && (forall|i: int|
                0 <= i < guesses@.len() ==> tb2.spec_get(team).guesses@[i] == Some(guesses@[i])))
            ||| post.spec_game(gid).state matches GameInfoState::GameOver { .. }
        } else {
            state_eq(post, pre) && info_reply(
                out,
                id,
                pre.spec_game(gid).spec_submit_tiebreaker_error(team, guesses@.len() as int),
            )
        },
    })
}

/// Everything a timer check promises: outside a running game it is
/// reported with no change; otherwise every expired deadline is
/// enforced exactly as `deadlines_enforced_ok` says.
pub open spec fn trigger_timers_post(
    pre: State,
    post: State,
    out: Seq<Outbound>,
    id: ConnectionId,
    u: UserId,
    now: u64,
) -> bool {
    &&& post.clients == pre.clients
    &&& post.users == pre.users
    &&& pre.spec_user(u).game matches Some(gid) ==> {
        &&& !(pre.spec_game(gid).state matches GameInfoState::InGame { .. }) ==> (post == pre
            && info_reply(out, id, "Game not in progress"@))
        &&& (pre.spec_game(gid).state matches GameInfoState::InGame { .. })
            ==> deadlines_enforced_ok(pre.spec_game(gid), post.spec_game(gid), now)
    }
}

/// Everything a frustration request promises: outside a running normal
/// round it is reported with no change; otherwise each named team is
/// handled exactly as `frustration_ok` says — expired deadlines
/// enforced on the spot, others given the grace-period timer.
pub open spec fn frustrated_post(
    pre: State,
    post: State,
    out: Seq<Outbound>,
    id: ConnectionId,
    u: UserId,
    encrypting: bool,
    teams: PerTeam<bool>,
    now: u64,
) -> bool {
    &&& post.clients == pre.clients
    &&& post.users == pre.users
    &&& pre.spec_user(u).game matches Some(gid) ==> {
        &&& !(pre.spec_game(gid).state matches GameInfoState::InGame { .. }) ==> (post == pre
            && info_reply(out, id, "Game not in progress"@))
        &&& ((pre.spec_game(gid).state matches GameInfoState::InGame { .. }) && pre.spec_game(
            gid,
        ).spec_current_normal_round() is None) ==> (post == pre && info_reply(
            out,
            id,
            "No round in progress"@,
        ))
        &&& pre.spec_game(gid).spec_current_normal_round() is Some ==> frustration_ok(
            pre.spec_game(gid),
            post.spec_game(gid),
            encrypting,
            teams,
            now,
        )
    }
}

impl State {
    /// Authenticates a connection: a recognized secret reattaches its
    /// user; anything else creates a fresh user with a fresh secret.
    /// Either way the connection ends up authenticated as a known,
    /// connected user, who is sent their current state.
    #[verifier::rlimit(60)]
    fn handle_auth(&mut self, id: ConnectionId, secret: Option<UserSecret>, lists: &Vec<Wordlist>)
        -> (out: Vec<Outbound>)
        requires
            old(self).wf(),
            old(self).spec_has_client(id),
        ensures
            final(self).wf(),
            auth_post(*old(self), *final(self), out@, id, secret),
    {
        let mut out: Vec<Outbound> = Vec::new();
        let recognized = match secret {
            Some(s) => self.find_client_by_secret(s),
            None => None,
        };
        if secret.is_some() && recognized.is_none() {
            out.push(info_to(id, "Your previous session has expired"));
        }
        let user_id = match recognized {
            Some(user_id) => {
                let j = match assoc_find(&self.users, user_id.0) {
                    Some(j) => j,
                    None => {
                        return vstd::pervasive::unreached();
                    },
                };
                let mut ud = clone_user_data(&self.users[j].1);
                ud.connection_id = Some(id);
                proof {
                    match ud.game {
                        Some(g) => {
                            assert(old(self).users@[j as int].1.game == Some(g));
                        },
                        None => {},
                    }
                }
                self.put_user(j, user_id, ud);
                user_id
            },
            None => {
                let mut user_id = UserId::new();
                let secret = UserSecret::new();
                let ud = UserData {
                    connection_id: Some(id),
                    secret,
                    nick: None,
                    game: None,
                };
                match assoc_find(&self.users, user_id.0) {
                    Some(j) => {
                        // The random identifier collided; take a key the
                        // directory provably does not use, and only if
                        // even that is impossible reuse the record.
                        match crate::assoc::assoc_fresh_key(&self.users) {
                            Some(k) => {
                                user_id = UserId(k);
                                proof {
                                    lemma_assoc_push_frame(self.users@, user_id.0, ud);
                                }
                                self.users.push((user_id.0, ud));
                            },
                            None => {
                                self.put_user(j, user_id, ud);
                            },
                        }
                    },
                    None => {
                        proof {
                            lemma_assoc_push_frame(self.users@, user_id.0, ud);
                        }
                        self.users.push((user_id.0, ud));
                    },
                }
                user_id
            },
        };
        let ci = match assoc_find(&self.clients, id.0) {
            Some(i) => i,
            None => {
                return vstd::pervasive::unreached();
            },
        };
        proof {
            lemma_assoc_update_frame(
                self.clients@,
                ci as int,
                ClientData { authenticated_as: Some(user_id) },
            );
        }
        let _ = assoc_replace(
            &mut self.clients,
            ci,
            id.0,
            ClientData { authenticated_as: Some(user_id) },
        );
        if let Some(msg) = self.state_message_for_user(user_id, lists) {
            out.push(msg);
        }
        out
    }

    /// Renames a user. A nickname outside 2 to 64 characters is
    /// rejected with no change; a renamed user in a game has the
    /// change narrated to the whole lobby.
    fn handle_set_nick(
        &mut self,
        id: ConnectionId,
        user_id: UserId,
        nick: String,
        lists: &Vec<Wordlist>,
    ) -> (out: Vec<Outbound>)
        requires
            old(self).wf(),
            old(self).spec_has_user(user_id),
        ensures
            final(self).wf(),
            set_nick_post(*old(self), *final(self), out@, id, user_id, nick),
    {
        let mut out: Vec<Outbound> = Vec::new();
        let len = nick.as_str().unicode_len();
        if len < 2 || len > 64 {
            out.push(info_to(id, "Nickname must be between 2 and 64 characters"));
            return out;
        }
        let j = match assoc_find(&self.users, user_id.0) {
            Some(j) => j,
            None => {
                return vstd::pervasive::unreached();
            },
        };
        let mut ud = clone_user_data(&self.users[j].1);
        let old_nick = ud.nick;
        ud.nick = Some(nick);
        proof {
            match ud.game {
                Some(g) => {
                    assert(old(self).users@[j as int].1.game == Some(g));
                },
                None => {},
            }
        }
        self.put_user(j, user_id, ud);
        match self.resolve_game(user_id) {
            Some((gi, gid)) => {
                let ghost pre = *self;
                let mut g = self.take_game(gi, gid);
                let mut text = user_event_text(user_id, " changed nick");
                if let Some(was) = old_nick {
                    text.append(" (was ");
                    text.append(was.as_str());
                    text.append(")");
                }
                g.global_chat.push(crate::message::ChatMessage::system(text));
                proof {
                    assert forall|m: int|
                        0 <= m < g.players_seq().len() implies assoc_has(
                        pre.users@,
                        ((#[trigger] g.players_seq()[m]).0).0,
                    ) by {
                        assert(pre.games@[gi as int].1.players_seq()[m] == g.players_seq()[m]);
                    }
                }
                self.restore_game(gi, gid, g, Ghost(pre));
                let mut msgs = self.broadcast_game_state(gid, lists);
                out.append(&mut msgs);
            },
            None => {
                if let Some(msg) = self.state_message_for_user(user_id, lists) {
                    out.push(msg);
                }
            },
        }
        out
    }

    /// Creates a fresh lobby with this user as its first, team-less
    /// member. A user already in a game is rejected with no change.
    fn handle_create_lobby(&mut self, id: ConnectionId, user_id: UserId, lists: &Vec<Wordlist>)
        -> (out: Vec<Outbound>)
        requires
            old(self).wf(),
            old(self).spec_has_user(user_id),
        ensures
            final(self).wf(),
            create_lobby_post(*old(self), *final(self), out@, id, user_id),
    {
        let mut out: Vec<Outbound> = Vec::new();
        let j = match assoc_find(&self.users, user_id.0) {
            Some(j) => j,
            None => {
                return vstd::pervasive::unreached();
            },
        };
        if self.users[j].1.game.is_some() {
            out.push(info_to(id, "You are already in a game"));
            return out;
        }
        let mut game_id = GameId::new();
        if assoc_find(&self.games, game_id.0).is_some() {
            // The random identifier collided; fall back to a key the
            // directory provably does not use yet.
            match crate::assoc::assoc_fresh_key(&self.games) {
                Some(k) => {
                    game_id = GameId(k);
                },
                None => {
                    out.push(info_to(id, "Could not create a lobby"));
                    return out;
                },
            }
        }
        let ghost pre = *self;
        let mut game = GameInfo::default();
        game.add_player(user_id);
        game.global_chat.push(
            crate::message::ChatMessage::system(user_event_text(user_id, " created a new lobby")),
        );
        proof {
            lemma_assoc_push_frame(self.games@, game_id.0, game);
        }
        self.games.push((game_id.0, game));
        proof {
            assert(self.games@ == pre.games@.push((game_id.0, game)));
            assert(game.players_seq() =~= seq![(user_id, GamePlayerInfo::NotInTeam)]);
            assert(game.players_seq()[0].0 == user_id);
            assert(game.spec_has_player(user_id));
            assert forall|i: int|
                0 <= i < self.games@.len() implies (#[trigger] self.games@[i]).1.wf() by {
                if i < pre.games@.len() {
                    assert(self.games@[i] == pre.games@[i]);
                    assert(pre.games@[i].1.wf());
                } else {
                    assert(self.games@[i].1 == game);
                }
            }
            assert forall|i: int|
                0 <= i < self.users@.len() implies ((#[trigger] self.users@[i]).1.game
                matches Some(g2) ==> {
                &&& assoc_has(self.games@, g2.0)
                &&& assoc_val(self.games@, g2.0).spec_has_player(UserId(self.users@[i].0))
            }) by {
                match self.users@[i].1.game {
                    Some(g2) => {
                        assert(assoc_has(pre.games@, g2.0));
                        assert(g2.0 != game_id.0);
                    },
                    None => {},
                }
            }
            assert forall|i: int, m: int|
                0 <= i < self.games@.len() && 0 <= m < self.games@[i].1.players_seq().len() implies
                assoc_has(self.users@, ((#[trigger] self.games@[i].1.players_seq()[m]).0).0) by {
                if i < pre.games@.len() {
                    assert(self.games@[i] == pre.games@[i]);
                    assert(assoc_has(
                        pre.users@,
                        ((pre.games@[i].1.players_seq()[m]).0).0,
                    ));
                } else {
                    assert(self.games@[i].1 == game);
                    assert(game.players_seq()[m].0 == user_id);
                }
            }
            assert(self.wf());
            lemma_assoc_index_unique(self.games@, game_id.0, pre.games@.len() as int);
        }
        let mut ud = clone_user_data(&self.users[j].1);
        ud.game = Some(game_id);
        self.put_user(j, user_id, ud);
        if let Some(msg) = self.state_message_for_user(user_id, lists) {
            out.push(msg);
        }
        out
    }

    /// Lets a user leave their game: their membership becomes departed
    /// (keeping the team if the game runs), their game link is cleared,
    /// and the lobby is told.
    fn handle_leave_lobby(&mut self, id: ConnectionId, user_id: UserId, lists: &Vec<Wordlist>)
        -> (out: Vec<Outbound>)
        requires
            old(self).wf(),
            old(self).spec_has_user(user_id),
            old(self).spec_user(user_id).game is Some,
        ensures
            final(self).wf(),
            leave_lobby_post(*old(self), *final(self), out@, id, user_id),
    {
        let mut out: Vec<Outbound> = Vec::new();
        let (gi, gid) = match self.resolve_game(user_id) {
            Some(x) => x,
            None => {
                return vstd::pervasive::unreached();
            },
        };
        let ghost pre = *self;
        let mut g = self.take_game(gi, gid);
        g.global_chat.push(
            crate::message::ChatMessage::system(user_event_text(user_id, " left the lobby")),
        );
        g.kick_player(user_id);
        proof {
            assert forall|m: int|
                0 <= m < g.players_seq().len() implies assoc_has(
                pre.users@,
                ((#[trigger] g.players_seq()[m]).0).0,
            ) by {
                assert(pre.games@[gi as int].1.players_seq()[m].0 == g.players_seq()[m].0);
            }
        }
        self.restore_game(gi, gid, g, Ghost(pre));
        let j = match assoc_find(&self.users, user_id.0) {
            Some(j) => j,
            None => {
                return vstd::pervasive::unreached();
            },
        };
        let mut ud = clone_user_data(&self.users[j].1);
        ud.game = None;
        self.put_user(j, user_id, ud);
        let mut msgs = self.broadcast_game_state(gid, lists);
        out.append(&mut msgs);
        if let Some(msg) = self.state_message_for_user(user_id, lists) {
            out.push(msg);
        }
        out
    }

    /// Puts a user on a team while the game is still a lobby; once the
    /// game runs, changing teams is rejected with no change.
    fn handle_join_team(
        &mut self,
        id: ConnectionId,
        user_id: UserId,
        team: crate::team::Team,
        lists: &Vec<Wordlist>,
    ) -> (out: Vec<Outbound>)
        requires
            old(self).wf(),
            old(self).spec_has_user(user_id),
            old(self).spec_user(user_id).game is Some,
        ensures
            final(self).wf(),
            join_team_post(*old(self), *final(self), out@, id, user_id, team),
    {
        let mut out: Vec<Outbound> = Vec::new();
        let (gi, gid) = match self.resolve_game(user_id) {
            Some(x) => x,
            None => {
                return vstd::pervasive::unreached();
            },
        };
        let in_lobby = match &self.games[gi].1.state {
            crate::game::GameInfoState::Lobby => true,
            _ => false,
        };
        if !in_lobby {
            proof {
                lemma_assoc_index_unique(self.games@, gid.0, gi as int);
            }
            out.push(info_to(id, "Cannot change teams while in game"));
            return out;
        }
        let ghost pre = *self;
        let mut g = self.take_game(gi, gid);
        g.assign_player(user_id, GamePlayerInfo::InTeam(team));
        proof {
            assert forall|m: int|
                0 <= m < g.players_seq().len() implies assoc_has(
                pre.users@,
                ((#[trigger] g.players_seq()[m]).0).0,
            ) by {
                assert(pre.games@[gi as int].1.players_seq()[m].0 == g.players_seq()[m].0);
            }
        }
        self.restore_game(gi, gid, g, Ghost(pre));
        let mut msgs = self.broadcast_game_state(gid, lists);
        out.append(&mut msgs);
        out
    }

    /// Narrates a global chat message into the user's game. Messages of
    /// 4096 or more characters are rejected with no change.
    fn handle_global_chat(
        &mut self,
        id: ConnectionId,
        user_id: UserId,
        message: String,
        lists: &Vec<Wordlist>,
    ) -> (out: Vec<Outbound>)
        requires
            old(self).wf(),
            old(self).spec_has_user(user_id),
            old(self).spec_user(user_id).game is Some,
        ensures
            final(self).wf(),
            global_chat_post(*old(self), *final(self), out@, id, user_id, message),
    {
        let mut out: Vec<Outbound> = Vec::new();
        if message.as_str().unicode_len() >= 4096 {
            out.push(info_to(id, "Message too long"));
            return out;
        }
        let (gi, gid) = match self.resolve_game(user_id) {
            Some(x) => x,
            None => {
                return vstd::pervasive::unreached();
            },
        };
        let ghost pre = *self;
        let mut g = self.take_game(gi, gid);
        g.global_chat.push(crate::message::ChatMessage { author: Some(user_id), text: message });
        proof {
            assert forall|m: int|
                0 <= m < g.players_seq().len() implies assoc_has(
                pre.users@,
                ((#[trigger] g.players_seq()[m]).0).0,
            ) by {
                assert(pre.games@[gi as int].1.players_seq()[m] == g.players_seq()[m]);
            }
        }
        self.restore_game(gi, gid, g, Ghost(pre));
        let mut msgs = self.broadcast_game_state(gid, lists);
        out.append(&mut msgs);
        out
    }
}

impl State {
    /// Lets a user join a lobby, or rejoin a game they left: a departed
    /// player with a recorded team returns to exactly that team; a
    /// running game rejects a joiner who never had one.
    fn handle_join_lobby(
        &mut self,
        id: ConnectionId,
        user_id: UserId,
        gid: GameId,
        lists: &Vec<Wordlist>,
    ) -> (out: Vec<Outbound>)
        requires
            old(self).wf(),
            old(self).spec_has_user(user_id),
        ensures
            final(self).wf(),
            join_lobby_post(*old(self), *final(self), out@, id, user_id, gid),
    {
        let mut out: Vec<Outbound> = Vec::new();
        let gi = match assoc_find(&self.games, gid.0) {
            Some(gi) => gi,
            None => {
                out.push(info_to(id, "Game not found"));
                return out;
            },
        };
        proof {
            lemma_assoc_index_unique(self.games@, gid.0, gi as int);
            assert(self.games@[gi as int].1.wf());
        }
        let started = match &self.games[gi].1.state {
            crate::game::GameInfoState::InGame { .. } => true,
            _ => false,
        };
        let membership = self.games[gi].1.player_info(user_id);
        match membership {
            Some(info) => {
                if !started {
                    let ghost pre = *self;
                    let mut g = self.take_game(gi, gid);
                    g.global_chat.push(
                        crate::message::ChatMessage::system(
                            user_event_text(user_id, " joined the lobby"),
                        ),
                    );
                    g.assign_player(user_id, GamePlayerInfo::NotInTeam);
                    proof {
                        assert forall|m: int|
                            0 <= m < g.players_seq().len() implies assoc_has(
                            pre.users@,
                            ((#[trigger] g.players_seq()[m]).0).0,
                        ) by {
                            assert(pre.games@[gi as int].1.players_seq()[m].0
                                == g.players_seq()[m].0);
                        }
                    }
                    self.restore_game(gi, gid, g, Ghost(pre));
                    proof {
                        assert(self.spec_game(gid).spec_has_player(user_id));
                    }
                    self.link_user_to_game(user_id, gid);
                    let mut msgs = self.broadcast_game_state(gid, lists);
                    out.append(&mut msgs);
                    return out;
                }
                match info {
                    GamePlayerInfo::LeftGame(Some(team)) => {
                        let ghost pre = *self;
                        let mut g = self.take_game(gi, gid);
                        g.global_chat.push(
                            crate::message::ChatMessage::system(
                                user_event_text(user_id, " joined the lobby"),
                            ),
                        );
                        g.assign_player(user_id, GamePlayerInfo::InTeam(team));
                        proof {
                            assert forall|m: int|
                                0 <= m < g.players_seq().len() implies assoc_has(
                                pre.users@,
                                ((#[trigger] g.players_seq()[m]).0).0,
                            ) by {
                                assert(pre.games@[gi as int].1.players_seq()[m].0
                                    == g.players_seq()[m].0);
                            }
                        }
                        self.restore_game(gi, gid, g, Ghost(pre));
                        proof {
                            assert(self.spec_game(gid).spec_has_player(user_id));
                        }
                        self.link_user_to_game(user_id, gid);
                        let mut msgs = self.broadcast_game_state(gid, lists);
                        out.append(&mut msgs);
                        out
                    },
                    GamePlayerInfo::InTeam(_) => {
                        out.push(
                            error_to(
                                id,
                                "Already a team member of this game",
                                crate::message::ErrorSeverity::Error,
                            ),
                        );
                        out
                    },
                    _ => {
                        out.push(
                            error_to(
                                id,
                                "Game in progress, rejoin team selection not implemented yet",
                                crate::message::ErrorSeverity::Error,
                            ),
                        );
                        out
                    },
                }
            },
            None => {
                let ghost pre = *self;
                let mut g = self.take_game(gi, gid);
                g.global_chat.push(
                    crate::message::ChatMessage::system(
                        user_event_text(user_id, " joined the lobby"),
                    ),
                );
                g.add_player(user_id);
                proof {
                    assert(g.players_seq().last().0 == user_id);
                    assert(g.spec_has_player(user_id));
                    assert forall|u: UserId|
                        #![trigger g.spec_has_player(u)]
                        pre.spec_game(gid).spec_has_player(u) implies g.spec_has_player(u) by {
                        let m = crate::game::roster_index(pre.spec_game(gid).players_seq(), u);
                        assert(pre.spec_game(gid).players_seq()[m].0 == u);
                        assert(g.players_seq()[m].0 == u);
                    }
                    assert forall|m: int|
                        0 <= m < g.players_seq().len() implies assoc_has(
                        pre.users@,
                        ((#[trigger] g.players_seq()[m]).0).0,
                    ) by {
                        if m < pre.games@[gi as int].1.players_seq().len() {
                            assert(pre.games@[gi as int].1.players_seq()[m]
                                == g.players_seq()[m]);
                        } else {
                            assert(g.players_seq()[m].0 == user_id);
                        }
                    }
                }
                self.restore_game(gi, gid, g, Ghost(pre));
                proof {
                    assert(self.spec_game(gid).spec_has_player(user_id));
                }
                self.link_user_to_game(user_id, gid);
                let mut msgs = self.broadcast_game_state(gid, lists);
                out.append(&mut msgs);
                out
            },
        }
    }

    /// Records which game a user is in; the game must already hold them
    /// on its roster.
    fn link_user_to_game(&mut self, user_id: UserId, gid: GameId)
        requires
            old(self).wf(),
            old(self).spec_has_user(user_id),
            old(self).spec_has_game(gid),
            old(self).spec_game(gid).spec_has_player(user_id),
        ensures
            final(self).wf(),
            final(self).clients == old(self).clients,
            final(self).games == old(self).games,
            final(self).spec_user(user_id).game == Some(gid),
            final(self).spec_user(user_id).connection_id == old(self).spec_user(
                user_id,
            ).connection_id,
            final(self).spec_user(user_id).secret == old(self).spec_user(user_id).secret,
            final(self).spec_user(user_id).nick == old(self).spec_user(user_id).nick,
    {
        let j = match assoc_find(&self.users, user_id.0) {
            Some(j) => j,
            None => {
                return vstd::pervasive::unreached();
            },
        };
        let mut ud = clone_user_data(&self.users[j].1);
        ud.game = Some(gid);
        self.put_user(j, user_id, ud);
    }

    /// Clears which game a user is in.
    fn unlink_user_from_game(&mut self, user_id: UserId)
        requires
            old(self).wf(),
            old(self).spec_has_user(user_id),
        ensures
            final(self).wf(),
            final(self).clients == old(self).clients,
            final(self).games == old(self).games,
            final(self).spec_user(user_id).game is None,
            final(self).spec_user(user_id).connection_id == old(self).spec_user(
                user_id,
            ).connection_id,
            final(self).spec_user(user_id).secret == old(self).spec_user(user_id).secret,
            final(self).spec_user(user_id).nick == old(self).spec_user(user_id).nick,
            forall|u2: UserId|
                #![trigger final(self).spec_has_user(u2)]
                #![trigger final(self).spec_user(u2)]
                u2 != user_id ==> (final(self).spec_has_user(u2) == old(self).spec_has_user(u2) && (
                old(self).spec_has_user(u2) ==> final(self).spec_user(u2) == old(self).spec_user(
                    u2,
                ))),
    {
        let j = match assoc_find(&self.users, user_id.0) {
            Some(j) => j,
            None => {
                return vstd::pervasive::unreached();
            },
        };
        let mut ud = clone_user_data(&self.users[j].1);
        ud.game = None;
        self.put_user(j, user_id, ud);
    }

    /// Kicks a disconnected user out of the kicker's game: their
    /// membership becomes departed (keeping the team while the game
    /// runs) and their game link is cleared. Kicking someone absent
    /// from the game, or still connected, is rejected with no change.
    fn handle_kick(
        &mut self,
        id: ConnectionId,
        user_id: UserId,
        target: UserId,
        lists: &Vec<Wordlist>,
    ) -> (out: Vec<Outbound>)
        requires
            old(self).wf(),
            old(self).spec_has_user(user_id),
            old(self).spec_user(user_id).game is Some,
        ensures
            final(self).wf(),
            kick_post(*old(self), *final(self), out@, id, user_id, target),
    {
        let mut out: Vec<Outbound> = Vec::new();
        let (gi, gid) = match self.resolve_game(user_id) {
            Some(x) => x,
            None => {
                return vstd::pervasive::unreached();
            },
        };
        proof {
            lemma_assoc_index_unique(self.games@, gid.0, gi as int);
            assert(self.games@[gi as int].1.wf());
        }
        if self.games[gi].1.player_info(target).is_none() {
            out.push(info_to(id, "User not in game"));
            return out;
        }
        proof {
            let gidx = assoc_index(self.games@, gid.0);
            let ridx = crate::game::roster_index(self.games@[gidx].1.players_seq(), target);
            assert(self.games@[gidx].1.players_seq()[ridx].0 == target);
        }
        let tj = match assoc_find(&self.users, target.0) {
            Some(tj) => tj,
            None => {
                return vstd::pervasive::unreached();
            },
        };
        if self.users[tj].1.connection_id.is_some() {
            proof {
                lemma_assoc_index_unique(self.users@, target.0, tj as int);
            }
            out.push(info_to(id, "You can only kick users that are not connected"));
            return out;
        }
        let ghost pre = *self;
        let mut g = self.take_game(gi, gid);
        let mut text = String::from_str("Disconnected ");
        text.append(user_label(target).as_str());
        text.append(" was kicked from the game by ");
        text.append(user_label(user_id).as_str());
        g.global_chat.push(crate::message::ChatMessage::system(text));
        g.kick_player(target);
        proof {
            assert forall|m: int|
                0 <= m < g.players_seq().len() implies assoc_has(
                pre.users@,
                ((#[trigger] g.players_seq()[m]).0).0,
            ) by {
                assert(pre.games@[gi as int].1.players_seq()[m].0 == g.players_seq()[m].0);
            }
        }
        self.restore_game(gi, gid, g, Ghost(pre));
        self.unlink_user_from_game(target);
        let mut msgs = self.broadcast_game_state(gid, lists);
        out.append(&mut msgs);
        out
    }

    /// Starts the user's game once it is startable: keywords are drawn
    /// from the configured word source, encryptors picked, codes
    /// generated, deadlines armed, and everyone is told. A game that
    /// cannot start yet only has the reason reported back.
    fn handle_start_game(
        &mut self,
        id: ConnectionId,
        user_id: UserId,
        now: u64,
        lists: &Vec<Wordlist>,
    ) -> (out: Vec<Outbound>)
        requires
            old(self).wf(),
            old(self).spec_has_user(user_id),
            old(self).spec_user(user_id).game is Some,
            wordlists_wf(lists@),
        ensures
            final(self).wf(),
            start_game_post(*old(self), *final(self), out@, id, user_id, lists@, now),
    {
        let mut out: Vec<Outbound> = Vec::new();
        let (gi, gid) = match self.resolve_game(user_id) {
            Some(x) => x,
            None => {
                return vstd::pervasive::unreached();
            },
        };
        proof {
            lemma_assoc_index_unique(self.games@, gid.0, gi as int);
            assert(self.games@[gi as int].1.wf());
        }
        if let Err(m) = self.games[gi].1.startable(lists) {
            out.push(info_string_to(id, m));
            return out;
        }
        let wi = match find_usable_wordlist(
            lists,
            &self.games[gi].1.settings.wordlist,
            self.games[gi].1.settings.keyword_count,
        ) {
            Some(wi) => wi,
            None => {
                return vstd::pervasive::unreached();
            },
        };
        let ghost pre = *self;
        let mut g = self.take_game(gi, gid);
        g.start(&lists[wi].words, now);
        proof {
            assert forall|m: int|
                0 <= m < g.players_seq().len() implies assoc_has(
                pre.users@,
                ((#[trigger] g.players_seq()[m]).0).0,
            ) by {
                assert(pre.games@[gi as int].1.players_seq()[m] == g.players_seq()[m]);
            }
        }
        self.restore_game(gi, gid, g, Ghost(pre));
        proof {
            match self.spec_game(gid).state {
                GameInfoState::InGame { keywords, completed_rounds, current_round, deadlines } => {
                    assert(0 <= wi < lists@.len() && lists@[wi as int].name@ == pre.spec_game(
                        gid,
                    ).settings.wordlist@ && keywords_drawn(
                        keywords,
                        lists@[wi as int].words@,
                        pre.spec_game(gid).settings.keyword_count,
                    ));
                },
                _ => {
                    assert(false);
                },
            }
            assert(game_started_ok(pre.spec_game(gid), self.spec_game(gid), lists@, now));
        }
        let mut msgs = self.broadcast_game_state(gid, lists);
        out.append(&mut msgs);
        out
    }
}

impl State {
    /// The team a user plays for in their game, reported as the game
    /// records it.
    fn team_of_member(&self, gi: usize, gid: GameId, user_id: UserId) -> (r: Option<
        crate::team::Team,
    >)
        requires
            self.wf(),
            gi < self.games@.len(),
            self.games@[gi as int].0 == gid.0,
        ensures
            r == (if self.spec_game(gid).spec_has_player(user_id) {
                self.spec_game(gid).spec_player_info(user_id).spec_team_of()
            } else {
                None::<crate::team::Team>
            }),
    {
        proof {
            lemma_assoc_index_unique(self.games@, gid.0, gi as int);
            assert(self.games@[gi as int].1.wf());
        }
        self.games[gi].1.team_for_user(user_id)
    }

    /// Routes an encryptor's clues into their game: the game's own
    /// gate decides; a rejection is reported back with no state change,
    /// an accepted submission is narrated and broadcast.
    fn handle_submit_clues(
        &mut self,
        id: ConnectionId,
        user_id: UserId,
        clues: Vec<crate::message::Clue>,
        lists: &Vec<Wordlist>,
    ) -> (out: Vec<Outbound>)
        requires
            old(self).wf(),
            old(self).spec_has_user(user_id),
            old(self).spec_user(user_id).game is Some,
        ensures
            final(self).wf(),
            submit_clues_post(*old(self), *final(self), out@, id, user_id, clues),
    {
        let mut out: Vec<Outbound> = Vec::new();
        let (gi, gid) = match self.resolve_game(user_id) {
            Some(x) => x,
            None => {
                return vstd::pervasive::unreached();
            },
        };
        let team = match self.team_of_member(gi, gid, user_id) {
            Some(t) => t,
            None => {
                out.push(info_to(id, "You are not in a team"));
                return out;
            },
        };
        let ghost pre = *self;
        let mut g = self.take_game(gi, gid);
        let ghost n = clues@.len() as int;
        match g.submit_clues(user_id, team, clues) {
            Ok(_) => {
                g.global_chat.push(
                    crate::message::ChatMessage::system(
                        user_event_text(user_id, " submitted clues"),
                    ),
                );
                proof {
                    assert forall|m: int|
                        0 <= m < g.players_seq().len() implies assoc_has(
                        pre.users@,
                        ((#[trigger] g.players_seq()[m]).0).0,
                    ) by {
                        assert(pre.games@[gi as int].1.players_seq()[m] == g.players_seq()[m]);
                    }
                }
                self.restore_game(gi, gid, g, Ghost(pre));
                let mut msgs = self.broadcast_game_state(gid, lists);
                out.append(&mut msgs);
                out
            },
            Err(m) => {
                proof {
                    assert forall|mm: int|
                        0 <= mm < g.players_seq().len() implies assoc_has(
                        pre.users@,
                        ((#[trigger] g.players_seq()[mm]).0).0,
                    ) by {
                        assert(pre.games@[gi as int].1.players_seq()[mm] == g.players_seq()[mm]);
                    }
                }
                self.restore_game(gi, gid, g, Ghost(pre));
                proof {
                    assert(self.games@ =~= pre.games@);
                    assert(state_eq(*self, pre));
                }
                out.push(info_string_to(id, m));
                out
            },
        }
    }

    /// Routes a team's decipher or intercept attempt into their game,
    /// then advances the round if both teams are done, narrating the
    /// score. The game's own gates decide; rejections are reported
    /// back with no state change.
    fn handle_submit_guess(
        &mut self,
        id: ConnectionId,
        user_id: UserId,
        attempt: crate::code::Code,
        decipher: bool,
        now: u64,
        lists: &Vec<Wordlist>,
    ) -> (out: Vec<Outbound>)
        requires
            old(self).wf(),
            old(self).spec_has_user(user_id),
            old(self).spec_user(user_id).game is Some,
        ensures
            final(self).wf(),
            submit_guess_post(*old(self), *final(self), out@, id, user_id, attempt, decipher, now),
    {
        let mut out: Vec<Outbound> = Vec::new();
        let (gi, gid) = match self.resolve_game(user_id) {
            Some(x) => x,
            None => {
                return vstd::pervasive::unreached();
            },
        };
        let team = match self.team_of_member(gi, gid, user_id) {
            Some(t) => t,
            None => {
                out.push(info_to(id, "You are not in a team"));
                return out;
            },
        };
        let ghost pre = *self;
        let ghost attempt0 = attempt;
        let mut g = self.take_game(gi, gid);
        let submitted = if decipher {
            g.submit_decipher(user_id, team, attempt)
        } else {
            g.submit_intercept(user_id, team, attempt)
        };
        match submitted {
            Ok(_) => {
                let ghost gcall = g;
                proof {
                    let gw = game_with_guess(pre.spec_game(gid), team, attempt0, decipher);
                    assert(gcall.state == gw.state);
                    assert(gcall.players_seq() == gw.players_seq());
                    assert(gcall.settings == gw.settings);
                    assert(gcall.drawings == gw.drawings);
                }
                let res = g.next_round_if_ready(now);
                let ghost res0 = res;
                if let Some(result) = res {
                    g.global_chat.push(
                        crate::message::ChatMessage::system(round_score_text(&result)),
                    );
                }
                proof {
                    let gw = game_with_guess(pre.spec_game(gid), team, attempt0, decipher);
                    assert(gcall.state == gw.state);
                    assert(gcall.global_chat == gw.global_chat);
                    assert(round_advance_ok(gw, g, res0, now));
                    assert forall|m: int|
                        0 <= m < g.players_seq().len() implies assoc_has(
                        pre.users@,
                        ((#[trigger] g.players_seq()[m]).0).0,
                    ) by {
                        assert(pre.games@[gi as int].1.players_seq()[m] == g.players_seq()[m]);
                    }
                }
                self.restore_game(gi, gid, g, Ghost(pre));
                proof {
                    assert(round_advance_ok(
                        game_with_guess(pre.spec_game(gid), team, attempt0, decipher),
                        self.spec_game(gid),
                        res0,
                        now,
                    ));
                }
                let mut msgs = self.broadcast_game_state(gid, lists);
                out.append(&mut msgs);
                out
            },
            Err(m) => {
                proof {
                    assert forall|mm: int|
                        0 <= mm < g.players_seq().len() implies assoc_has(
                        pre.users@,
                        ((#[trigger] g.players_seq()[mm]).0).0,
                    ) by {
                        assert(pre.games@[gi as int].1.players_seq()[mm] == g.players_seq()[mm]);
                    }
                }
                self.restore_game(gi, gid, g, Ghost(pre));
                proof {
                    assert(self.games@ =~= pre.games@);
                    assert(state_eq(*self, pre));
                }
                out.push(info_string_to(id, m));
                out
            },
        }
    }

    /// Routes a team's tiebreaker guesses into their game, then ends
    /// the tiebreaker if both teams are done.
    fn handle_submit_tiebreaker(
        &mut self,
        id: ConnectionId,
        user_id: UserId,
        guesses: Vec<String>,
        lists: &Vec<Wordlist>,
    ) -> (out: Vec<Outbound>)
        requires
            old(self).wf(),
            old(self).spec_has_user(user_id),
            old(self).spec_user(user_id).game is Some,
        ensures
            final(self).wf(),
            submit_tiebreaker_post(*old(self), *final(self), out@, id, user_id, guesses),
    {
        let mut out: Vec<Outbound> = Vec::new();
        let (gi, gid) = match self.resolve_game(user_id) {
            Some(x) => x,
            None => {
                return vstd::pervasive::unreached();
            },
        };
        let team = match self.team_of_member(gi, gid, user_id) {
            Some(t) => t,
            None => {
                out.push(info_to(id, "You are not in a team"));
                return out;
            },
        };
        let ghost pre = *self;
        let mut g = self.take_game(gi, gid);
        match g.submit_tiebreaker(team, guesses) {
            Ok(_) => {
                let _ = g.tiebreaker_over_if_ready();
                proof {
                    assert forall|m: int|
                        0 <= m < g.players_seq().len() implies assoc_has(
                        pre.users@,
                        ((#[trigger] g.players_seq()[m]).0).0,
                    ) by {
                        assert(pre.games@[gi as int].1.players_seq()[m] == g.players_seq()[m]);
                    }
                }
                self.restore_game(gi, gid, g, Ghost(pre));
                let mut msgs = self.broadcast_game_state(gid, lists);
                out.append(&mut msgs);
                out
            },
            Err(m) => {
                proof {
                    assert forall|mm: int|
                        0 <= mm < g.players_seq().len() implies assoc_has(
                        pre.users@,
                        ((#[trigger] g.players_seq()[mm]).0).0,
                    ) by {
                        assert(pre.games@[gi as int].1.players_seq()[mm] == g.players_seq()[mm]);
                    }
                }
                self.restore_game(gi, gid, g, Ghost(pre));
                proof {
                    assert(self.games@ =~= pre.games@);
                    assert(state_eq(*self, pre));
                }
                out.push(info_string_to(id, m));
                out
            },
        }
    }

    /// Enforces every expired deadline in the user's game, telling the
    /// lobby only when something changed.
    fn handle_trigger_timers(
        &mut self,
        id: ConnectionId,
        user_id: UserId,
        now: u64,
        lists: &Vec<Wordlist>,
    ) -> (out: Vec<Outbound>)
        requires
            old(self).wf(),
            old(self).spec_has_user(user_id),
            old(self).spec_user(user_id).game is Some,
        ensures
            final(self).wf(),
            trigger_timers_post(*old(self), *final(self), out@, id, user_id, now),
    {
        let mut out: Vec<Outbound> = Vec::new();
        let (gi, gid) = match self.resolve_game(user_id) {
            Some(x) => x,
            None => {
                return vstd::pervasive::unreached();
            },
        };
        proof {
            lemma_assoc_index_unique(self.games@, gid.0, gi as int);
        }
        let in_game = match &self.games[gi].1.state {
            GameInfoState::InGame { .. } => true,
            _ => false,
        };
        if !in_game {
            out.push(info_to(id, "Game not in progress"));
            return out;
        }
        let ghost pre = *self;
        let mut g = self.take_game(gi, gid);
        let changed = g.enforce_expired_deadlines(now);
        proof {
            assert forall|m: int|
                0 <= m < g.players_seq().len() implies assoc_has(
                pre.users@,
                ((#[trigger] g.players_seq()[m]).0).0,
            ) by {
                assert(pre.games@[gi as int].1.players_seq()[m] == g.players_seq()[m]);
            }
        }
        self.restore_game(gi, gid, g, Ghost(pre));
        proof {
            assert(deadlines_enforced_ok(pre.spec_game(gid), self.spec_game(gid), now));
        }
        if changed {
            let mut msgs = self.broadcast_game_state(gid, lists);
            out.append(&mut msgs);
        }
        out
    }

    /// Handles a "hurry up" request: named teams with expired deadlines
    /// are timed out on the spot; the others get a frustration timer,
    /// narrated to the lobby.
    fn handle_frustrated(
        &mut self,
        id: ConnectionId,
        user_id: UserId,
        encrypting: bool,
        teams: crate::team::PerTeam<bool>,
        now: u64,
        lists: &Vec<Wordlist>,
    ) -> (out: Vec<Outbound>)
        requires
            old(self).wf(),
            old(self).spec_has_user(user_id),
            old(self).spec_user(user_id).game is Some,
        ensures
            final(self).wf(),
            frustrated_post(
                *old(self),
                *final(self),
                out@,
                id,
                user_id,
                encrypting,
                teams,
                now,
            ),
    {
        let mut out: Vec<Outbound> = Vec::new();
        let (gi, gid) = match self.resolve_game(user_id) {
            Some(x) => x,
            None => {
                return vstd::pervasive::unreached();
            },
        };
        proof {
            lemma_assoc_index_unique(self.games@, gid.0, gi as int);
        }
        let normal_round = match &self.games[gi].1.state {
            GameInfoState::InGame {
                current_round: crate::game::GameInfoStateCurrentRound::Normal(_),
                ..
            } => true,
            GameInfoState::InGame { .. } => {
                out.push(info_to(id, "No round in progress"));
                return out;
            },
            _ => {
                out.push(info_to(id, "Game not in progress"));
                return out;
            },
        };
        let _ = normal_round;
        let ghost pre = *self;
        let mut g = self.take_game(gi, gid);
        let armed = g.mark_frustrated(encrypting, teams, now);
        if armed.white {
            let mut text = user_event_text(user_id, " is frustrated with team <");
            text.append(team_label(crate::team::Team(false)).as_str());
            text.append(">");
            g.global_chat.push(crate::message::ChatMessage::system(text));
        }
        if armed.black {
            let mut text = user_event_text(user_id, " is frustrated with team <");
            text.append(team_label(crate::team::Team(true)).as_str());
            text.append(">");
            g.global_chat.push(crate::message::ChatMessage::system(text));
        }
        proof {
            assert forall|m: int|
                0 <= m < g.players_seq().len() implies assoc_has(
                pre.users@,
                ((#[trigger] g.players_seq()[m]).0).0,
            ) by {
                assert(pre.games@[gi as int].1.players_seq()[m] == g.players_seq()[m]);
            }
        }
        self.restore_game(gi, gid, g, Ghost(pre));
        proof {
            assert(frustration_ok(pre.spec_game(gid), self.spec_game(gid), encrypting, teams, now));
        }
        let mut msgs = self.broadcast_game_state(gid, lists);
        out.append(&mut msgs);
        out
    }

    /// Routes one inbound action from one live connection: resolves the
    /// authenticated user, delegates to the matching operation, and
    /// returns every message to push out. An unauthenticated connection
    /// may only authenticate; any other action is refused without any
    /// state change, as is an action needing a game from a user not in
    /// one.
    pub fn on_message(
        &mut self,
        id: ConnectionId,
        msg: crate::message::FromClient,
        now: u64,
        lists: &Vec<Wordlist>,
    ) -> (out: Vec<Outbound>)
        requires
            old(self).wf(),
            old(self).spec_has_client(id),
            wordlists_wf(lists@),
        ensures
            final(self).wf(),
            !(msg matches FromClient::Auth { .. }) && old(self).spec_client(id).authenticated_as
                is None ==> (*final(self) == *old(self) && out@.len() == 1 && out@[0].to == id && (
            out@[0].msg matches ToClient::Error { message, severity } && message@
                == "Auth required"@ && severity == ErrorSeverity::Error)),
            msg matches FromClient::Auth { secret } ==> auth_post(
                *old(self),
                *final(self),
                out@,
                id,
                secret,
            ),
            old(self).spec_client(id).authenticated_as matches Some(u) ==> match msg {
                FromClient::Auth { .. } => true,
                FromClient::SetNick(nick) => set_nick_post(
                    *old(self),
                    *final(self),
                    out@,
                    id,
                    u,
                    nick,
                ),
                FromClient::CreateLobby => create_lobby_post(*old(self), *final(self), out@, id, u),
                FromClient::JoinLobby(gid) => join_lobby_post(
                    *old(self),
                    *final(self),
                    out@,
                    id,
                    u,
                    gid,
                ),
                FromClient::LeaveLobby => if old(self).spec_user(u).game is None {
                    not_in_game_reply(*old(self), *final(self), out@, id)
                } else {
                    leave_lobby_post(*old(self), *final(self), out@, id, u)
                },
                FromClient::JoinTeam(team) => if old(self).spec_user(u).game is None {
                    not_in_game_reply(*old(self), *final(self), out@, id)
                } else {
                    join_team_post(*old(self), *final(self), out@, id, u, team)
                },
                FromClient::Kick(target) => if old(self).spec_user(u).game is None {
                    not_in_game_reply(*old(self), *final(self), out@, id)
                } else {
                    kick_post(*old(self), *final(self), out@, id, u, target)
                },
                FromClient::StartGame => if old(self).spec_user(u).game is None {
                    not_in_game_reply(*old(self), *final(self), out@, id)
                } else {
                    start_game_post(*old(self), *final(self), out@, id, u, lists@, now)
                },
                FromClient::SubmitClues(clues) => if old(self).spec_user(u).game is None {
                    not_in_game_reply(*old(self), *final(self), out@, id)
                } else {
                    submit_clues_post(*old(self), *final(self), out@, id, u, clues)
                },
                FromClient::SubmitDecipher(attempt) => if old(self).spec_user(u).game is None {
                    not_in_game_reply(*old(self), *final(self), out@, id)
                } else {
                    submit_guess_post(*old(self), *final(self), out@, id, u, attempt, true, now)
                },
                FromClient::SubmitIntercept(attempt) => if old(self).spec_user(u).game is None {
                    not_in_game_reply(*old(self), *final(self), out@, id)
                } else {
                    submit_guess_post(*old(self), *final(self), out@, id, u, attempt, false, now)
                },
                FromClient::SubmitTiebreaker(guesses) => if old(self).spec_user(u).game is None {
                    not_in_game_reply(*old(self), *final(self), out@, id)
                } else {
                    submit_tiebreaker_post(*old(self), *final(self), out@, id, u, guesses)
                },
                FromClient::TriggerTimers => if old(self).spec_user(u).game is None {
                    not_in_game_reply(*old(self), *final(self), out@, id)
                } else {
                    trigger_timers_post(*old(self), *final(self), out@, id, u, now)
                },
                FromClient::Frustrated { encrypting, teams } => if old(self).spec_user(
                    u,
                ).game is None {
                    not_in_game_reply(*old(self), *final(self), out@, id)
                } else {
                    frustrated_post(
                        *old(self),
                        *final(self),
                        out@,
                        id,
                        u,
                        encrypting,
                        teams,
                        now,
                    )
                },
                FromClient::GlobalChat(message) => if old(self).spec_user(u).game is None {
                    not_in_game_reply(*old(self), *final(self), out@, id)
                } else {
                    global_chat_post(*old(self), *final(self), out@, id, u, message)
                },
            },
    {
        match msg {
            FromClient::Auth { secret } => self.handle_auth(id, secret, lists),
            other => {
                let user_id = match self.auth_user(id) {
                    Some(u) => u,
                    None => {
                        let mut out: Vec<Outbound> = Vec::new();
                        out.push(
                            error_to(id, "Auth required", crate::message::ErrorSeverity::Error),
                        );
                        return out;
                    },
                };
                match other {
                    FromClient::Auth { .. } => vstd::pervasive::unreached(),
                    FromClient::SetNick(nick) => self.handle_set_nick(id, user_id, nick, lists),
                    FromClient::CreateLobby => self.handle_create_lobby(id, user_id, lists),
                    FromClient::JoinLobby(gid) => self.handle_join_lobby(id, user_id, gid, lists),
                    FromClient::LeaveLobby => {
                        if self.user_in_game(user_id) {
                            self.handle_leave_lobby(id, user_id, lists)
                        } else {
                            self.not_in_game_error(id)
                        }
                    },
                    FromClient::JoinTeam(team) => {
                        if self.user_in_game(user_id) {
                            self.handle_join_team(id, user_id, team, lists)
                        } else {
                            self.not_in_game_error(id)
                        }
                    },
                    FromClient::Kick(target) => {
                        if self.user_in_game(user_id) {
                            self.handle_kick(id, user_id, target, lists)
                        } else {
                            self.not_in_game_error(id)
                        }
                    },
                    FromClient::StartGame => {
                        if self.user_in_game(user_id) {
                            self.handle_start_game(id, user_id, now, lists)
                        } else {
                            self.not_in_game_error(id)
                        }
                    },
                    FromClient::SubmitClues(clues) => {
                        if self.user_in_game(user_id) {
                            self.handle_submit_clues(id, user_id, clues, lists)
                        } else {
                            self.not_in_game_error(id)
                        }
                    },
                    FromClient::SubmitDecipher(attempt) => {
                        if self.user_in_game(user_id) {
                            self.handle_submit_guess(id, user_id, attempt, true, now, lists)
                        } else {
                            self.not_in_game_error(id)
                        }
                    },
                    FromClient::SubmitIntercept(attempt) => {
                        if self.user_in_game(user_id) {
                            self.handle_submit_guess(id, user_id, attempt, false, now, lists)
                        } else {
                            self.not_in_game_error(id)
                        }
                    },
                    FromClient::SubmitTiebreaker(guesses) => {
                        if self.user_in_game(user_id) {
                            self.handle_submit_tiebreaker(id, user_id, guesses, lists)
                        } else {
                            self.not_in_game_error(id)
                        }
                    },
                    FromClient::TriggerTimers => {
                        if self.user_in_game(user_id) {
                            self.handle_trigger_timers(id, user_id, now, lists)
                        } else {
                            self.not_in_game_error(id)
                        }
                    },
                    FromClient::Frustrated { encrypting, teams } => {
                        if self.user_in_game(user_id) {
                            self.handle_frustrated(id, user_id, encrypting, teams, now, lists)
                        } else {
                            self.not_in_game_error(id)
                        }
                    },
                    FromClient::GlobalChat(message) => {
                        if self.user_in_game(user_id) {
                            self.handle_global_chat(id, user_id, message, lists)
                        } else {
                            self.not_in_game_error(id)
                        }
                    },
                }
            },
        }
    }

    fn user_in_game(&self, user_id: UserId) -> (r: bool)
        requires
            self.wf(),
            self.spec_has_user(user_id),
        ensures
            r == (self.spec_user(user_id).game is Some),
    {
        let j = match assoc_find(&self.users, user_id.0) {
            Some(j) => j,
            None => {
                return vstd::pervasive::unreached();
            },
        };
        self.users[j].1.game.is_some()
    }

    fn not_in_game_error(&self, id: ConnectionId) -> (out: Vec<Outbound>)
        ensures
            info_reply(out@, id, "You are not in a game"@),
    {
        let mut out: Vec<Outbound> = Vec::new();
        out.push(info_to(id, "You are not in a game"));
        out
    }
}

impl State {
    /// Whether the directory knows this connection; the runtime check
    /// an unverified caller makes before `on_message` or
    /// `on_disconnect`.
    pub fn has_client(&self, id: ConnectionId) -> (r: bool)
        requires
            self.wf(),
        ensures
            r == self.spec_has_client(id),
    {
        assoc_find(&self.clients, id.0).is_some()
    }

    /// Whether the directory knows this game; the runtime check an
    /// unverified caller makes before touching a game.
    pub fn has_game(&self, id: GameId) -> (r: bool)
        requires
            self.wf(),
        ensures
            r == self.spec_has_game(id),
    {
        assoc_find(&self.games, id.0).is_some()
    }

    /// A known game's record.
    pub fn game_ref(&self, id: GameId) -> (g: &GameInfo)
        requires
            self.wf(),
            self.spec_has_game(id),
        ensures
            *g == self.spec_game(id),
    {
        let gi = match assoc_find(&self.games, id.0) {
            Some(gi) => gi,
            None => {
                return vstd::pervasive::unreached();
            },
        };
        &self.games[gi].1
    }

    /// Stores a drawing in a known game.
    pub fn add_drawing(&mut self, gid: GameId, id: crate::id::DrawingId, bytes: Vec<u8>)
        requires
            old(self).wf(),
            old(self).spec_has_game(gid),
        ensures
            final(self).wf(),
            final(self).clients == old(self).clients,
            final(self).users == old(self).users,
            final(self).spec_game(gid).drawings@ == old(self).spec_game(gid).drawings@.push(
                (id, bytes),
            ),
            final(self).spec_game(gid).state == old(self).spec_game(gid).state,
            final(self).spec_game(gid).players_seq() == old(self).spec_game(gid).players_seq(),
    {
        let gi = match assoc_find(&self.games, gid.0) {
            Some(gi) => gi,
            None => {
                return vstd::pervasive::unreached();
            },
        };
        let ghost pre = *self;
        let mut g = self.take_game(gi, gid);
        g.drawings.push((id, bytes));
        proof {
            assert forall|m: int|
                0 <= m < g.players_seq().len() implies assoc_has(
                pre.users@,
                ((#[trigger] g.players_seq()[m]).0).0,
            ) by {
                assert(pre.games@[gi as int].1.players_seq()[m] == g.players_seq()[m]);
            }
        }
        self.restore_game(gi, gid, g, Ghost(pre));
    }
}

} // verus!
