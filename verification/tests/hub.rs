// Integration tests for the connection directory: authentication,
// lobby life cycle, routing, and the per-viewer privacy filter.

use decrypto::ConnectionId;
use decrypto::FromClient;
use decrypto::GameId;
use decrypto::GameStateView;
use decrypto::GameView;
use decrypto::Outbound;
use decrypto::State;
use decrypto::Team;
use decrypto::ToClient;
use decrypto::UserId;
use decrypto::Wordlist;

fn word_source() -> Vec<Wordlist> {
    vec![Wordlist {
        name: "original".to_string(),
        words: vec![
            "apple".to_string(),
            "bridge".to_string(),
            "candle".to_string(),
            "desert".to_string(),
            "engine".to_string(),
            "forest".to_string(),
            "garden".to_string(),
            "harbor".to_string(),
        ],
    }]
}

/// The user identifier confirmed by the state message in a reply.
fn confirmed_user(out: &[Outbound]) -> UserId {
    for o in out {
        if let ToClient::State { user_info, .. } = &o.msg {
            return user_info.id;
        }
    }
    panic!("expected a state message");
}

/// The game view addressed to the given connection, if any reply
/// carries one.
fn view_for(out: &[Outbound], to: ConnectionId) -> Option<GameView> {
    for o in out {
        if o.to == to {
            if let ToClient::State { game: Some(gv), .. } = &o.msg {
                return Some(gv.clone());
            }
        }
    }
    None
}

fn error_text(out: &[Outbound]) -> String {
    for o in out {
        if let ToClient::Error { message, .. } = &o.msg {
            return message.clone();
        }
    }
    panic!("expected an error message");
}

/// Connects a fresh client, authenticates it, and names it.
fn join(st: &mut State, conn: u128, nick: &str, lists: &Vec<Wordlist>) -> UserId {
    let c = ConnectionId(conn);
    st.on_connect(c);
    let out = st.on_message(c, FromClient::Auth { secret: None }, 0, lists);
    let user = confirmed_user(&out);
    st.on_message(c, FromClient::SetNick(nick.to_string()), 0, lists);
    user
}

#[test]
fn unauthenticated_actions_are_refused() {
    let lists = word_source();
    let mut st = State::new();
    let c = ConnectionId(9);
    st.on_connect(c);
    let out = st.on_message(c, FromClient::CreateLobby, 0, &lists);
    assert_eq!(out.len(), 1);
    assert_eq!(error_text(&out), "Auth required");
}

#[test]
fn auth_with_known_secret_reattaches_the_user() {
    let lists = word_source();
    let mut st = State::new();
    let c1 = ConnectionId(1);
    st.on_connect(c1);
    let out = st.on_message(c1, FromClient::Auth { secret: None }, 0, &lists);
    let user = confirmed_user(&out);
    let secret = match &out[0].msg {
        ToClient::State { user_info, .. } => user_info.secret,
        _ => panic!("expected a state message"),
    };
    assert!(st.on_disconnect(c1).is_none());
    let c2 = ConnectionId(2);
    st.on_connect(c2);
    let out = st.on_message(c2, FromClient::Auth { secret: Some(secret) }, 0, &lists);
    assert_eq!(confirmed_user(&out), user);
}

#[test]
fn game_not_found_is_reported() {
    let lists = word_source();
    let mut st = State::new();
    join(&mut st, 1, "alice", &lists);
    let out = st.on_message(ConnectionId(1), FromClient::JoinLobby(GameId(42)), 0, &lists);
    assert_eq!(error_text(&out), "Game not found");
}

/// Builds a running four-player game and returns the directory plus
/// each player's connection and user identifier, White first.
fn running_game(lists: &Vec<Wordlist>) -> (State, Vec<(ConnectionId, UserId)>, GameId) {
    let mut st = State::new();
    let alice = join(&mut st, 1, "alice", lists);
    let out = st.on_message(ConnectionId(1), FromClient::CreateLobby, 0, lists);
    let gv = view_for(&out, ConnectionId(1)).expect("creator should see the lobby");
    let gid = gv.id;
    match gv.state {
        GameStateView::Lobby { .. } => {},
        _ => panic!("fresh game should be a lobby"),
    }
    let mut players = vec![(ConnectionId(1), alice)];
    for (conn, nick) in [(2u128, "bob"), (3, "carol"), (4, "dave")] {
        let u = join(&mut st, conn, nick, lists);
        st.on_message(ConnectionId(conn), FromClient::JoinLobby(gid), 0, lists);
        players.push((ConnectionId(conn), u));
    }
    for (k, (conn, _)) in players.iter().enumerate() {
        let team = Team(k >= 2);
        st.on_message(*conn, FromClient::JoinTeam(team), 0, lists);
    }
    let out = st.on_message(ConnectionId(1), FromClient::StartGame, 0, lists);
    let gv = view_for(&out, ConnectionId(1)).expect("players should be told of the start");
    match gv.state {
        GameStateView::InGame { .. } => {},
        _ => panic!("the game should have started"),
    }
    (st, players, gid)
}

#[test]
fn views_keep_live_guesses_private() {
    let lists = word_source();
    let (mut st, players, _gid) = running_game(&lists);
    // Find White's encryptor and code from a White member's own view.
    let out = st.on_message(players[0].0, FromClient::TriggerTimers, 0, &lists);
    // No deadline is armed by default, so nothing changed and nothing
    // was broadcast.
    assert!(out.is_empty());
    let out = st.on_message(players[0].0, FromClient::GlobalChat("hi".to_string()), 0, &lists);
    let gv = view_for(&out, players[0].0).expect("white view");
    let (encryptor, code) = match &gv.state {
        GameStateView::InGame { current_round: Some(cur), inputs, .. } => {
            let code = match inputs {
                decrypto::Inputs::Encrypt { code, .. } => Some(code.clone()),
                _ => None,
            };
            (cur.white.encryptor, code)
        },
        _ => panic!("expected a running round"),
    };
    // Drive the white encryptor's clues in, then a decipher attempt by
    // the other White player.
    let enc_conn = players.iter().find(|(_, u)| *u == encryptor).map(|(c, _)| *c);
    let code = match (enc_conn, code) {
        (Some(conn), _) => {
            // The viewer above was the encryptor only if the inputs said
            // Encrypt; read the code from the encryptor's own view.
            let out = st.on_message(conn, FromClient::GlobalChat("x".to_string()), 0, &lists);
            let gv = view_for(&out, conn).expect("encryptor view");
            match gv.state {
                GameStateView::InGame { inputs: decrypto::Inputs::Encrypt { code, .. }, .. } => {
                    code
                },
                _ => panic!("the encryptor should be asked to encrypt"),
            }
        },
        _ => panic!("the encryptor should be among the players"),
    };
    let enc_conn = enc_conn.unwrap();
    let clues = vec![
        decrypto::Clue::Text("one".to_string()),
        decrypto::Clue::Text("two".to_string()),
        decrypto::Clue::Text("three".to_string()),
    ];
    st.on_message(enc_conn, FromClient::SubmitClues(clues), 0, &lists);
    let guesser = if players[0].1 == encryptor { &players[1] } else { &players[0] };
    let out = st.on_message(guesser.0, FromClient::SubmitDecipher(code), 0, &lists);
    // White's own view shows its decipher attempt; a Black member's
    // view keeps it hidden while the round runs.
    let white_view = view_for(&out, guesser.0).expect("white view");
    match &white_view.state {
        GameStateView::InGame { current_round: Some(cur), .. } => {
            assert!(cur.white.decipher.is_some());
        },
        _ => panic!("expected a running round"),
    }
    let black_view = view_for(&out, players[2].0).expect("black view");
    match &black_view.state {
        GameStateView::InGame { current_round: Some(cur), keywords, .. } => {
            assert!(cur.white.decipher.is_none());
            assert!(cur.white.intercept.is_none());
            assert!(cur.white.clues.is_some());
            assert_eq!(keywords.len(), 4);
        },
        _ => panic!("expected a running round"),
    }
}

#[test]
fn team_change_is_refused_once_started() {
    let lists = word_source();
    let (mut st, players, _gid) = running_game(&lists);
    let out = st.on_message(players[0].0, FromClient::JoinTeam(Team(true)), 0, &lists);
    assert_eq!(error_text(&out), "Cannot change teams while in game");
}

#[test]
fn kick_requires_target_disconnected() {
    let lists = word_source();
    let (mut st, players, _gid) = running_game(&lists);
    let out = st.on_message(players[0].0, FromClient::Kick(players[1].1), 0, &lists);
    assert_eq!(error_text(&out), "You can only kick users that are not connected");
    // Once the target disconnects, the kick goes through and the views
    // show them departed.
    st.on_disconnect(players[1].0);
    let out = st.on_message(players[0].0, FromClient::Kick(players[1].1), 0, &lists);
    let gv = view_for(&out, players[0].0).expect("kicker view");
    let row = gv.players.iter().find(|p| p.id == players[1].1).expect("row for kicked player");
    assert!(!row.is_in_game);
    assert_eq!(row.team, None);
}

#[test]
fn player_rows_are_sorted_and_nicknamed() {
    let lists = word_source();
    let (mut st, players, _gid) = running_game(&lists);
    let out = st.on_message(players[3].0, FromClient::GlobalChat("hello".to_string()), 0, &lists);
    let gv = view_for(&out, players[0].0).expect("view");
    assert_eq!(gv.players.len(), 4);
    for k in 1..gv.players.len() {
        assert!(gv.players[k - 1].id.0 <= gv.players[k].id.0);
    }
    let nicks: Vec<&str> = gv.players.iter().map(|p| p.nick.as_str()).collect();
    assert!(nicks.contains(&"alice"));
    assert!(nicks.contains(&"dave"));
    assert!(gv.global_chat.iter().any(|m| m.text == "hello"));
}

#[test]
fn oversized_chat_is_refused() {
    let lists = word_source();
    let (mut st, players, _gid) = running_game(&lists);
    let long = "x".repeat(5000);
    let out = st.on_message(players[0].0, FromClient::GlobalChat(long), 0, &lists);
    assert_eq!(error_text(&out), "Message too long");
}

#[test]
fn short_nick_is_refused() {
    let lists = word_source();
    let mut st = State::new();
    let c = ConnectionId(1);
    st.on_connect(c);
    st.on_message(c, FromClient::Auth { secret: None }, 0, &lists);
    let out = st.on_message(c, FromClient::SetNick("x".to_string()), 0, &lists);
    assert_eq!(error_text(&out), "Nickname must be between 2 and 64 characters");
}

#[test]
fn leaving_clears_the_game_link() {
    let lists = word_source();
    let (mut st, players, gid) = running_game(&lists);
    st.on_message(players[1].0, FromClient::LeaveLobby, 0, &lists);
    // Rejoining restores the old team (White) because affiliation is
    // permanent for the life of the session.
    let out = st.on_message(players[1].0, FromClient::JoinLobby(gid), 0, &lists);
    let gv = view_for(&out, players[1].0).expect("rejoiner view");
    let row = gv.players.iter().find(|p| p.id == players[1].1).expect("row");
    assert_eq!(row.team, Some(Team(false)));
    assert!(row.is_in_game);
}

#[test]
fn chat_narrates_lobby_events() {
    let lists = word_source();
    let mut st = State::new();
    let alice = join(&mut st, 1, "alice", &lists);
    st.on_message(ConnectionId(1), FromClient::CreateLobby, 0, &lists);
    let out = st.on_message(ConnectionId(1), FromClient::SetNick("alicia".to_string()), 0, &lists);
    let gv = view_for(&out, ConnectionId(1)).expect("view");
    // System messages label users by identifier and narrate what
    // happened.
    let label = format!("<@{}>", alice.0);
    assert!(gv.global_chat[0].text == format!("{} created a new lobby", label));
    assert!(gv
        .global_chat
        .iter()
        .any(|m| m.author.is_none() && m.text == format!("{} changed nick (was alice)", label)));
}

#[test]
fn broadcasts_reach_every_connected_member() {
    let lists = word_source();
    let (mut st, players, _gid) = running_game(&lists);
    st.on_disconnect(players[3].0);
    let out = st.on_message(players[0].0, FromClient::GlobalChat("ping".to_string()), 0, &lists);
    // One state message per connected member, addressed to their own
    // connection, and none for the disconnected one.
    let recipients: Vec<ConnectionId> = out
        .iter()
        .filter(|o| matches!(o.msg, ToClient::State { .. }))
        .map(|o| o.to)
        .collect();
    assert_eq!(recipients.len(), 3);
    for (conn, _) in players.iter().take(3) {
        assert!(recipients.contains(conn));
    }
    assert!(!recipients.contains(&players[3].0));
}
