// Scenario tests for the session state machine: whole rounds played
// out, score thresholds, the tiebreaker, deadlines, and rotation.

use decrypto::Clue;
use decrypto::Code;
use decrypto::DeadlineReason;
use decrypto::GameInfo;
use decrypto::GameInfoState;
use decrypto::GameInfoStateCurrentRound;
use decrypto::GamePlayerInfo;
use decrypto::GameStateView;
use decrypto::Inputs;
use decrypto::Team;
use decrypto::UserId;
use decrypto::Wordlist;

fn a() -> UserId {
    UserId(1)
}

fn b() -> UserId {
    UserId(2)
}

fn c() -> UserId {
    UserId(3)
}

fn d() -> UserId {
    UserId(4)
}

fn word_source() -> Vec<Wordlist> {
    vec![Wordlist {
        name: "original".to_string(),
        words: vec![
            "apple".to_string(),
            "bridge".to_string(),
            "candle".to_string(),
            "desert".to_string(),
            "engine".to_string(),
            "forest".to_string(),
            "garden".to_string(),
            "harbor".to_string(),
        ],
    }]
}

/// A lobby with White holding the first two users and Black the other two, started.
fn started_game() -> GameInfo {
    let mut g = GameInfo::default();
    g.add_player(a());
    g.add_player(b());
    g.add_player(c());
    g.add_player(d());
    g.assign_player(a(), GamePlayerInfo::InTeam(Team(false)));
    g.assign_player(b(), GamePlayerInfo::InTeam(Team(false)));
    g.assign_player(c(), GamePlayerInfo::InTeam(Team(true)));
    g.assign_player(d(), GamePlayerInfo::InTeam(Team(true)));
    assert!(g.startable(&word_source()).is_ok());
    g.start(&word_source()[0].words, 0);
    g
}

fn current_round(g: &GameInfo) -> (decrypto::RoundPerTeam, decrypto::RoundPerTeam) {
    match &g.state {
        GameInfoState::InGame {
            current_round: GameInfoStateCurrentRound::Normal(round),
            ..
        } => (round.white.clone(), round.black.clone()),
        _ => panic!("expected a normal round"),
    }
}

fn keywords_of(g: &GameInfo, team: Team) -> Vec<String> {
    match &g.state {
        GameInfoState::InGame { keywords, .. } => keywords.get(team).clone(),
        GameInfoState::GameOver { keywords, .. } => keywords.get(team).clone(),
        _ => panic!("expected a started game"),
    }
}

fn completed_len(g: &GameInfo) -> usize {
    match &g.state {
        GameInfoState::InGame { completed_rounds, .. } => completed_rounds.len(),
        GameInfoState::GameOver { completed_rounds, .. } => completed_rounds.len(),
        _ => 0,
    }
}

fn other_member(team: Team, encryptor: UserId) -> UserId {
    let members = if team.0 { [c(), d()] } else { [a(), b()] };
    if members[0] == encryptor {
        members[1]
    } else {
        members[0]
    }
}

fn three_clues() -> Vec<Clue> {
    vec![
        Clue::Text("one".to_string()),
        Clue::Text("two".to_string()),
        Clue::Text("three".to_string()),
    ]
}

/// Plays one full round: both encryptors submit clues, both teams
/// decipher their own code (correctly or not), and from the second
/// round on both teams intercept (correctly or not).
fn play_round(g: &mut GameInfo, correct_decipher: bool, correct_intercept: bool) {
    let first_round = completed_len(g) == 0;
    let (w, b) = current_round(g);
    g.submit_clues(w.encryptor, Team(false), three_clues()).unwrap();
    g.submit_clues(b.encryptor, Team(true), three_clues()).unwrap();
    let wrong = |code: &Code| {
        // A permutation of the right code: same indices, different
        // order, so it never equals the original.
        Code(vec![code.0[1], code.0[0], code.0[2]])
    };
    let w_attempt = if correct_decipher { w.code.clone() } else { wrong(&w.code) };
    let b_attempt = if correct_decipher { b.code.clone() } else { wrong(&b.code) };
    g.submit_decipher(other_member(Team(false), w.encryptor), Team(false), w_attempt).unwrap();
    g.submit_decipher(other_member(Team(true), b.encryptor), Team(true), b_attempt).unwrap();
    if !first_round {
        let w_int = if correct_intercept { b.code.clone() } else { wrong(&b.code) };
        let b_int = if correct_intercept { w.code.clone() } else { wrong(&w.code) };
        g.submit_intercept(other_member(Team(false), w.encryptor), Team(false), w_int).unwrap();
        g.submit_intercept(other_member(Team(true), b.encryptor), Team(true), b_int).unwrap();
    }
}

#[test]
fn first_round_plays_out_and_advances() {
    let mut g = started_game();
    let (w, b) = current_round(&g);
    assert_eq!(w.code.len(), 3);
    assert_eq!(b.code.len(), 3);
    for &i in w.code.0.iter() {
        assert!(i < 4);
    }
    assert_eq!(keywords_of(&g, Team(false)).len(), 4);
    assert_eq!(keywords_of(&g, Team(true)).len(), 4);
    play_round(&mut g, true, true);
    let score = g.next_round_if_ready(0).expect("round should advance");
    assert!(score.white.decipher);
    assert!(score.black.decipher);
    assert_eq!(score.white.intercept, None);
    assert_eq!(score.black.intercept, None);
    assert_eq!(completed_len(&g), 1);
    // The game continues with a fresh round.
    let (w2, b2) = current_round(&g);
    assert_eq!(w2.clues, None);
    assert_eq!(b2.decipher, None);
}

#[test]
fn round_does_not_advance_early() {
    let mut g = started_game();
    let (w, _) = current_round(&g);
    g.submit_clues(w.encryptor, Team(false), three_clues()).unwrap();
    assert!(g.next_round_if_ready(0).is_none());
    assert_eq!(completed_len(&g), 0);
}

#[test]
fn wrong_decipher_counts_as_miscommunication_and_game_continues() {
    let mut g = started_game();
    play_round(&mut g, false, true);
    let score = g.next_round_if_ready(0).expect("round should advance");
    assert!(!score.white.decipher);
    assert!(!score.black.decipher);
    // One miscommunication is below the default limit of two, so the
    // game goes on.
    match &g.state {
        GameInfoState::InGame {
            current_round: GameInfoStateCurrentRound::Normal(_),
            ..
        } => {},
        _ => panic!("game should continue after a single miscommunication"),
    }
}

#[test]
fn duplicate_submissions_are_rejected_without_change() {
    let mut g = started_game();
    let (w, _) = current_round(&g);
    g.submit_clues(w.encryptor, Team(false), three_clues()).unwrap();
    let err = g.submit_clues(w.encryptor, Team(false), three_clues()).unwrap_err();
    assert_eq!(err, "Clues already submitted");
    let guesser = other_member(Team(false), w.encryptor);
    g.submit_decipher(guesser, Team(false), w.code.clone()).unwrap();
    let before = current_round(&g);
    let err = g.submit_decipher(guesser, Team(false), w.code.clone()).unwrap_err();
    assert_eq!(err, "Decipher already submitted");
    let after = current_round(&g);
    assert_eq!(after.0.decipher, before.0.decipher);
    assert_eq!(after.0.clues, before.0.clues);
    // Intercepts are refused outright in the first round.
    let err = g.submit_intercept(guesser, Team(false), w.code.clone()).unwrap_err();
    assert_eq!(err, "Cannot intercept in the first round");
}

#[test]
fn encryptor_cannot_guess() {
    let mut g = started_game();
    let (w, _) = current_round(&g);
    let err = g.submit_decipher(w.encryptor, Team(false), w.code.clone()).unwrap_err();
    assert_eq!(err, "You are not allowed to submit decipher clues as an encryptor");
}

#[test]
fn encryptors_rotate_cyclically() {
    let mut g = started_game();
    let (w1, b1) = current_round(&g);
    play_round(&mut g, true, false);
    g.next_round_if_ready(0).unwrap();
    let (w2, b2) = current_round(&g);
    assert_ne!(w1.encryptor, w2.encryptor);
    assert_ne!(b1.encryptor, b2.encryptor);
    play_round(&mut g, true, false);
    g.next_round_if_ready(0).unwrap();
    let (w3, b3) = current_round(&g);
    // With two players per team the encryptor alternates: after two
    // rounds it is back to the first one.
    assert_eq!(w1.encryptor, w3.encryptor);
    assert_eq!(b1.encryptor, b3.encryptor);
}

#[test]
fn tied_score_limit_starts_tiebreaker_and_higher_count_wins() {
    let mut g = started_game();
    // Round 1: deciphers only. Rounds 2 and 3: both teams also
    // intercept correctly, reaching the intercept limit of two with
    // equal totals.
    play_round(&mut g, true, true);
    g.next_round_if_ready(0).unwrap();
    play_round(&mut g, true, true);
    g.next_round_if_ready(0).unwrap();
    play_round(&mut g, true, true);
    g.next_round_if_ready(0).unwrap();
    match &g.state {
        GameInfoState::InGame {
            current_round: GameInfoStateCurrentRound::Tiebreaker(_),
            ..
        } => {},
        _ => panic!("a tied score at the limit should start the tiebreaker"),
    }
    assert!(g.tiebreaker_over_if_ready().is_none());
    // White guesses Black's keywords perfectly; Black misses all of
    // White's.
    let black_words = keywords_of(&g, Team(true));
    g.submit_tiebreaker(Team(false), black_words).unwrap();
    let misses = vec![
        "wrong1".to_string(),
        "wrong2".to_string(),
        "wrong3".to_string(),
        "wrong4".to_string(),
    ];
    g.submit_tiebreaker(Team(true), misses).unwrap();
    let counts = g.tiebreaker_over_if_ready().expect("tiebreaker should resolve");
    assert_eq!(counts.white, 4);
    assert_eq!(counts.black, 0);
    match &g.state {
        GameInfoState::GameOver { winner, .. } => assert_eq!(*winner, Some(Team(false))),
        _ => panic!("game should be over"),
    }
}

#[test]
fn equal_tiebreaker_counts_leave_a_draw() {
    let mut g = started_game();
    play_round(&mut g, true, true);
    g.next_round_if_ready(0).unwrap();
    play_round(&mut g, true, true);
    g.next_round_if_ready(0).unwrap();
    play_round(&mut g, true, true);
    g.next_round_if_ready(0).unwrap();
    let black_words = keywords_of(&g, Team(true));
    let white_words = keywords_of(&g, Team(false));
    g.submit_tiebreaker(Team(false), black_words).unwrap();
    g.submit_tiebreaker(Team(true), white_words).unwrap();
    let counts = g.tiebreaker_over_if_ready().expect("tiebreaker should resolve");
    assert_eq!(counts.white, 4);
    assert_eq!(counts.black, 4);
    match &g.state {
        GameInfoState::GameOver { winner, .. } => assert_eq!(*winner, None),
        _ => panic!("game should be over"),
    }
}

#[test]
fn higher_total_at_limit_wins_outright() {
    let mut g = started_game();
    // Only White intercepts correctly in rounds 2 and 3.
    play_round(&mut g, true, true);
    g.next_round_if_ready(0).unwrap();
    let advance = |g: &mut GameInfo| {
        let (w, b) = current_round(g);
        g.submit_clues(w.encryptor, Team(false), three_clues()).unwrap();
        g.submit_clues(b.encryptor, Team(true), three_clues()).unwrap();
        g.submit_decipher(other_member(Team(false), w.encryptor), Team(false), w.code.clone())
            .unwrap();
        g.submit_decipher(other_member(Team(true), b.encryptor), Team(true), b.code.clone())
            .unwrap();
        // White intercepts Black's code; Black guesses a permutation.
        g.submit_intercept(other_member(Team(false), w.encryptor), Team(false), b.code.clone())
            .unwrap();
        let miss = Code(vec![w.code.0[1], w.code.0[0], w.code.0[2]]);
        g.submit_intercept(other_member(Team(true), b.encryptor), Team(true), miss).unwrap();
        g.next_round_if_ready(0).unwrap();
    };
    advance(&mut g);
    advance(&mut g);
    match &g.state {
        GameInfoState::GameOver { winner, tiebreaker, .. } => {
            assert_eq!(*winner, Some(Team(false)));
            assert!(tiebreaker.is_none());
        },
        _ => panic!("White should have won outright"),
    }
}

#[test]
fn expired_frustration_deadline_times_out_immediately() {
    let mut g = started_game();
    // No fixed deadline is configured by default, so arm a frustration
    // timer against White first.
    let armed = g.mark_frustrated(true, decrypto::PerTeam { white: true, black: false }, 1000);
    assert!(armed.white);
    assert!(!armed.black);
    // The grace period for encrypting is ten seconds; well past it, a
    // second frustration request enforces the deadline on the spot
    // instead of arming a new timer.
    let armed = g.mark_frustrated(true, decrypto::PerTeam { white: true, black: false }, 50000);
    assert!(!armed.white);
    let (w, _) = current_round(&g);
    assert_eq!(w.timed_out.encrypt, Some(DeadlineReason::Frustrated));
    match &g.state {
        GameInfoState::InGame { deadlines, .. } => assert!(deadlines.white.is_none()),
        _ => panic!("game should be running"),
    }
}

#[test]
fn trigger_timers_enforces_expired_deadlines() {
    let mut g = started_game();
    let armed = g.mark_frustrated(false, decrypto::PerTeam { white: false, black: true }, 0);
    assert!(armed.black);
    // Not expired yet.
    assert!(!g.enforce_expired_deadlines(1000));
    // The guess grace period is sixty seconds.
    assert!(g.enforce_expired_deadlines(70000));
    let (_, b) = current_round(&g);
    assert_eq!(b.timed_out.encrypt, Some(DeadlineReason::Frustrated));
}

#[test]
fn startable_requires_full_teams() {
    let lists = word_source();
    let mut g = GameInfo::default();
    g.add_player(a());
    assert_eq!(
        g.startable(&lists).unwrap_err(),
        "All players must join a team before starting the game"
    );
    g.assign_player(a(), GamePlayerInfo::InTeam(Team(false)));
    assert_eq!(g.startable(&lists).unwrap_err(), "Each team must have at least 2 players");
    g.add_player(b());
    g.add_player(c());
    g.add_player(d());
    g.assign_player(b(), GamePlayerInfo::InTeam(Team(false)));
    g.assign_player(c(), GamePlayerInfo::InTeam(Team(true)));
    g.assign_player(d(), GamePlayerInfo::InTeam(Team(true)));
    assert!(g.startable(&lists).is_ok());
    g.start(&lists[0].words, 0);
    assert_eq!(g.startable(&lists).unwrap_err(), "Only games in lobby can be started");
}

#[test]
fn kick_records_team_and_rejoin_restores_it() {
    let mut g = started_game();
    g.kick_player(b());
    let members = g.players_in_team(Team(false));
    assert!(!members.contains(&b()));
    let info = g.player_info(b()).unwrap();
    assert_eq!(info, GamePlayerInfo::LeftGame(Some(Team(false))));
    // Rejoining restores exactly the old team; the stable player order
    // is unchanged.
    g.assign_player(b(), GamePlayerInfo::InTeam(Team(false)));
    assert_eq!(g.player_info(b()).unwrap(), GamePlayerInfo::InTeam(Team(false)));
    let aff = g.affiliated_players(Team(false));
    assert_eq!(aff, vec![a(), b()]);
}

#[test]
fn inputs_follow_the_round_phases() {
    let lists = word_source();
    let mut g = started_game();
    let (w, b) = current_round(&g);
    let view_inputs = |g: &GameInfo, viewer: UserId| -> Inputs {
        match decrypto::game_state_view(g, viewer, &word_source()) {
            GameStateView::InGame { inputs, .. } => inputs,
            _ => panic!("expected a running game"),
        }
    };
    // During the encrypt phase the encryptor is asked for their code
    // and everyone else waits for the encryptors.
    match view_inputs(&g, w.encryptor) {
        Inputs::Encrypt { code, .. } => assert!(code == w.code),
        _ => panic!("the encryptor should be asked to encrypt"),
    }
    match view_inputs(&g, other_member(Team(false), w.encryptor)) {
        Inputs::WaitingForEncryptors { teams, .. } => {
            assert!(teams.white);
            assert!(teams.black);
        },
        _ => panic!("non-encryptors should wait for the encryptors"),
    }
    // Once both teams' clues are in, guessers owe a decipher (and no
    // intercept in the first round), encryptors wait.
    g.submit_clues(w.encryptor, Team(false), three_clues()).unwrap();
    g.submit_clues(b.encryptor, Team(true), three_clues()).unwrap();
    match view_inputs(&g, other_member(Team(false), w.encryptor)) {
        Inputs::Guess { intercept, decipher, .. } => {
            assert!(decipher);
            assert!(!intercept);
        },
        _ => panic!("guessers should be asked to guess"),
    }
    match view_inputs(&g, w.encryptor) {
        Inputs::WaitingForGuessers { .. } => {},
        _ => panic!("encryptors should wait for the guessers"),
    }
    // After White's decipher, White waits for the remaining guessers.
    g.submit_decipher(other_member(Team(false), w.encryptor), Team(false), w.code.clone())
        .unwrap();
    match view_inputs(&g, other_member(Team(false), w.encryptor)) {
        Inputs::WaitingForGuessers { teams, .. } => {
            assert!(!teams.white);
            assert!(teams.black);
        },
        _ => panic!("a finished guesser should wait"),
    }
    let _ = lists;
}

#[test]
fn tiebreaker_and_terminal_views() {
    let lists = word_source();
    let mut g = started_game();
    play_round(&mut g, true, true);
    g.next_round_if_ready(0).unwrap();
    play_round(&mut g, true, true);
    g.next_round_if_ready(0).unwrap();
    play_round(&mut g, true, true);
    g.next_round_if_ready(0).unwrap();
    // In the tiebreaker the current round is hidden and the inputs name
    // the teams that are done.
    match decrypto::game_state_view(&g, a(), &lists) {
        GameStateView::InGame { current_round, inputs, completed_rounds, .. } => {
            assert!(current_round.is_none());
            assert_eq!(completed_rounds.len(), 3);
            match inputs {
                Inputs::Tiebreaker { teams_done, .. } => {
                    assert!(!teams_done.white);
                    assert!(!teams_done.black);
                },
                _ => panic!("expected tiebreaker inputs"),
            }
        },
        _ => panic!("expected a running game"),
    }
    let black_words = keywords_of(&g, Team(true));
    let white_words = keywords_of(&g, Team(false));
    g.submit_tiebreaker(Team(false), black_words).unwrap();
    g.submit_tiebreaker(Team(true), white_words).unwrap();
    g.tiebreaker_over_if_ready().unwrap();
    // Once the game is over the whole history is public, tiebreaker
    // guesses included.
    match decrypto::game_state_view(&g, c(), &lists) {
        GameStateView::GameOver { winner, keywords, completed_rounds, tiebreaker } => {
            assert_eq!(winner, None);
            assert_eq!(keywords.white.len(), 4);
            assert_eq!(completed_rounds.len(), 3);
            let tb = tiebreaker.expect("the tiebreaker should be recorded");
            assert!(tb.white.guesses.iter().all(|s| s.is_some()));
        },
        _ => panic!("expected a finished game"),
    }
}

#[test]
fn lobby_view_reports_readiness() {
    let lists = word_source();
    let mut g = GameInfo::default();
    g.add_player(a());
    match decrypto::game_state_view(&g, a(), &lists) {
        GameStateView::Lobby { reason_not_startable } => {
            assert_eq!(
                reason_not_startable.unwrap(),
                "All players must join a team before starting the game"
            );
        },
        _ => panic!("expected a lobby"),
    }
    g.assign_player(a(), GamePlayerInfo::InTeam(Team(false)));
    g.add_player(b());
    g.assign_player(b(), GamePlayerInfo::InTeam(Team(false)));
    g.add_player(c());
    g.assign_player(c(), GamePlayerInfo::InTeam(Team(true)));
    g.add_player(d());
    g.assign_player(d(), GamePlayerInfo::InTeam(Team(true)));
    match decrypto::game_state_view(&g, a(), &lists) {
        GameStateView::Lobby { reason_not_startable } => {
            assert!(reason_not_startable.is_none());
        },
        _ => panic!("expected a lobby"),
    }
}

#[test]
fn frustration_is_not_armed_for_a_fully_timed_out_team() {
    let mut g = started_game();
    // Time White out of both phases through two frustration cycles.
    g.mark_frustrated(true, decrypto::PerTeam { white: true, black: false }, 0);
    g.mark_frustrated(true, decrypto::PerTeam { white: true, black: false }, 20000);
    g.mark_frustrated(false, decrypto::PerTeam { white: true, black: false }, 30000);
    g.mark_frustrated(false, decrypto::PerTeam { white: true, black: false }, 100000);
    let (w, _) = current_round(&g);
    assert!(w.timed_out.encrypt.is_some());
    assert!(w.timed_out.guess.is_some());
    // With both timeout slots taken, a further request arms nothing.
    let armed = g.mark_frustrated(true, decrypto::PerTeam { white: true, black: false }, 200000);
    assert!(!armed.white);
    match &g.state {
        GameInfoState::InGame { deadlines, .. } => assert!(deadlines.white.is_none()),
        _ => panic!("game should be running"),
    }
}

#[test]
fn kick_after_game_over_keeps_the_recorded_team() {
    let mut g = started_game();
    // Only White intercepts correctly until it wins outright.
    play_round(&mut g, true, true);
    g.next_round_if_ready(0).unwrap();
    let one_sided = |g: &mut GameInfo| {
        let (w, b) = current_round(g);
        g.submit_clues(w.encryptor, Team(false), three_clues()).unwrap();
        g.submit_clues(b.encryptor, Team(true), three_clues()).unwrap();
        g.submit_decipher(other_member(Team(false), w.encryptor), Team(false), w.code.clone())
            .unwrap();
        g.submit_decipher(other_member(Team(true), b.encryptor), Team(true), b.code.clone())
            .unwrap();
        g.submit_intercept(other_member(Team(false), w.encryptor), Team(false), b.code.clone())
            .unwrap();
        let miss = Code(vec![w.code.0[1], w.code.0[0], w.code.0[2]]);
        g.submit_intercept(other_member(Team(true), b.encryptor), Team(true), miss).unwrap();
        g.next_round_if_ready(0).unwrap();
    };
    one_sided(&mut g);
    one_sided(&mut g);
    match &g.state {
        GameInfoState::GameOver { .. } => {},
        _ => panic!("the game should be over"),
    }
    // A kick after the game ended still records the member's team, so a
    // later rejoin cannot change sides.
    g.kick_player(c());
    assert_eq!(g.player_info(c()).unwrap(), GamePlayerInfo::LeftGame(Some(Team(true))));
}
