//! Values exchanged with participants: inbound actions, outbound state
//! and error messages, chat entries, and deadlines.

use vstd::prelude::*;

use crate::code::Code;
use crate::id::DrawingId;
use crate::id::GameId;
use crate::id::UserId;
use crate::id::UserSecret;
use crate::round::RoundPerTeam;
use crate::round::RoundResult;
use crate::round::TiebreakerRoundPerTeam;
use crate::settings::GameSettings;
use crate::team::PerTeam;
use crate::team::Team;

verus! {

/// A single clue given by an encryptor: free text or a drawing
/// reference.
#[derive(Debug, Clone, PartialEq, Eq)]
pub enum Clue {
    Text(String),
    Image(DrawingId),
}

/// Why a deadline was armed.
#[derive(Debug, Clone, Copy, PartialEq, Eq, Structural)]
pub enum DeadlineReason {
    /// The deadline is fixed by the settings.
    Fixed,
    /// The other team has finished their part.
    OtherFinished,
    /// The other team has asked this one to hurry up.
    Frustrated,
}

/// An absolute expiry instant, in milliseconds, plus the reason it was
/// armed. At most one deadline is outstanding per team at a time.
#[derive(Debug, Clone, Copy, PartialEq, Eq, Structural)]
pub struct Deadline {
    /// Expiry instant, in milliseconds on the caller's clock.
    pub at: u64,
    /// Reason for the deadline.
    pub reason: DeadlineReason,
}

/// One entry of a session's chat log.
#[derive(Debug, Clone, PartialEq, Eq)]
pub struct ChatMessage {
    /// None for server messages.
    pub author: Option<UserId>,
    pub text: String,
}

impl ChatMessage {
    /// A message from the server itself.
    pub fn system(text: String) -> (r: ChatMessage)
        ensures
            r.author is None,
            r.text == text,
    {
        ChatMessage { author: None, text }
    }
}

/// How severe an error report is for the receiving client.
#[derive(Debug, Clone, Copy, PartialEq, Eq, Structural)]
pub enum ErrorSeverity {
    Info,
    Warning,
    Error,
}

/// An inbound action from one client.
#[derive(Debug, Clone)]
pub enum FromClient {
    Auth { secret: Option<UserSecret> },
    SetNick(String),
    CreateLobby,
    JoinLobby(GameId),
    LeaveLobby,
    JoinTeam(Team),
    Kick(UserId),
    StartGame,
    SubmitClues(Vec<Clue>),
    SubmitDecipher(Code),
    SubmitIntercept(Code),
    SubmitTiebreaker(Vec<String>),
    TriggerTimers,
    Frustrated {
        /// Is this about guessing or encrypting?
        encrypting: bool,
        /// Teams the frustration is about.
        teams: PerTeam<bool>,
    },
    GlobalChat(String),
}

/// What the server knows about the receiving user themselves.
#[derive(Debug, Clone)]
pub struct UserInfo {
    pub id: UserId,
    pub secret: UserSecret,
    pub nick: Option<String>,
}

/// One roster entry as shown to every participant.
#[derive(Debug, Clone, PartialEq, Eq)]
pub struct PlayerInfo {
    pub id: UserId,
    /// Whether the player is connected right now.
    pub connected: bool,
    /// Whether the player is still in the game. A disconnected player
    /// still counts as present until kicked; `false` means the player
    /// was kicked or left.
    pub is_in_game: bool,
    /// Nickname of the player.
    pub nick: String,
    /// None for players that have not joined a team yet, or were kicked
    /// before one was recorded.
    pub team: Option<Team>,
}

/// Game view from the perspective of a single user.
#[derive(Debug, Clone)]
pub struct GameView {
    pub id: GameId,
    pub settings: GameSettings,
    /// All players that have ever been in this game, ordered by
    /// identifier.
    pub players: Vec<PlayerInfo>,
    pub global_chat: Vec<ChatMessage>,
    pub state: GameStateView,
}

/// The state-dependent part of a user's game view.
#[derive(Debug, Clone)]
pub enum GameStateView {
    Lobby {
        /// Why the game cannot start yet; None is the ready signal.
        reason_not_startable: Option<String>,
    },
    InGame {
        /// Completed rounds (public information).
        completed_rounds: Vec<PerTeam<CompletedRoundPerTeam>>,
        /// The current round, partially filtered; None during the
        /// tiebreaker.
        current_round: Option<PerTeam<CurrentRoundPerTeam>>,
        /// The viewer's own team's keywords (private information).
        keywords: Vec<String>,
        /// What the viewer is expected to do next.
        inputs: Inputs,
    },
    /// The game is over; all information is public.
    GameOver {
        winner: Option<Team>,
        keywords: PerTeam<Vec<String>>,
        completed_rounds: Vec<PerTeam<CompletedRoundPerTeam>>,
        tiebreaker: Option<PerTeam<TiebreakerRoundPerTeam>>,
    },
    /// The game is in progress, but the viewer is not on a team.
    InGameNotInTeam,
}

/// One team's record of a completed round, with its computed score.
#[derive(Debug, Clone)]
pub struct CompletedRoundPerTeam {
    /// All non-computed properties; the rest derives from them.
    pub non_computed: RoundPerTeam,
    pub score: RoundResult,
}

/// One team's record of the running round, as one viewer may see it.
#[derive(Debug, Clone)]
pub struct CurrentRoundPerTeam {
    pub encryptor: UserId,
    /// `None` if the team ran out of time, or has not given clues yet.
    pub clues: Option<Vec<Clue>>,
    /// `None` if the team ran out of time, or has not guessed yet.
    /// Visible only to the team itself.
    pub decipher: Option<Code>,
    /// `None` if the team ran out of time, or has not intercepted yet.
    /// Visible only to the team itself.
    pub intercept: Option<Code>,
}

/// What the viewer is expected to do next in the running round.
#[derive(Debug, Clone)]
pub enum Inputs {
    Encrypt {
        code: Code,
        deadline: Option<Deadline>,
    },
    Guess {
        /// Which of the two guesses the viewer's team still owes.
        intercept: bool,
        decipher: bool,
        deadline: Option<Deadline>,
    },
    WaitingForEncryptors {
        /// True for teams whose clues are still pending.
        teams: PerTeam<bool>,
        deadline: Option<Deadline>,
    },
    WaitingForGuessers {
        /// True for teams whose guesses are still pending.
        teams: PerTeam<bool>,
        deadline: Option<Deadline>,
    },
    Tiebreaker {
        teams_done: PerTeam<bool>,
        deadline: Option<Deadline>,
    },
    /// No round is live.
    RoundNotActive,
    /// The game is over; the only input left is leaving the lobby.
    GameOver,
}

/// An outbound message to one client.
#[derive(Debug, Clone)]
pub enum ToClient {
    State { user_info: UserInfo, game: Option<GameView> },
    Error { message: String, severity: ErrorSeverity },
}

} // verus!
