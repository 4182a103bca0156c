//! Game-session engine for a two-team word-deduction party game.
//!
//! The crate tracks game lobbies, enforces the per-round protocol
//! (encrypt, guess, intercept, score, advance), resolves tiebreakers,
//! handles deadlines, and computes each participant's privacy-filtered
//! view of the shared state.

mod assoc;
mod code;
mod directory;
mod game;
mod id;
mod laws;
mod message;
mod randomness;
mod round;
mod settings;
mod team;
mod textutil;
mod view;

pub use assoc::assoc_fresh_key;
pub use assoc::assoc_has;
pub use assoc::assoc_index;
pub use assoc::assoc_val;
pub use assoc::keys_unique;
pub use code::Code;
pub use code::code_wf;
pub use directory::broadcast_entry_ok;
pub use directory::ClientData;
pub use directory::game_view_ok;
pub use directory::Outbound;
pub use directory::player_entry_ok;
pub use directory::State;
pub use directory::state_eq;
pub use directory::UserData;
pub use directory::wordlists_wf;
pub use directory::auth_post;
pub use directory::connected_count;
pub use directory::create_lobby_post;
pub use directory::frustrated_post;
pub use directory::game_started_ok;
pub use directory::global_chat_post;
pub use directory::info_reply;
pub use directory::join_lobby_post;
pub use directory::join_team_post;
pub use directory::kick_post;
pub use directory::leave_lobby_post;
pub use directory::lemma_connected_count_bounds;
pub use directory::member_team;
pub use directory::not_in_game_reply;
pub use directory::set_nick_post;
pub use directory::start_game_post;
pub use directory::submit_clues_post;
pub use directory::submit_guess_post;
pub use directory::submit_tiebreaker_post;
pub use directory::trigger_timers_post;
pub use game::affiliated;
pub use game::fresh_round_for;
pub use game::GameInfo;
pub use game::GameInfoState;
pub use game::GameInfoStateCurrentRound;
pub use game::GamePlayerInfo;
pub use game::GameState;
pub use game::keywords_drawn;
pub use game::lemma_affiliated_unique;
pub use game::lemma_members_affiliated;
pub use game::roster_has;
pub use game::roster_index;
pub use game::roster_info;
pub use game::rotation_index;
pub use game::RoundOutcome;
pub use game::settings_sane;
pub use game::spec_any_not_in_team;
pub use game::spec_deadline_expired;
pub use game::spec_deadline_sum;
pub use game::spec_enforced_deadline;
pub use game::spec_enforced_round;
pub use game::spec_enforced_tb;
pub use game::spec_fixed_deadline;
pub use game::spec_frustrated_team;
pub use game::deadlines_enforced_ok;
pub use game::frustration_ok;
pub use game::game_with_guess;
pub use game::round_advance_ok;
pub use game::spec_outcome;
pub use game::spec_rotated_encryptor;
pub use game::tb_score;
pub use game::tb_team_done;
pub use game::tb_team_fresh;
pub use game::team_members;
pub use game::timeout_next;
pub use game::unique_keys;
pub use id::ConnectionId;
pub use id::DrawingId;
pub use id::GameId;
pub use id::UserId;
pub use id::UserSecret;
pub use laws::apply_membership_ops;
pub use laws::iterate_rotation;
pub use laws::kick_transition;
pub use laws::lemma_duplicate_clues_rejected;
pub use laws::lemma_duplicate_decipher_rejected;
pub use laws::lemma_duplicate_intercept_rejected;
pub use laws::lemma_membership_ops_closed;
pub use laws::lemma_membership_permanence;
pub use laws::lemma_rotation_advances;
pub use laws::lemma_rotation_step;
pub use laws::lemma_round_decision_exclusive;
pub use laws::lemma_unattempted_decipher_not_penalized;
pub use laws::lemma_view_privacy;
pub use laws::rejoin_transition;
pub use message::ChatMessage;
pub use message::Clue;
pub use message::CompletedRoundPerTeam;
pub use message::CurrentRoundPerTeam;
pub use message::Deadline;
pub use message::DeadlineReason;
pub use message::ErrorSeverity;
pub use message::FromClient;
pub use message::GameStateView;
pub use message::GameView;
pub use message::Inputs;
pub use message::PlayerInfo;
pub use message::ToClient;
pub use message::UserInfo;
pub use round::aggregate_scores;
pub use round::AggregateScore;
pub use round::encrypt_done;
pub use round::guess_done;
pub use round::round_ready;
pub use round::RoundPerTeam;
pub use round::RoundResult;
pub use round::spec_intercept_count;
pub use round::spec_misc_count;
pub use round::spec_score;
pub use round::spec_score_for;
pub use round::TiebreakerRoundPerTeam;
pub use round::TimedOut;
pub use settings::ClueMode;
pub use settings::EncryptTimeLimit;
pub use settings::GameSettings;
pub use settings::GuessTimeLimit;
pub use settings::is_word_of;
pub use settings::spec_settings_valid;
pub use settings::spec_validate_error;
pub use settings::spec_wordlist_usable;
pub use settings::Tiebreaker;
pub use settings::Wordlist;
pub use team::PerTeam;
pub use team::Role;
pub use team::Team;
pub use textutil::append_decimal;
pub use textutil::check_tiebreaker_guess;
pub use textutil::dec_str;
pub use textutil::eq_ignore_ascii_case_spec;
pub use textutil::line_at;
pub use textutil::parse_wordlist_text;
pub use textutil::parsed_lines_ok;
pub use textutil::tb_guess_matches;
pub use textutil::trimmed;
pub use textutil::trimmed_copy;
pub use view::completed_view_ok;
pub use view::current_view_ok;
pub use view::game_state_view;
pub use view::inputs_like;
pub use view::opt_clues_like;
pub use view::opt_code_like;
pub use view::round_entry_like;
pub use view::sort_players;
pub use view::spec_inputs_normal;
pub use view::state_view_ok;
pub use view::tb_entry_like;
