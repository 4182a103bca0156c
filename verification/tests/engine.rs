// Tests for the round engine, settings validation, and text helpers.

use decrypto::AggregateScore;
use decrypto::Code;
use decrypto::DeadlineReason;
use decrypto::GameSettings;
use decrypto::PerTeam;
use decrypto::RoundPerTeam;
use decrypto::Team;
use decrypto::TimedOut;
use decrypto::Wordlist;
use decrypto::UserId;
use decrypto::aggregate_scores;
use decrypto::check_tiebreaker_guess;

fn word_source() -> Vec<Wordlist> {
    vec![Wordlist {
        name: "original".to_string(),
        words: vec![
            "apple".to_string(),
            "bridge".to_string(),
            "candle".to_string(),
            "desert".to_string(),
            "engine".to_string(),
            "forest".to_string(),
            "garden".to_string(),
            "harbor".to_string(),
            "island".to_string(),
            "jungle".to_string(),
        ],
    }]
}

fn bare_round(encryptor: u128, code: Vec<usize>) -> RoundPerTeam {
    RoundPerTeam {
        encryptor: UserId(encryptor),
        code: Code(code),
        clues: None,
        decipher: None,
        intercept: None,
        timed_out: TimedOut { encrypt: None, guess: None },
    }
}

#[test]
fn default_settings_are_valid() {
    let settings = GameSettings::default();
    assert!(settings.validate(&word_source()).is_ok());
}

#[test]
fn validate_reports_first_failure() {
    let lists = word_source();
    let mut s = GameSettings::default();
    s.round_limit = Some(2);
    assert_eq!(s.validate(&lists).unwrap_err(), "Round limit must be at least 3");
    let mut s = GameSettings::default();
    s.miscommunication_limit = 0;
    assert_eq!(s.validate(&lists).unwrap_err(), "Miscommunication limit must be at least 1");
    let mut s = GameSettings::default();
    s.intercept_limit = 0;
    assert_eq!(s.validate(&lists).unwrap_err(), "Intercept limit must be at least 1");
    let mut s = GameSettings::default();
    s.intercept_limit = 7;
    assert_eq!(
        s.validate(&lists).unwrap_err(),
        "Intercept limit must be less than round limit minus 1"
    );
    let mut s = GameSettings::default();
    s.miscommunication_limit = 7;
    assert_eq!(
        s.validate(&lists).unwrap_err(),
        "Miscommunication limit must be less than round limit minus 1"
    );
    let mut s = GameSettings::default();
    s.keyword_count = 3;
    assert_eq!(s.validate(&lists).unwrap_err(), "Keyword count must be at least 4");
    let mut s = GameSettings::default();
    s.clue_count = 1;
    assert_eq!(
        s.validate(&lists).unwrap_err(),
        "Clue count must be between 2 and the keyword count"
    );
    let mut s = GameSettings::default();
    s.wordlist = "missing".to_string();
    assert_eq!(s.validate(&lists).unwrap_err(), "Wordlist does not exist");
    let mut s = GameSettings::default();
    s.keyword_count = 6;
    s.clue_count = 3;
    assert_eq!(s.validate(&lists).unwrap_err(), "Wordlist does not have enough words");
}

#[test]
fn random_code_is_distinct_and_in_range() {
    let settings = GameSettings::default();
    for _ in 0..50 {
        let code = settings.make_random_code();
        assert_eq!(code.len(), 3);
        for i in 0..3 {
            assert!(code.0[i] < 4);
            for j in 0..i {
                assert_ne!(code.0[i], code.0[j]);
            }
        }
    }
}

#[test]
fn keywords_are_disjoint_subsets() {
    let settings = GameSettings::default();
    let words = word_source().remove(0).words;
    for _ in 0..20 {
        let kw = settings.pick_random_keywords(&words);
        assert_eq!(kw.white.len(), 4);
        assert_eq!(kw.black.len(), 4);
        for w in kw.white.iter().chain(kw.black.iter()) {
            assert!(words.contains(w));
        }
        for w in kw.white.iter() {
            assert!(!kw.black.contains(w));
        }
    }
}

#[test]
fn score_judges_deciphers_and_intercepts() {
    let mut white = bare_round(1, vec![0, 1, 2]);
    let mut black = bare_round(2, vec![3, 2, 1]);
    // White deciphers its own code correctly; Black never tries.
    white.decipher = Some(Code(vec![0, 1, 2]));
    // White intercepts Black's code wrongly; Black intercepts White's
    // code correctly.
    white.intercept = Some(Code(vec![1, 2, 3]));
    black.intercept = Some(Code(vec![0, 1, 2]));
    let round = PerTeam { white, black };
    let score = round.score();
    assert!(score.white.decipher);
    assert_eq!(score.white.intercept, Some(false));
    // An unattempted decipher is not penalized.
    assert!(score.black.decipher);
    assert_eq!(score.black.intercept, Some(true));
}

#[test]
fn aggregate_sums_misses_and_intercepts() {
    let mut w1 = bare_round(1, vec![0, 1, 2]);
    let b1 = bare_round(2, vec![3, 2, 1]);
    w1.decipher = Some(Code(vec![2, 1, 0]));  // wrong: miscommunication
    let mut w2 = bare_round(1, vec![1, 2, 3]);
    let mut b2 = bare_round(2, vec![0, 3, 1]);
    w2.decipher = Some(Code(vec![1, 2, 3]));  // right
    w2.intercept = Some(Code(vec![0, 3, 1]));  // intercepts Black
    b2.intercept = Some(Code(vec![0, 0, 0]));  // fails
    let rounds = vec![PerTeam { white: w1, black: b1 }, PerTeam { white: w2, black: b2 }];
    let aggr = aggregate_scores(&rounds);
    assert_eq!(aggr.white, AggregateScore { miscommunications: 1, intercepts: 1 });
    assert_eq!(aggr.black, AggregateScore { miscommunications: 0, intercepts: 0 });
    assert_eq!(aggr.white.total(), 0);
    assert_eq!(aggr.black.total(), 0);
}

#[test]
fn total_is_intercepts_minus_miscommunications() {
    let a = AggregateScore { miscommunications: 3, intercepts: 1 };
    assert_eq!(a.total(), -2);
    let b = AggregateScore { miscommunications: 0, intercepts: 5 };
    assert_eq!(b.total(), 5);
}

#[test]
fn tiebreaker_guess_matching_trims_and_folds_case() {
    assert!(check_tiebreaker_guess("Apple", "apple"));
    assert!(check_tiebreaker_guess("  apple  ", "apple"));
    assert!(check_tiebreaker_guess("BRIDGE", "\tbridge\n"));
    assert!(!check_tiebreaker_guess("apples", "apple"));
    assert!(!check_tiebreaker_guess("", "apple"));
    assert!(check_tiebreaker_guess("  ", ""));
}

#[test]
fn timeouts_fill_encrypt_then_guess() {
    let mut t = TimedOut { encrypt: None, guess: None };
    t.set_next(DeadlineReason::Fixed);
    assert_eq!(t.encrypt, Some(DeadlineReason::Fixed));
    assert_eq!(t.guess, None);
    t.set_next(DeadlineReason::Frustrated);
    assert_eq!(t.encrypt, Some(DeadlineReason::Fixed));
    assert_eq!(t.guess, Some(DeadlineReason::Frustrated));
}

#[test]
fn per_team_helpers() {
    let p = PerTeam { white: 3usize, black: 5usize };
    assert_eq!(*p.get(Team(false)), 3);
    assert_eq!(*p.get(Team(true)), 5);
    assert!(p.either(|x: &usize| *x == 5));
    assert!(!p.both(|x: &usize| *x == 5));
    let doubled = p.map(|x: usize| x * 2);
    assert_eq!(doubled.white, 6);
    assert_eq!(doubled.black, 10);
    let q = PerTeam::splat(7u64);
    assert_eq!(q.white, 7);
    assert_eq!(q.black, 7);
    let flags = PerTeam { white: true, black: false };
    assert_eq!(flags.teams(), vec![Team(false)]);
    let both = PerTeam { white: true, black: true };
    assert_eq!(both.teams(), vec![Team(false), Team(true)]);
}

#[test]
fn code_equality_is_by_contents() {
    assert!(Code(vec![1, 2, 3]) == Code(vec![1, 2, 3]));
    assert!(Code(vec![1, 2, 3]) != Code(vec![1, 3, 2]));
    assert!(Code(vec![1, 2]) != Code(vec![1, 2, 3]));
    assert_eq!(Code(vec![1, 2]).len(), 2);
}

#[test]
fn team_accessors() {
    assert_eq!(Team(false).other(), Team(true));
    assert_eq!(Team(true).other(), Team(false));
    assert_eq!(Team(false).index(), 0);
    assert_eq!(Team(true).index(), 1);
}

#[test]
fn wordlist_text_parses_to_distinct_trimmed_words() {
    let text = "apple\n  bridge  \n\napple\ncandle\n   \nbridge\n";
    let words = decrypto::parse_wordlist_text(text);
    assert_eq!(words, vec!["apple".to_string(), "bridge".to_string(), "candle".to_string()]);
}

#[test]
fn wordlist_text_without_final_newline() {
    let words = decrypto::parse_wordlist_text("one\ntwo");
    assert_eq!(words, vec!["one".to_string(), "two".to_string()]);
    assert!(decrypto::parse_wordlist_text("").is_empty());
}

#[test]
fn tiebreaker_guess_trims_all_unicode_whitespace() {
    assert!(decrypto::check_tiebreaker_guess("\u{b}apple\u{c}", "apple"));
    assert!(decrypto::check_tiebreaker_guess("\u{a0}apple\u{2003}", "APPLE"));
    assert!(decrypto::check_tiebreaker_guess("apple\u{3000}", "\u{2028}apple"));
    assert!(!decrypto::check_tiebreaker_guess("app\u{a0}le", "apple"));
}
