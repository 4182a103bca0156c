//! Validated configuration for a session, plus the random drawing of
//! codes and keyword sets that a game start needs.

use vstd::prelude::*;

use crate::code::Code;
use crate::code::code_wf;
use crate::randomness::rand_index;
use crate::team::PerTeam;

verus! {

/// One word source: a name and its ordered list of words.
#[derive(Debug, Clone)]
pub struct Wordlist {
    pub name: String,
    /// Distinct, non-empty entries.
    pub words: Vec<String>,
}

/// How clues are given.
#[derive(Debug, Clone, Copy, PartialEq, Eq, Structural)]
pub enum ClueMode {
    Text,
    Draw,
    Either,
}

impl Default for ClueMode {
    fn default() -> (r: ClueMode)
        ensures
            r == ClueMode::Either,
    {
        ClueMode::Either
    }
}

/// When to play a tiebreaker round.
#[derive(Debug, Clone, Copy, PartialEq, Eq, Structural)]
pub enum Tiebreaker {
    /// Play the tiebreaker round normally, i.e. when a draw would occur.
    OnDraw,
    /// Never play a tiebreaker round.
    Never,
    /// Always play a tiebreaker round, even if a team won outright.
    Always,
}

impl Default for Tiebreaker {
    fn default() -> (r: Tiebreaker)
        ensures
            r == Tiebreaker::OnDraw,
    {
        Tiebreaker::OnDraw
    }
}

/// Time limits for the encrypt phase, in milliseconds.
#[derive(Debug, Clone, Copy, PartialEq, Eq, Structural)]
pub struct EncryptTimeLimit {
    /// Fixed upper limit.
    pub fixed: Option<u64>,
    /// Timer that starts after the other team is done.
    pub after_other: Option<u64>,
    /// Timer that starts after a team marks frustration.
    pub after_frustrated: u64,
}

impl Default for EncryptTimeLimit {
    fn default() -> (r: EncryptTimeLimit)
        ensures
            r == (EncryptTimeLimit { fixed: None, after_other: None, after_frustrated: 10000u64 }),
    {
        EncryptTimeLimit { fixed: None, after_other: None, after_frustrated: 10000 }
    }
}

/// Time limits for the guess phase, in milliseconds.
#[derive(Debug, Clone, Copy, PartialEq, Eq, Structural)]
pub struct GuessTimeLimit {
    /// Fixed upper limit.
    pub fixed: Option<u64>,
    /// Timer that starts after a team marks frustration.
    pub after_frustrated: u64,
}

impl Default for GuessTimeLimit {
    fn default() -> (r: GuessTimeLimit)
        ensures
            r == (GuessTimeLimit { fixed: None, after_frustrated: 60000u64 }),
    {
        GuessTimeLimit { fixed: None, after_frustrated: 60000 }
    }
}

/// Settings of one game session.
#[derive(Debug, Clone)]
pub struct GameSettings {
    /// After how many rounds the tiebreaker or draw procedure starts.
    /// Default 8. Min 3.
    pub round_limit: Option<usize>,
    /// How many keywords each team holds.
    /// Default 4. Min 4.
    pub keyword_count: usize,
    /// How many clues per round; also the code length.
    /// Default 3. Min 2. Max `keyword_count`.
    pub clue_count: usize,
    /// How clues are given.
    pub clue_mode: ClueMode,
    /// Name of the keyword list to use for the game.
    pub wordlist: String,
    /// Miscommunication limit before losing.
    /// Default 2. Min 1. Max `round_limit - 2`.
    pub miscommunication_limit: usize,
    /// Intercept limit before winning.
    /// Default 2. Min 1. Max `round_limit - 2`.
    pub intercept_limit: usize,
    /// When to play the tiebreaker round.
    pub tiebreaker: Tiebreaker,
    /// Timer for encryptors to pick their clues.
    pub encrypt_time_limit: EncryptTimeLimit,
    /// Time to decide decipher and intercept attempts.
    pub guess_time_limit: GuessTimeLimit,
    /// Time for the tiebreaker round.
    pub tiebreaker_time_limit: GuessTimeLimit,
}

impl Default for GameSettings {
    fn default() -> (r: GameSettings)
        ensures
            r.round_limit == Some(8usize),
            r.keyword_count == 4usize,
            r.clue_count == 3usize,
            r.clue_mode == ClueMode::Either,
            r.wordlist@ == "original"@,
            r.miscommunication_limit == 2usize,
            r.intercept_limit == 2usize,
            r.tiebreaker == Tiebreaker::OnDraw,
            r.encrypt_time_limit == (EncryptTimeLimit {
                fixed: None,
                after_other: None,
                after_frustrated: 10000u64,
            }),
            r.guess_time_limit == (GuessTimeLimit { fixed: None, after_frustrated: 60000u64 }),
            r.tiebreaker_time_limit == (GuessTimeLimit { fixed: None, after_frustrated: 60000u64 }),
    {
        GameSettings {
            round_limit: Some(8),
            keyword_count: 4,
            clue_count: 3,
            clue_mode: ClueMode::default(),
            wordlist: String::from_str("original"),
            miscommunication_limit: 2,
            intercept_limit: 2,
            tiebreaker: Tiebreaker::default(),
            encrypt_time_limit: EncryptTimeLimit::default(),
            guess_time_limit: GuessTimeLimit::default(),
            tiebreaker_time_limit: GuessTimeLimit::default(),
        }
    }
}

/// The round limit against which the score limits are checked: the
/// configured limit, or effectively unbounded when none is set.
pub open spec fn spec_round_cap(s: GameSettings) -> int {
    match s.round_limit {
        Some(rl) => rl as int,
        None => usize::MAX as int,
    }
}

/// A word source of the given name exists and holds enough entries to
/// draw both teams' keyword sets.
pub open spec fn spec_wordlist_usable(s: GameSettings, lists: Seq<Wordlist>) -> bool {
    exists|i: int|
        0 <= i < lists.len() && #[trigger] lists[i].name@ == s.wordlist@ && lists[i].words.len()
            >= 2 * s.keyword_count
}

/// A word source of the given name exists at all.
pub open spec fn spec_wordlist_exists(s: GameSettings, lists: Seq<Wordlist>) -> bool {
    exists|i: int| 0 <= i < lists.len() && #[trigger] lists[i].name@ == s.wordlist@
}

/// All conditions a game's settings must meet before the game can
/// start, given the available word sources.
pub open spec fn spec_settings_valid(s: GameSettings, lists: Seq<Wordlist>) -> bool {
    &&& (s.round_limit matches Some(rl) ==> rl >= 3)
    &&& s.miscommunication_limit >= 1
    &&& s.intercept_limit >= 1
    &&& s.intercept_limit < spec_round_cap(s) - 1
    &&& s.miscommunication_limit < spec_round_cap(s) - 1
    &&& s.keyword_count >= 4
    &&& 2 <= s.clue_count <= s.keyword_count
    &&& spec_wordlist_usable(s, lists)
}

/// The report the validator gives for the first failing condition, in
/// checking order.
pub open spec fn spec_validate_error(s: GameSettings, lists: Seq<Wordlist>) -> Seq<char> {
    if !(s.round_limit matches Some(rl) ==> rl >= 3) {
        "Round limit must be at least 3"@
    } else if !(s.miscommunication_limit >= 1) {
        "Miscommunication limit must be at least 1"@
    } else if !(s.intercept_limit >= 1) {
        "Intercept limit must be at least 1"@
    } else if !(s.intercept_limit < spec_round_cap(s) - 1) {
        "Intercept limit must be less than round limit minus 1"@
    } else if !(s.miscommunication_limit < spec_round_cap(s) - 1) {
        "Miscommunication limit must be less than round limit minus 1"@
    } else if !(s.keyword_count >= 4) {
        "Keyword count must be at least 4"@
    } else if !(2 <= s.clue_count <= s.keyword_count) {
        "Clue count must be between 2 and the keyword count"@
    } else if !spec_wordlist_exists(s, lists) {
        "Wordlist does not exist"@
    } else {
        "Wordlist does not have enough words"@
    }
}

impl GameSettings {
    /// Checks the settings against the available word sources, in a
    /// fixed order, and reports the first failing condition.
    pub fn validate(&self, lists: &Vec<Wordlist>) -> (r: Result<(), String>)
        ensures
            r is Ok <==> spec_settings_valid(*self, lists@),
            r matches Err(m) ==> m@ == spec_validate_error(*self, lists@),
    {
        if let Some(round_limit) = self.round_limit {
            if round_limit < 3 {
                return Err(String::from_str("Round limit must be at least 3"));
            }
        }
        if self.miscommunication_limit < 1 {
            return Err(String::from_str("Miscommunication limit must be at least 1"));
        }
        if self.intercept_limit < 1 {
            return Err(String::from_str("Intercept limit must be at least 1"));
        }
        let round_cap: usize = match self.round_limit {
            Some(rl) => rl,
            None => usize::MAX,
        };
        if self.intercept_limit >= round_cap - 1 {
            return Err(String::from_str("Intercept limit must be less than round limit minus 1"));
        }
        if self.miscommunication_limit >= round_cap - 1 {
            return Err(
                String::from_str("Miscommunication limit must be less than round limit minus 1"),
            );
        }
        if self.keyword_count < 4 {
            return Err(String::from_str("Keyword count must be at least 4"));
        }
        if self.clue_count < 2 || self.clue_count > self.keyword_count {
            return Err(String::from_str("Clue count must be between 2 and the keyword count"));
        }
        let mut exists_name = false;
        let mut usable = false;
        let n = lists.len();
        let mut i: usize = 0;
        while i < n
            invariant
                i <= n,
                n == lists@.len(),
                self.keyword_count >= 4,
                exists_name <==> exists|k: int|
                    0 <= k < i && #[trigger] lists@[k].name@ == self.wordlist@,
                usable <==> exists|k: int|
                    0 <= k < i && #[trigger] lists@[k].name@ == self.wordlist@
                        && lists@[k].words.len() >= 2 * self.keyword_count,
            decreases n - i,
        {
            if lists[i].name == self.wordlist {
                exists_name = true;
                if lists[i].words.len() / 2 >= self.keyword_count {
                    proof {
                        assert(lists@[i as int].words.len() >= 2 * self.keyword_count) by (nonlinear_arith)
                            requires
                                lists@[i as int].words.len() / 2 >= self.keyword_count,
                        ;
                    }
                    usable = true;
                }
            }
            i += 1;
        }
        if !exists_name {
            return Err(String::from_str("Wordlist does not exist"));
        }
        if !usable {
            return Err(String::from_str("Wordlist does not have enough words"));
        }
        Ok(())
    }

    /// A fresh secret code: `clue_count` distinct indices drawn from
    /// `0..keyword_count`, in random order.
    pub fn make_random_code(&self) -> (r: Code)
        requires
            1 <= self.clue_count <= self.keyword_count,
        ensures
            code_wf(r@, self.clue_count, self.keyword_count),
    {
        let n = self.keyword_count;
        let mut data: Vec<usize> = Vec::new();
        let mut k: usize = 0;
        while k < n
            invariant
                k <= n,
                data@.len() == k,
                forall|p: int| 0 <= p < k ==> data@[p] == p,
            decreases n - k,
        {
            data.push(k);
            k += 1;
        }
        shuffle_prefix(&mut data, self.clue_count);
        data.truncate(self.clue_count);
        Code(data)
    }

    /// Draws the two teams' keyword sets from the given word source:
    /// two disjoint random subsets of `keyword_count` words each, the
    /// first for White, the second for Black.
    pub fn pick_random_keywords(&self, words: &Vec<String>) -> (r: PerTeam<Vec<String>>)
        requires
            self.keyword_count >= 1,
            words@.len() >= 2 * self.keyword_count,
            forall|p: int, q: int| 0 <= p < q < words@.len() ==> words@[p]@ != words@[q]@,
        ensures
            r.white@.len() == self.keyword_count,
            r.black@.len() == self.keyword_count,
            forall|p: int| 0 <= p < r.white@.len() ==> is_word_of(#[trigger] r.white@[p], words@),
            forall|p: int| 0 <= p < r.black@.len() ==> is_word_of(#[trigger] r.black@[p], words@),
            forall|p: int, q: int|
                0 <= p < q < r.white@.len() ==> r.white@[p]@ != r.white@[q]@,
            forall|p: int, q: int|
                0 <= p < q < r.black@.len() ==> r.black@[p]@ != r.black@[q]@,
            forall|p: int, q: int|
                0 <= p < r.white@.len() && 0 <= q < r.black@.len() ==> r.white@[p]@ != r.black@[q]@,
    {
        let n = words.len();
        let count = self.keyword_count;
        let mut idx: Vec<usize> = Vec::new();
        let mut k: usize = 0;
        while k < n
            invariant
                k <= n,
                idx@.len() == k,
                forall|p: int| 0 <= p < k ==> idx@[p] == p,
            decreases n - k,
        {
            idx.push(k);
            k += 1;
        }
        proof {
            assert(forall|p: int, q: int| 0 <= p < q < idx@.len() ==> idx@[p] != idx@[q]);
        }
        shuffle_prefix(&mut idx, 2 * count);
        let mut white: Vec<String> = Vec::new();
        let mut p: usize = 0;
        while p < count
            invariant
                p <= count,
                2 * count <= n,
                n == words@.len(),
                n == idx@.len(),
                forall|a: int| 0 <= a < n ==> idx@[a] < n,
                forall|a: int, b: int| 0 <= a < b < n ==> idx@[a] != idx@[b],
                white@.len() == p,
                forall|a: int| 0 <= a < p ==> #[trigger] white@[a] == words@[idx@[a] as int],
            decreases count - p,
        {
            white.push(clone_string(&words[idx[p]]));
            p += 1;
        }
        let mut black: Vec<String> = Vec::new();
        let mut q: usize = 0;
        while q < count
            invariant
                q <= count,
                2 * count <= n,
                n == words@.len(),
                n == idx@.len(),
                forall|a: int| 0 <= a < n ==> idx@[a] < n,
                forall|a: int, b: int| 0 <= a < b < n ==> idx@[a] != idx@[b],
                black@.len() == q,
                forall|a: int| 0 <= a < q ==> #[trigger] black@[a] == words@[idx@[count + a] as int],
            decreases count - q,
        {
            black.push(clone_string(&words[idx[count + q]]));
            q += 1;
        }
        proof {
            assert(forall|a: int| 0 <= a < count ==> is_word_of(#[trigger] white@[a], words@));
            assert(forall|a: int| 0 <= a < count ==> is_word_of(#[trigger] black@[a], words@));
        }
        PerTeam { white, black }
    }
}

/// The string is one of the given words.
pub open spec fn is_word_of(s: String, words: Seq<String>) -> bool {
    exists|p: int| 0 <= p < words.len() && s == words[p]
}

fn clone_string(s: &String) -> (r: String)
    ensures
        r == *s,
{
    s.clone()
}

/// Puts a uniformly drawn selection of the vector's elements into its
/// first `count` slots, in random order, by swapping; the vector keeps
/// exactly its old elements, and stays duplicate-free and in-range if
/// it was.
fn shuffle_prefix(v: &mut Vec<usize>, count: usize)
    requires
        count <= old(v)@.len(),
        forall|p: int| 0 <= p < old(v)@.len() ==> old(v)@[p] < old(v)@.len(),
        forall|p: int, q: int| 0 <= p < q < old(v)@.len() ==> old(v)@[p] != old(v)@[q],
    ensures
        final(v)@.len() == old(v)@.len(),
        forall|p: int| 0 <= p < final(v)@.len() ==> final(v)@[p] < final(v)@.len(),
        forall|p: int, q: int| 0 <= p < q < final(v)@.len() ==> final(v)@[p] != final(v)@[q],
{
    let n = v.len();
    let mut i: usize = 0;
    while i < count
        invariant
            i <= count <= n,
            v@.len() == n,
            forall|p: int| 0 <= p < n ==> v@[p] < n,
            forall|p: int, q: int| 0 <= p < q < n ==> v@[p] != v@[q],
        decreases count - i,
    {
        let j = i + rand_index(n - i);
        let a = v[i];
        let b = v[j];
        v.set(i, b);
        v.set(j, a);
        i += 1;
    }
}

} // verus!
