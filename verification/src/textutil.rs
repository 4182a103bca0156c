//! Text helpers: whitespace trimming, case-insensitive comparison for
//! tiebreaker guesses, and decimal rendering for chat narration.

use vstd::prelude::*;

verus! {

/// The characters trimmed from guesses and keywords: the Unicode
/// White_Space set, as `str::trim` removes.
pub open spec fn is_space_char(c: char) -> bool {
    ||| c == ' '
    ||| c == '\t'
    ||| c == '\n'
    ||| c == '\u{b}'
    ||| c == '\u{c}'
    ||| c == '\r'
    ||| c == '\u{85}'
    ||| c == '\u{a0}'
    ||| c == '\u{1680}'
    ||| '\u{2000}' <= c <= '\u{200a}'
    ||| c == '\u{2028}'
    ||| c == '\u{2029}'
    ||| c == '\u{202f}'
    ||| c == '\u{205f}'
    ||| c == '\u{3000}'
}

/// The sequence with leading whitespace removed.
pub open spec fn trim_start_spec(s: Seq<char>) -> Seq<char>
    decreases s.len(),
{
    if s.len() > 0 && is_space_char(s[0]) {
        trim_start_spec(s.drop_first())
    } else {
        s
    }
}

/// The sequence with trailing whitespace removed.
pub open spec fn trim_end_spec(s: Seq<char>) -> Seq<char>
    decreases s.len(),
{
    if s.len() > 0 && is_space_char(s.last()) {
        trim_end_spec(s.drop_last())
    } else {
        s
    }
}

/// The sequence with leading and trailing whitespace removed.
pub open spec fn trimmed(s: Seq<char>) -> Seq<char> {
    trim_end_spec(trim_start_spec(s))
}

/// A character's code point after ASCII lowercasing.
pub open spec fn lower_code(c: char) -> int {
    if 65 <= c as int <= 90 {
        c as int + 32
    } else {
        c as int
    }
}

/// The sequence of code points after ASCII lowercasing.
pub open spec fn lowered(s: Seq<char>) -> Seq<int> {
    s.map_values(|c: char| lower_code(c))
}

/// Two character sequences match when, after ASCII lowercasing, they
/// are the same sequence of code points.
pub open spec fn eq_ignore_ascii_case_spec(a: Seq<char>, b: Seq<char>) -> bool {
    lowered(a) == lowered(b)
}

/// A tiebreaker guess counts when it matches the keyword exactly after
/// whitespace trimming and ASCII case folding.
pub open spec fn tb_guess_matches(guess: Seq<char>, correct: Seq<char>) -> bool {
    eq_ignore_ascii_case_spec(trimmed(guess), trimmed(correct))
}

proof fn lemma_trim_start_at(s: Seq<char>, lo: int)
    requires
        0 <= lo <= s.len(),
        forall|k: int| 0 <= k < lo ==> is_space_char(s[k]),
        lo == s.len() || !is_space_char(s[lo]),
    ensures
        trim_start_spec(s) =~= s.subrange(lo, s.len() as int),
    decreases lo,
{
    if lo == 0 {
        assert(trim_start_spec(s) =~= s.subrange(0, s.len() as int));
    } else {
        assert(is_space_char(s[0]));
        lemma_trim_start_at(s.drop_first(), lo - 1);
        assert(s.drop_first().subrange(lo - 1, s.drop_first().len() as int) =~= s.subrange(
            lo,
            s.len() as int,
        ));
    }
}

proof fn lemma_trim_end_at(s: Seq<char>, hi: int)
    requires
        0 <= hi <= s.len(),
        forall|k: int| hi <= k < s.len() ==> is_space_char(s[k]),
        hi == 0 || !is_space_char(s[hi - 1]),
    ensures
        trim_end_spec(s) =~= s.subrange(0, hi),
    decreases s.len() - hi,
{
    if hi == s.len() {
        assert(trim_end_spec(s) =~= s.subrange(0, s.len() as int));
    } else {
        assert(is_space_char(s.last()));
        lemma_trim_end_at(s.drop_last(), hi);
        assert(s.drop_last().subrange(0, hi) =~= s.subrange(0, hi));
    }
}

fn is_space(c: char) -> (r: bool)
    ensures
        r == is_space_char(c),
{
    c == ' ' || c == '\t' || c == '\n' || c == '\u{b}' || c == '\u{c}' || c == '\r'
        || c == '\u{85}' || c == '\u{a0}' || c == '\u{1680}' || ('\u{2000}' <= c && c
        <= '\u{200a}') || c == '\u{2028}' || c == '\u{2029}' || c == '\u{202f}' || c
        == '\u{205f}' || c == '\u{3000}'
}

fn lower_u32(c: char) -> (r: u32)
    ensures
        r as int == lower_code(c),
{
    let v = c as u32;
    if 65 <= v && v <= 90 {
        v + 32
    } else {
        v
    }
}

/// The character range that remains of `s` after trimming whitespace
/// from both ends.
fn trim_bounds(s: &str) -> (r: (usize, usize))
    ensures
        r.0 <= r.1 <= s@.len(),
        s@.subrange(r.0 as int, r.1 as int) == trimmed(s@),
{
    let n = s.unicode_len();
    let mut lo: usize = 0;
    while lo < n && is_space(s.get_char(lo))
        invariant
            lo <= n,
            n == s@.len(),
            forall|k: int| 0 <= k < lo ==> is_space_char(s@[k]),
        decreases n - lo,
    {
        lo += 1;
    }
    proof {
        lemma_trim_start_at(s@, lo as int);
    }
    let ghost ts = s@.subrange(lo as int, n as int);
    let mut hi: usize = n;
    while hi > lo && is_space(s.get_char(hi - 1))
        invariant
            lo <= hi <= n,
            n == s@.len(),
            forall|k: int| hi <= k < n ==> is_space_char(s@[k]),
        decreases hi,
    {
        hi -= 1;
    }
    proof {
        assert(forall|k: int|
            hi - lo <= k < ts.len() ==> is_space_char(#[trigger] ts[k]) && ts[k] == s@[k + lo]);
        lemma_trim_end_at(ts, hi - lo);
        assert(ts.subrange(0, hi - lo) =~= s@.subrange(lo as int, hi as int));
    }
    (lo, hi)
}

/// Whether a tiebreaker guess counts for a keyword: an exact match
/// after whitespace trimming and ASCII case folding.
pub fn check_tiebreaker_guess(guess: &str, correct: &str) -> (r: bool)
    ensures
        r == tb_guess_matches(guess@, correct@),
{
    let (glo, ghi) = trim_bounds(guess);
    let (clo, chi) = trim_bounds(correct);
    let ghost tg = trimmed(guess@);
    let ghost tc = trimmed(correct@);
    let ghost lg = lowered(tg);
    let ghost lc = lowered(tc);
    if ghi - glo != chi - clo {
        proof {
            assert(lg.len() != lc.len());
        }
        return false;
    }
    let n = ghi - glo;
    let mut i: usize = 0;
    while i < n
        invariant
            i <= n,
            glo + n == ghi <= guess@.len(),
            clo + n == chi <= correct@.len(),
            tg == guess@.subrange(glo as int, ghi as int),
            tc == correct@.subrange(clo as int, chi as int),
            tg == trimmed(guess@),
            tc == trimmed(correct@),
            lg == lowered(tg),
            lc == lowered(tc),
            forall|k: int| 0 <= k < i ==> lg[k] == lc[k],
        decreases n - i,
    {
        let a = lower_u32(guess.get_char(glo + i));
        let b = lower_u32(correct.get_char(clo + i));
        if a != b {
            proof {
                assert(lg[i as int] != lc[i as int]);
            }
            return false;
        }
        i += 1;
    }
    proof {
        assert(lg =~= lc);
    }
    true
}

/// The decimal rendering of a number, most significant digit first.
pub open spec fn dec_str(n: nat) -> Seq<char>
    decreases n,
{
    if n < 10 {
        seq![dec_digit(n as int)]
    } else {
        dec_str(n / 10).push(dec_digit((n % 10) as int))
    }
}

/// The character for one decimal digit.
pub open spec fn dec_digit(d: int) -> char {
    if d == 0 {
        '0'
    } else if d == 1 {
        '1'
    } else if d == 2 {
        '2'
    } else if d == 3 {
        '3'
    } else if d == 4 {
        '4'
    } else if d == 5 {
        '5'
    } else if d == 6 {
        '6'
    } else if d == 7 {
        '7'
    } else if d == 8 {
        '8'
    } else {
        '9'
    }
}

fn append_digit(s: &mut String, d: u128)
    requires
        d < 10,
    ensures
        final(s)@ == old(s)@ + seq![dec_digit(d as int)],
{
    let lit: &str = if d == 0 {
        "0"
    } else if d == 1 {
        "1"
    } else if d == 2 {
        "2"
    } else if d == 3 {
        "3"
    } else if d == 4 {
        "4"
    } else if d == 5 {
        "5"
    } else if d == 6 {
        "6"
    } else if d == 7 {
        "7"
    } else if d == 8 {
        "8"
    } else {
        "9"
    };
    proof {
        reveal_strlit("0");
        reveal_strlit("1");
        reveal_strlit("2");
        reveal_strlit("3");
        reveal_strlit("4");
        reveal_strlit("5");
        reveal_strlit("6");
        reveal_strlit("7");
        reveal_strlit("8");
        reveal_strlit("9");
        assert(lit@ =~= seq![dec_digit(d as int)]);
    }
    s.append(lit);
}

/// Appends the decimal rendering of `n` to the string.
pub fn append_decimal(s: &mut String, n: u128)
    ensures
        final(s)@ == old(s)@ + dec_str(n as nat),
    decreases n,
{
    if n >= 10 {
        append_decimal(s, n / 10);
        append_digit(s, n % 10);
        proof {
            assert(old(s)@ + dec_str((n / 10) as nat) + seq![dec_digit((n % 10) as int)] =~= old(
                s,
            )@ + dec_str(n as nat));
        }
    } else {
        append_digit(s, n);
    }
}

/// A copy of the string with leading and trailing whitespace removed.
pub fn trimmed_copy(s: &str) -> (r: String)
    ensures
        r@ == trimmed(s@),
{
    let (lo, hi) = trim_bounds(s);
    s.substring_char(lo, hi).to_owned()
}

/// The character range of one whole line of the text: newline-bounded
/// (or text-bounded) on both sides, with no newline inside.
pub open spec fn line_at(text: Seq<char>, start: int, end: int) -> bool {
    &&& 0 <= start <= end <= text.len()
    &&& (start == 0 || text[start - 1] == '\n')
    &&& (end == text.len() || text[end] == '\n')
    &&& forall|k: int| start <= k < end ==> text[k] != '\n'
}

/// Splits a word source's text into its words: one per line, each
/// trimmed of surrounding whitespace, empty lines dropped, and repeated
/// words kept only once, in reading order.
pub fn parse_wordlist_text(text: &str) -> (r: Vec<String>)
    requires
        text@.len() < usize::MAX,
    ensures
        forall|p: int, q: int| 0 <= p < q < r@.len() ==> r@[p]@ != r@[q]@,
        forall|p: int| 0 <= p < r@.len() ==> (#[trigger] r@[p])@.len() > 0,
        exists|ranges: Seq<(int, int)>| parsed_lines_ok(text@, r@, ranges),
{
    let mut words: Vec<String> = Vec::new();
    let ghost mut ranges: Seq<(int, int)> = Seq::empty();
    let n = text.unicode_len();
    let mut start: usize = 0;
    let mut i: usize = 0;
    while i <= n
        invariant
            start <= i + 1,
            i <= n + 1,
            n < usize::MAX,
            n == text@.len(),
            start <= n ==> (start == 0 || text@[start as int - 1] == '\n'),
            forall|k: int| start <= k < i && k < n ==> text@[k] != '\n',
            forall|p: int, q: int| 0 <= p < q < words@.len() ==> words@[p]@ != words@[q]@,
            forall|p: int| 0 <= p < words@.len() ==> (#[trigger] words@[p])@.len() > 0,
            ranges.len() == words@.len(),
            forall|p: int|
                0 <= p < ranges.len() ==> line_at(text@, (#[trigger] ranges[p]).0, ranges[p].1)
                    && words@[p]@ == trimmed(text@.subrange(ranges[p].0, ranges[p].1)),
            forall|p: int| 0 <= p < ranges.len() ==> (#[trigger] ranges[p]).1 < start,
            forall|p: int, q: int| 0 <= p < q < ranges.len() ==> ranges[p].1 < ranges[q].0,
        decreases n + 1 - i,
    {
        let at_break = i == n || text.get_char(i) == '\n';
        if at_break {
            if start < i {
                let line = text.substring_char(start, i);
                let word = trimmed_copy(line);
                if word.as_str().unicode_len() > 0 {
                    let mut seen = false;
                    let m = words.len();
                    let mut k: usize = 0;
                    while k < m
                        invariant
                            k <= m,
                            m == words@.len(),
                            seen <==> exists|p: int| 0 <= p < k && words@[p]@ == word@,
                        decreases m - k,
                    {
                        if words[k] == word {
                            seen = true;
                        }
                        k += 1;
                    }
                    if !seen {
                        proof {
                            assert(line_at(text@, start as int, i as int));
                            ranges = ranges.push((start as int, i as int));
                        }
                        words.push(word);
                    }
                }
            }
            start = i + 1;
        }
        i += 1;
    }
    proof {
        assert(parsed_lines_ok(text@, words@, ranges));
    }
    words
}

/// The words are, in reading order, the trimmed contents of disjoint
/// whole lines of the text.
pub open spec fn parsed_lines_ok(
    text: Seq<char>,
    words: Seq<String>,
    ranges: Seq<(int, int)>,
) -> bool {
    &&& ranges.len() == words.len()
    &&& forall|p: int|
        0 <= p < ranges.len() ==> line_at(text, (#[trigger] ranges[p]).0, ranges[p].1)
            && words[p]@ == trimmed(text.subrange(ranges[p].0, ranges[p].1))
    &&& forall|p: int, q: int| 0 <= p < q < ranges.len() ==> ranges[p].1 < ranges[q].0
}

} // verus!
