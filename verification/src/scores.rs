//! Test scores in running text.

use vstd::prelude::*;

use crate::english::{
    english_at, english_matches_at, is_one_of, number_is_score, number_score_at,
};
use crate::number::{all_digits, digits_value, parse_digits};
use crate::pattern::{captures, escape, group, group_of, optionals, regex_groups, regex_literal};
use crate::text::{
    chars_of, first_chars, full_stop_at, index_from, index_of, is_full_stop, matches_at, occurs_at,
    optional, string_between, strs, take_chars,
};
use crate::unicode::{folded, is_digit, is_letter, letter, lower_ascii, numeric, numeric_char};

verus! {

/// The lowest score that PTE Academic requirements ask for.
pub const PTE_LOWEST: u64 = 36;

/// The highest score of PTE Academic.
pub const PTE_HIGHEST: u64 = 90;

/// How many digits a score has at most before its decimal place.
pub const SCORE_DIGITS: usize = 3;

/// How many characters after a test's name are searched for its score.
pub const SCORE_WINDOW: usize = 60;

/// How many characters after a test's name are read to tell its score from that of an
/// English test.
pub const SCORE_CONTEXT: usize = 120;

/// The pattern before a test's name: no letter, so that the name is not a part of
/// a longer word.
pub const SCORE_HEAD: &'static str = "(?i)(?:^|[^a-z])";

/// The pattern after a test's name: a score, and the digit that follows it if it
/// is a part of a longer number.
pub const SCORE_TAIL: &'static str = r"\s*[:]?\s*(?:of\s+)?(?:score\s+)?(\d{1,3}(?:\.\d)?)(\d?)";

/// A short number on its own.
pub const SHORT_NUMBER: &'static str = r"\b(\d{1,3}(?:\.\d)?)\b";

/// The groups of a match of a regular expression.
pub type Groups = Option<Vec<Option<String>>>;

/// What a score is looked for.
#[derive(Clone, Copy)]
pub enum ScoreKind {
    /// A test with no further rule.
    General,
    /// PTE Academic, whose scores lie in a known range.
    Pte,
    /// A test that is not an English test: a score of an English test is not taken for
    /// it.
    Admission,
}

/// The views of the groups of a match.
pub open spec fn groups_view(groups: Groups) -> Option<Seq<Option<Seq<char>>>> {
    match groups {
        Some(list) => Some(optionals(list@)),
        None => None,
    }
}

/// Whether a word stands in a text at an index, with no letter next to it.
pub open spec fn word_at(s: Seq<char>, p: Seq<char>, i: int) -> bool {
    &&& occurs_at(s, p, i)
    &&& i > 0 ==> !is_letter(s[i - 1])
    &&& i + p.len() < s.len() ==> !is_letter(s[i + p.len()])
}

/// The endings that the name of a test may run together with: that of the plural, and
/// words that may stand before a score.
pub open spec fn name_endings() -> Seq<Seq<char>> {
    seq!["s"@, "academic"@, "ibt"@, "score"@, "overall"@, "ukvi"@]
}

/// The first index, at or after `i`, of a character that is no letter; the length if
/// there is none.
pub open spec fn letters_end(s: Seq<char>, i: int) -> int
    decreases s.len() - i,
{
    if 0 <= i < s.len() && is_letter(s[i]) {
        letters_end(s, i + 1)
    } else {
        i
    }
}

/// Whether the name of a test stands in a lowercase text at an index: as a word of its
/// own, or run together with an ending.
pub open spec fn name_at(s: Seq<char>, p: Seq<char>, i: int) -> bool {
    let end = i + p.len();
    let run = s.subrange(end, letters_end(s, end));
    &&& occurs_at(s, p, i)
    &&& i > 0 ==> !is_letter(s[i - 1])
    &&& run.len() == 0 || name_endings().contains(run)
}

/// The first index, at or after `i`, at which the name of a test stands in a lowercase
/// text.
pub open spec fn find_name_from(s: Seq<char>, p: Seq<char>, i: int) -> Option<int>
    decreases s.len() + 1 - i,
{
    if i < 0 || i + p.len() > s.len() {
        None
    } else if name_at(s, p, i) {
        Some(i)
    } else {
        find_name_from(s, p, i + 1)
    }
}

/// Whether a lowercase text names a test.
pub open spec fn names_test(s: Seq<char>, p: Seq<char>) -> bool {
    find_name_from(s, p, 0) is Some
}

/// Whether a text is written as a score: one to three digits, with at most one decimal
/// place.
pub open spec fn score_shape(s: Seq<char>) -> bool {
    let k = index_from(s, '.', 0);
    &&& 1 <= k <= SCORE_DIGITS
    &&& forall|i: int| 0 <= i < k ==> numeric_char(#[trigger] s[i])
    &&& k == s.len() || (s.len() == k + 2 && numeric_char(s[k + 1]))
}

/// A score in tenths, where it is written in ASCII digits.
pub open spec fn tenths(s: Seq<char>) -> Option<nat> {
    let k = index_from(s, '.', 0);
    let whole = s.take(k);
    if !score_shape(s) || !all_digits(whole) {
        None
    } else if k == s.len() {
        Some(digits_value(whole) * 10)
    } else if is_digit(s[k + 1]) {
        Some(digits_value(whole) * 10 + digits_value(seq![s[k + 1]]))
    } else {
        None
    }
}

/// Whether a text is a score that PTE Academic requirements ask for.
pub open spec fn in_pte_range(s: Seq<char>) -> bool {
    tenths(s) matches Some(n) && 10 * PTE_LOWEST <= n <= 10 * PTE_HIGHEST
}

/// Whether a text is a score of a kind.
pub open spec fn plausible(score: Seq<char>, kind: ScoreKind) -> bool {
    score_shape(score) && (kind is Pte ==> in_pte_range(score))
}

/// The score that a match of the score pattern gives: its first group, unless
/// more digits follow a whole number.
pub open spec fn matched_score(groups: Option<Seq<Option<Seq<char>>>>, kind: ScoreKind) -> Option<
    Seq<char>,
> {
    match group_of(groups, 1) {
        Some(score) => {
            let cut_short = group_of(groups, 2) matches Some(rest) && rest.len() > 0
                && !score.contains('.');
            if plausible(score, kind) && !cut_short {
                Some(score)
            } else {
                None
            }
        },
        None => None,
    }
}

/// The pattern of a score right behind the name of a test.
pub open spec fn score_pattern(keyword: Seq<char>) -> Seq<char> {
    SCORE_HEAD@ + regex_literal(keyword) + SCORE_TAIL@
}

/// The first score right behind one of several names, from an index on.
pub open spec fn direct_score_from(
    text: Seq<char>,
    keywords: Seq<Seq<char>>,
    kind: ScoreKind,
    k: int,
) -> Option<Seq<char>>
    decreases keywords.len() - k,
{
    if k < 0 || k >= keywords.len() {
        None
    } else {
        let score = matched_score(regex_groups(score_pattern(keywords[k]), text), kind);
        if score is Some {
            score
        } else {
            direct_score_from(text, keywords, kind, k + 1)
        }
    }
}

/// Whether the search for the score of an admission test stops in a text at an index: at
/// the end of the sentence, at the name of an English test, and at a score of one.
pub open spec fn stops_at(s: Seq<char>, i: int) -> bool {
    full_stop_at(s, i) || english_at(folded(s), i) || number_score_at(folded(s), i)
}

/// The first index, at or after `i`, at which that search stops; the length if there is
/// none.
pub open spec fn stop_from(s: Seq<char>, i: int) -> int
    decreases s.len() - i,
{
    if 0 <= i < s.len() && !stops_at(s, i) {
        stop_from(s, i + 1)
    } else {
        i
    }
}

/// The text behind the first mention of a name, as far as it is searched for a score.
pub open spec fn score_window(text: Seq<char>, keyword: Seq<char>, kind: ScoreKind) -> Option<
    Seq<char>,
> {
    match find_name_from(folded(text), folded(keyword), 0) {
        Some(i) => {
            let rest = text.skip(i + keyword.len());
            if kind is Admission {
                let stop = stop_from(first_chars(rest, SCORE_CONTEXT as nat), 0);
                Some(first_chars(first_chars(rest, SCORE_WINDOW as nat), stop as nat))
            } else {
                Some(first_chars(rest, SCORE_WINDOW as nat))
            }
        },
        None => None,
    }
}

/// The first score near one of several names, from an index on.
pub open spec fn near_score_from(
    text: Seq<char>,
    keywords: Seq<Seq<char>>,
    kind: ScoreKind,
    k: int,
) -> Option<Seq<char>>
    decreases keywords.len() - k,
{
    if k < 0 || k >= keywords.len() {
        None
    } else {
        let score = match score_window(text, keywords[k], kind) {
            Some(window) => matched_score(regex_groups(SHORT_NUMBER@, window), kind),
            None => None,
        };
        if score is Some {
            score
        } else {
            near_score_from(text, keywords, kind, k + 1)
        }
    }
}

/// The score that a text gives for a test known by several names.
pub open spec fn test_score(text: Seq<char>, keywords: Seq<Seq<char>>, kind: ScoreKind) -> Option<
    Seq<char>,
> {
    if direct_score_from(text, keywords, kind, 0) is Some {
        direct_score_from(text, keywords, kind, 0)
    } else {
        near_score_from(text, keywords, kind, 0)
    }
}

/// Whether a word stands at an index of a character list.
pub fn word_matches_at(s: &Vec<char>, p: &Vec<char>, i: usize) -> (result: bool)
    ensures
        result == word_at(s@, p@, i as int),
{
    if !matches_at(s, p, i) {
        return false;
    }
    let n: usize = s.len();
    let end: usize = i + p.len();
    !(i > 0 && letter(s[i - 1])) && !(end < n && letter(s[end]))
}

/// Whether the name of a test stands at an index of a lowercase character list.
pub fn name_matches_at(s: &Vec<char>, p: &Vec<char>, i: usize) -> (result: bool)
    ensures
        result == name_at(s@, p@, i as int),
{
    if !matches_at(s, p, i) || (i > 0 && letter(s[i - 1])) {
        return false;
    }
    let n: usize = s.len();
    let start: usize = i + p.len();
    let mut end: usize = start;
    while end < n && letter(s[end])
        invariant
            n == s@.len(),
            start <= end <= n,
            letters_end(s@, start as int) == letters_end(s@, end as int),
        decreases n - end,
    {
        end += 1;
    }
    start == end || is_name_ending(string_between(s, start, end).as_str())
}

/// Looks for the name of a test in a lowercase character list.
pub fn find_name(s: &Vec<char>, p: &Vec<char>) -> (result: Option<usize>)
    ensures
        match result {
            Some(i) => {
                &&& find_name_from(s@, p@, 0) == Some(i as int)
                &&& i + p@.len() <= s@.len()
            },
            None => find_name_from(s@, p@, 0) is None,
        },
{
    let n: usize = s.len();
    let mut i: usize = 0;
    while i <= n && n - i >= p.len()
        invariant
            n == s@.len(),
            i <= n,
            find_name_from(s@, p@, 0) == find_name_from(s@, p@, i as int),
        decreases n + 1 - i,
    {
        if name_matches_at(s, p, i) {
            return Some(i);
        }
        if i == n {
            assert(find_name_from(s@, p@, i + 1) is None);
            return None;
        }
        i += 1;
    }
    None
}

/// Whether a lowercase text names a test.
pub fn mentions_test(s: &str, p: &str) -> (result: bool)
    ensures
        result == names_test(s@, p@),
{
    find_name(&chars_of(s), &chars_of(p)).is_some()
}

/// The characters of a text with its ASCII letters in lowercase.
pub fn fold(text: &str) -> (result: Vec<char>)
    ensures
        result@ == folded(text@),
{
    let mut chars: Vec<char> = chars_of(text);
    let n: usize = chars.len();
    let mut i: usize = 0;
    while i < n
        invariant
            i <= n == chars@.len() == text@.len(),
            forall|j: int| 0 <= j < i ==> chars@[j] == folded(text@)[j],
            forall|j: int| i <= j < n ==> chars@[j] == text@[j],
        decreases n - i,
    {
        let c: char = lower_ascii(chars[i]);
        chars.set(i, c);
        i += 1;
    }
    assert(chars@ =~= folded(text@));
    chars
}

/// Whether a text is written as a score.
pub fn has_score_shape(s: &str) -> (result: bool)
    ensures
        result == score_shape(s@),
{
    let chars: Vec<char> = chars_of(s);
    let n: usize = chars.len();
    let k: usize = index_of(&chars, '.');
    if k < 1 || k > SCORE_DIGITS {
        return false;
    }
    let mut i: usize = 0;
    while i < k
        invariant
            chars@ == s@,
            n == s@.len(),
            i <= k <= n,
            k == index_from(s@, '.', 0),
            forall|j: int| 0 <= j < i ==> numeric_char(#[trigger] s@[j]),
        decreases k - i,
    {
        if !numeric(chars[i]) {
            assert(!numeric_char(s@[i as int]));
            return false;
        }
        i += 1;
    }
    k == n || (n - k == 2 && numeric(chars[k + 1]))
}

/// Whether a text is a score that PTE Academic requirements ask for.
pub fn is_in_pte_range(s: &str) -> (result: bool)
    ensures
        result == in_pte_range(s@),
{
    if !has_score_shape(s) {
        return false;
    }
    let chars: Vec<char> = chars_of(s);
    let n: usize = chars.len();
    let k: usize = index_of(&chars, '.');
    assert(chars@.subrange(0, k as int) =~= s@.take(k as int));
    proof {
        lemma_small_number(s@.take(k as int));
    }
    match parse_digits(&chars, 0, k, 999) {
        Some(whole) => {
            if k == n {
                return 10 * PTE_LOWEST <= 10 * whole && 10 * whole <= 10 * PTE_HIGHEST;
            }
            assert(chars@.subrange(k + 1, n as int) =~= seq![s@[k + 1]]);
            proof {
                lemma_small_number(seq![s@[k + 1]]);
            }
            match parse_digits(&chars, k + 1, n, 999) {
                Some(tenth) => 10 * PTE_LOWEST <= 10 * whole + tenth && 10 * whole + tenth <= 10
                    * PTE_HIGHEST,
                None => {
                    assert(is_digit(s@[k + 1]) ==> all_digits(seq![s@[k + 1]]));
                    false
                },
            }
        },
        None => false,
    }
}

/// At most three digits spell a number below a thousand.
proof fn lemma_small_number(s: Seq<char>)
    requires
        s.len() <= 3,
    ensures
        all_digits(s) ==> digits_value(s) <= 999,
{
    if all_digits(s) {
        reveal_with_fuel(digits_value, 4);
        let a = s.drop_last();
        let b = a.drop_last();
        if s.len() > 0 {
            assert(is_digit(s[s.len() - 1]));
        }
        if s.len() > 1 {
            assert(a.last() == s[s.len() - 2] && is_digit(s[s.len() - 2]));
        }
        if s.len() > 2 {
            assert(b.last() == s[0] && is_digit(s[0]));
            assert(digits_value(b.drop_last()) == 0);
            assert(digits_value(b) <= 9);
            assert(digits_value(a) <= 99);
        }
    }
}

/// Whether a text is a score of a kind.
pub fn is_plausible(score: &str, kind: ScoreKind) -> (result: bool)
    ensures
        result == plausible(score@, kind),
{
    match kind {
        ScoreKind::Pte => is_in_pte_range(score),
        _ => has_score_shape(score),
    }
}

/// Whether a text holds a character.
fn contains_char(s: &str, c: char) -> (result: bool)
    ensures
        result == s@.contains(c),
{
    let chars: Vec<char> = chars_of(s);
    let mut i: usize = 0;
    while i < chars.len()
        invariant
            chars@ == s@,
            i <= s@.len(),
            forall|j: int| 0 <= j < i ==> s@[j] != c,
        decreases s@.len() - i,
    {
        if chars[i] == c {
            assert(s@[i as int] == c);
            return true;
        }
        i += 1;
    }
    false
}

/// The score that a match of the score pattern gives.
pub fn score_of_match(groups: &Groups, kind: ScoreKind) -> (result: Option<String>)
    ensures
        optional(result) == matched_score(groups_view(*groups), kind),
{
    match group(groups, 1) {
        Some(score) => {
            let cut_short: bool = match group(groups, 2) {
                Some(rest) => !rest.as_str().is_empty() && !contains_char(score.as_str(), '.'),
                None => false,
            };
            if is_plausible(score.as_str(), kind) && !cut_short {
                Some(score)
            } else {
                None
            }
        },
        None => None,
    }
}

/// Where the search for the score of an admission test stops.
fn find_stop(s: &str) -> (result: usize)
    ensures
        result <= s@.len(),
        result == stop_from(s@, 0),
{
    let chars: Vec<char> = chars_of(s);
    let lowered: Vec<char> = fold(s);
    let n: usize = chars.len();
    let mut i: usize = 0;
    while i < n && !is_full_stop(&chars, i) && !english_matches_at(&lowered, i)
        && !number_is_score(&lowered, i)
        invariant
            chars@ == s@,
            lowered@ == folded(s@),
            n == s@.len(),
            i <= n,
            stop_from(s@, 0) == stop_from(s@, i as int),
        decreases n - i,
    {
        i += 1;
    }
    i
}

/// The text behind the first mention of a name, as far as it is searched for a score.
pub fn window_after(text: &str, keyword: &str, kind: ScoreKind) -> (result: Option<String>)
    ensures
        optional(result) == score_window(text@, keyword@, kind),
{
    let chars: Vec<char> = chars_of(text);
    let name: Vec<char> = fold(keyword);
    match find_name(&fold(text), &name) {
        Some(i) => {
            let n: usize = chars.len();
            let rest: String = string_between(&chars, i + name.len(), n);
            assert(rest@ =~= text@.skip(i + keyword@.len()));
            let window: String = take_chars(rest.as_str(), SCORE_WINDOW);
            match kind {
                ScoreKind::Admission => {
                    let stop: usize = find_stop(take_chars(rest.as_str(), SCORE_CONTEXT).as_str());
                    Some(take_chars(window.as_str(), stop))
                },
                _ => Some(window),
            }
        },
        None => None,
    }
}

/// Extracts a numeric score that follows the name of a test.
///
/// Handles patterns such as "IELTS overall score of 6.5", "minimum IELTS 6.0",
/// "PTE Academic: 54" and "TOEFL iBT score: 79". A score has one to three digits,
/// with at most one decimal place, and is no part of a longer number such as a year.
/// A name counts where it is a word of its own, or run together with an ending such as
/// that of the plural.
pub fn extract_test_score(text: &str, keywords: &[&str], kind: ScoreKind) -> (result: Option<
    String,
>)
    ensures
        optional(result) == test_score(text@, strs(keywords@), kind),
{
    let mut k: usize = 0;
    while k < keywords.len()
        invariant
            k <= keywords@.len(),
            direct_score_from(text@, strs(keywords@), kind, 0) == direct_score_from(
                text@,
                strs(keywords@),
                kind,
                k as int,
            ),
        decreases keywords@.len() - k,
    {
        assert(strs(keywords@)[k as int] == keywords@[k as int]@);
        let mut pattern: String = SCORE_HEAD.to_string();
        pattern.append(escape(keywords[k]).as_str());
        pattern.append(SCORE_TAIL);
        let score: Option<String> = score_of_match(&captures(pattern.as_str(), text), kind);
        if score.is_some() {
            return score;
        }
        k += 1;
    }
    let mut j: usize = 0;
    while j < keywords.len()
        invariant
            j <= keywords@.len(),
            direct_score_from(text@, strs(keywords@), kind, 0) is None,
            near_score_from(text@, strs(keywords@), kind, 0) == near_score_from(
                text@,
                strs(keywords@),
                kind,
                j as int,
            ),
        decreases keywords@.len() - j,
    {
        assert(strs(keywords@)[j as int] == keywords@[j as int]@);
        match window_after(text, keywords[j], kind) {
            Some(window) => {
                let score: Option<String> = score_of_match(
                    &captures(SHORT_NUMBER, window.as_str()),
                    kind,
                );
                if score.is_some() {
                    return score;
                }
            },
            None => {},
        }
        j += 1;
    }
    None
}

/// A score right behind a name is one that the kind allows.
proof fn lemma_direct_plausible(
    text: Seq<char>,
    keywords: Seq<Seq<char>>,
    kind: ScoreKind,
    k: int,
)
    ensures
        direct_score_from(text, keywords, kind, k) matches Some(score) ==> plausible(score, kind),
    decreases keywords.len() - k,
{
    if 0 <= k < keywords.len() {
        lemma_direct_plausible(text, keywords, kind, k + 1);
    }
}

/// A score near a name is one that the kind allows.
proof fn lemma_near_plausible(text: Seq<char>, keywords: Seq<Seq<char>>, kind: ScoreKind, k: int)
    ensures
        near_score_from(text, keywords, kind, k) matches Some(score) ==> plausible(score, kind),
    decreases keywords.len() - k,
{
    if 0 <= k < keywords.len() {
        lemma_near_plausible(text, keywords, kind, k + 1);
    }
}

/// A score has one to three digits and at most one decimal place, so that no year is
/// taken for one, and a PTE score is a number from 36 to 90.
pub proof fn law_scores_are_plausible(text: Seq<char>, keywords: Seq<Seq<char>>, kind: ScoreKind)
    ensures
        test_score(text, keywords, kind) matches Some(score) ==> score_shape(score),
        kind is Pte ==> (test_score(text, keywords, kind) matches Some(score) ==> in_pte_range(
            score,
        )),
{
    lemma_direct_plausible(text, keywords, kind, 0);
    lemma_near_plausible(text, keywords, kind, 0);
}

/// Whether a text is an ending that the name of a test may run together with.
fn is_name_ending(t: &str) -> (result: bool)
    ensures
        result == name_endings().contains(t@),
{
    let list: [&str; 6] = ["s", "academic", "ibt", "score", "overall", "ukvi"];
    assert(strs(list@) =~= name_endings());
    is_one_of(t, &list)
}

/// The search does not stop before the index found.
proof fn lemma_stop_from(s: Seq<char>, i: int)
    requires
        0 <= i <= s.len(),
    ensures
        i <= stop_from(s, i) <= s.len(),
        forall|j: int| i <= j < stop_from(s, i) ==> !stops_at(s, j),
    decreases s.len() - i,
{
    if i < s.len() && !stops_at(s, i) {
        lemma_stop_from(s, i + 1);
    }
}

/// No full stop, no name of an English test and no number that is the score of one stands
/// in the text behind the name of an admission test, as far as it is searched for a score.
pub proof fn law_no_english_score_in_admission_window(
    text: Seq<char>,
    keyword: Seq<char>,
    j: int,
)
    requires
        score_window(text, keyword, ScoreKind::Admission) is Some,
        0 <= j < score_window(text, keyword, ScoreKind::Admission)->0.len(),
    ensures
        ({
            let i = find_name_from(folded(text), folded(keyword), 0)->0;
            let context = first_chars(text.skip(i + keyword.len()), SCORE_CONTEXT as nat);
            &&& score_window(text, keyword, ScoreKind::Admission)->0[j] == context[j]
            &&& !full_stop_at(context, j)
            &&& !english_at(folded(context), j)
            &&& !number_score_at(folded(context), j)
        }),
{
    let i = find_name_from(folded(text), folded(keyword), 0)->0;
    let rest = text.skip(i + keyword.len());
    let context = first_chars(rest, SCORE_CONTEXT as nat);
    lemma_find_name(folded(text), folded(keyword), 0);
    lemma_stop_from(context, 0);
    assert(!stops_at(context, j));
}

/// The name that is found ends within the text.
proof fn lemma_find_name(s: Seq<char>, p: Seq<char>, i: int)
    ensures
        find_name_from(s, p, i) matches Some(k) ==> 0 <= k && k + p.len() <= s.len(),
    decreases s.len() + 1 - i,
{
    if 0 <= i && i + p.len() <= s.len() && !name_at(s, p, i) {
        lemma_find_name(s, p, i + 1);
    }
}

} // verus!
