//! Keeping the scores of English tests out of the fields of other subjects.

use vstd::prelude::*;

use crate::number::digit;
use crate::scores::{fold, name_at, name_matches_at, SCORE_DIGITS};
use crate::text::{
    chars_of, is_space, is_white_space, join, joined, keep_non_empty, non_empty, same_text,
    sentences, sentences_from, split, split_at, string_between, strs, texts, trim, trimmed,
    Separator,
};
use crate::unicode::{folded, is_digit, is_letter, letter};

verus! {

/// The names of the English tests, in lowercase.
pub open spec fn english_tests() -> Seq<Seq<char>> {
    seq!["ielts"@, "pte"@, "toefl"@, "duolingo"@, "det"@, "kaplan"@]
}

/// Whether the name of a given English test stands in a lowercase text at an index.
pub open spec fn english_name_at(s: Seq<char>, i: int, k: int) -> bool {
    0 <= k < english_tests().len() && name_at(s, english_tests()[k], i)
}

/// Whether the name of an English test stands in a lowercase text at an index.
pub open spec fn english_at(s: Seq<char>, i: int) -> bool {
    exists|k: int| #[trigger] english_name_at(s, i, k)
}

/// The words that may stand between the name of a test and its score behind it.
pub open spec fn words_before_score() -> Seq<Seq<char>> {
    seq![
        "overall"@,
        "score"@,
        "scores"@,
        "of"@,
        "academic"@,
        "ibt"@,
        "ukvi"@,
        "english"@,
        "test"@,
        "exam"@,
        "minimum"@,
        "min"@,
        "band"@,
        "bands"@,
        "grade"@,
        "level"@,
        "result"@,
        "requirement"@,
        "requirements"@,
        "required"@,
        "total"@,
        "average"@,
        "component"@,
        "components"@,
        "section"@,
        "skill"@,
        "skills"@,
        "listening"@,
        "reading"@,
        "writing"@,
        "speaking"@,
        "each"@,
        "every"@,
        "all"@,
        "no"@,
        "not"@,
        "less"@,
        "lower"@,
        "below"@,
        "than"@,
        "at"@,
        "least"@,
        "a"@,
        "an"@,
        "the"@,
        "with"@,
        "is"@,
        "in"@,
        "or"@,
        "equivalent"@,
        "s"@,
    ]
}

/// The words that may stand between a score and the name of its test behind it.
pub open spec fn words_behind_score() -> Seq<Seq<char>> {
    seq![
        "or"@,
        "above"@,
        "higher"@,
        "more"@,
        "better"@,
        "in"@,
        "on"@,
        "for"@,
        "from"@,
        "the"@,
        "overall"@,
        "score"@,
        "points"@,
        "band"@,
        "academic"@,
        "english"@,
        "minimum"@,
    ]
}

/// The words that an "or" may lead to without leading to another subject, as in
/// "or equivalent" and "or above".
pub open spec fn words_behind_or() -> Seq<Seq<char>> {
    seq!["equivalent"@, "above"@, "higher"@, "more"@, "better"@]
}

/// Whether words that hold an "or" hold one that it may lead to.
pub open spec fn or_stays(words: Seq<Seq<char>>) -> bool {
    words.contains("or"@) ==> exists|j: int|
        0 <= j < words.len() && words_behind_or().contains(#[trigger] words[j])
}

/// Whether a character may stand between a score and the name of its test: a letter,
/// white space, or one of a few marks; where the name comes first, a comma as well.
pub open spec fn is_link_char(c: char, name_first: bool) -> bool {
    is_letter(c) || is_space(c) || c == ':' || c == '(' || c == ')' || c == '-' || c == '/' || c
        == '=' || c == '>' || c == '\u{2013}' || c == '\u{2265}' || (name_first && c == ',')
}

/// The words of a text: what stands between the characters that are no letters.
pub open spec fn words_of(s: Seq<char>) -> Seq<Seq<char>> {
    non_empty(split_at(s, Separator::NonLetter))
}

/// Whether a lowercase text links the name of a test to its score, or the other way
/// round.
pub open spec fn is_link(s: Seq<char>, name_first: bool) -> bool {
    &&& forall|j: int| 0 <= j < s.len() ==> is_link_char(#[trigger] s[j], name_first)
    &&& forall|j: int|
        0 <= j < words_of(s).len() ==> (if name_first {
            words_before_score()
        } else {
            words_behind_score()
        }).contains(#[trigger] words_of(s)[j])
    &&& or_stays(words_of(s))
}

/// Where the run of digits at an index ends.
pub open spec fn digits_end(s: Seq<char>, i: int) -> int
    decreases s.len() - i,
{
    if 0 <= i < s.len() && is_digit(s[i]) {
        digits_end(s, i + 1)
    } else {
        i
    }
}

/// Where the run of digits that an index is in starts.
pub open spec fn digits_start(s: Seq<char>, i: int) -> int
    decreases i,
{
    if 0 < i <= s.len() && is_digit(s[i - 1]) {
        digits_start(s, i - 1)
    } else {
        i
    }
}

/// The first index, at or after `i`, of a digit; the length if there is none.
pub open spec fn digit_from(s: Seq<char>, i: int) -> int
    decreases s.len() - i,
{
    if 0 <= i < s.len() && !is_digit(s[i]) {
        digit_from(s, i + 1)
    } else {
        i
    }
}

/// The index behind the last digit before `i`; zero if there is none.
pub open spec fn digit_before(s: Seq<char>, i: int) -> int
    decreases i,
{
    if 0 < i <= s.len() && !is_digit(s[i - 1]) {
        digit_before(s, i - 1)
    } else {
        i
    }
}

/// Where the score of a test starts whose name ends at an index, if one stands behind it.
pub open spec fn score_after(s: Seq<char>, end: int) -> Option<int> {
    let d = digit_from(s, end);
    if d < s.len() && is_link(s.subrange(end, d), true) && digits_end(s, d) - d <= SCORE_DIGITS {
        Some(d)
    } else {
        None
    }
}

/// Whether digits are no score where a character stands before them: they are a part of a
/// larger number, or an amount of money.
pub open spec fn makes_amount(c: char) -> bool {
    c == ',' || c == '\u{a3}'
}

/// Where the score of a test starts whose name starts at an index, if one stands before
/// it.
pub open spec fn score_before(s: Seq<char>, start: int) -> Option<int> {
    let e = digit_before(s, start);
    let b = digits_start(s, e);
    if e > 0 && is_link(s.subrange(e, start), false) && e - b <= SCORE_DIGITS && (b > 0
        ==> !makes_amount(s[b - 1])) {
        Some(b)
    } else {
        None
    }
}

/// Whether the name of a given English test stands in a lowercase text at an index, with
/// a score behind it or before it.
pub open spec fn scored_name_at(s: Seq<char>, i: int, k: int) -> bool {
    &&& english_name_at(s, i, k)
    &&& score_after(s, i + english_tests()[k].len()) is Some || score_before(s, i) is Some
}

/// Whether a text holds a score of an English test, next to the test's name.
pub open spec fn holds_english_score(s: Seq<char>) -> bool {
    exists|i: int, k: int| #[trigger] scored_name_at(folded(s), i, k)
}

/// Whether a score follows the name of a test that ends at an index, with no comma between
/// them.
pub open spec fn score_follows(s: Seq<char>, end: int) -> bool {
    score_after(s, end) matches Some(d) && !s.subrange(end, d).contains(',')
}

/// Whether the digits at an index of a lowercase text are the score of the English test
/// that a given name at another index stands for: the score behind the name, or the one
/// before it where none follows the name.
pub open spec fn score_of_name(s: Seq<char>, d: int, i: int, k: int) -> bool {
    let end = i + english_tests()[k].len();
    &&& english_name_at(s, i, k)
    &&& score_after(s, end) == Some(d) || (score_before(s, i) == Some(d) && !score_follows(s, end))
}

/// Whether the digits at an index of a lowercase text are the score of an English test.
pub open spec fn score_at(s: Seq<char>, d: int) -> bool {
    exists|i: int, k: int| #[trigger] score_of_name(s, d, i, k)
}

/// Whether the number at an index of a lowercase text, its decimal place included, is the
/// score of an English test.
pub open spec fn number_score_at(s: Seq<char>, d: int) -> bool {
    let e = digits_end(s, d);
    score_at(s, d) || (e > d && e + 1 < s.len() && s[e] == '.' && score_at(s, e + 1))
}

/// The ones among several sentences that hold no score of an English test.
pub open spec fn without_scores(list: Seq<Seq<char>>) -> Seq<Seq<char>> {
    list.filter(|t: Seq<char>| !holds_english_score(t))
}

/// A text without its sentences that hold a score of an English test.
pub open spec fn english_free(s: Seq<char>) -> Seq<char> {
    if holds_english_score(s) {
        trimmed(joined(without_scores(sentences_from(s, 0)), "."@))
    } else {
        s
    }
}

/// An optional text without its sentences that hold a score of an English test.
pub open spec fn english_free_value(value: Option<Seq<char>>) -> Option<Seq<char>> {
    match value {
        Some(t) => Some(english_free(t)),
        None => None,
    }
}

/// An optional text without its sentences that hold a score of an English test, unless
/// nothing is left of it.
pub open spec fn free_or_none(value: Option<Seq<char>>) -> Option<Seq<char>> {
    match value {
        Some(t) => if trimmed(english_free(t)).len() > 0 {
            Some(english_free(t))
        } else {
            None
        },
        None => None,
    }
}

/// Whether a text is one of several ones.
pub fn is_one_of(t: &str, list: &[&str]) -> (result: bool)
    ensures
        result == strs(list@).contains(t@),
{
    let mut k: usize = 0;
    while k < list.len()
        invariant
            k <= list@.len(),
            forall|j: int| 0 <= j < k ==> #[trigger] strs(list@)[j] != t@,
        decreases list@.len() - k,
    {
        if same_text(list[k], t) {
            assert(strs(list@)[k as int] == t@);
            return true;
        }
        k += 1;
    }
    false
}

/// Whether a word may stand between the name of a test and its score, or the other way
/// round.
fn is_link_word(t: &str, name_first: bool) -> (result: bool)
    ensures
        result == (if name_first {
            words_before_score()
        } else {
            words_behind_score()
        }).contains(t@),
{
    if name_first {
        let list: [&str; 51] = [
            "overall",
            "score",
            "scores",
            "of",
            "academic",
            "ibt",
            "ukvi",
            "english",
            "test",
            "exam",
            "minimum",
            "min",
            "band",
            "bands",
            "grade",
            "level",
            "result",
            "requirement",
            "requirements",
            "required",
            "total",
            "average",
            "component",
            "components",
            "section",
            "skill",
            "skills",
            "listening",
            "reading",
            "writing",
            "speaking",
            "each",
            "every",
            "all",
            "no",
            "not",
            "less",
            "lower",
            "below",
            "than",
            "at",
            "least",
            "a",
            "an",
            "the",
            "with",
            "is",
            "in",
            "or",
            "equivalent",
            "s",
        ];
        assert(strs(list@) =~= words_before_score());
        is_one_of(t, &list)
    } else {
        let list: [&str; 17] = [
            "or",
            "above",
            "higher",
            "more",
            "better",
            "in",
            "on",
            "for",
            "from",
            "the",
            "overall",
            "score",
            "points",
            "band",
            "academic",
            "english",
            "minimum",
        ];
        assert(strs(list@) =~= words_behind_score());
        is_one_of(t, &list)
    }
}

/// Whether a character may stand between a score and the name of its test.
fn link_char(c: char, name_first: bool) -> (result: bool)
    ensures
        result == is_link_char(c, name_first),
{
    letter(c) || is_white_space(c) || c == ':' || c == '(' || c == ')' || c == '-' || c == '/' || c
        == '=' || c == '>' || c == '\u{2013}' || c == '\u{2265}' || (name_first && c == ',')
}

/// Whether the characters from one index up to another link the name of a test to its
/// score, or the other way round.
fn links(chars: &Vec<char>, from: usize, to: usize, name_first: bool) -> (result: bool)
    requires
        from <= to <= chars@.len(),
    ensures
        result == is_link(chars@.subrange(from as int, to as int), name_first),
{
    let ghost s = chars@.subrange(from as int, to as int);
    let ghost allowed = if name_first {
        words_before_score()
    } else {
        words_behind_score()
    };
    let mut i: usize = from;
    while i < to
        invariant
            from <= i <= to <= chars@.len(),
            s == chars@.subrange(from as int, to as int),
            forall|j: int| 0 <= j < i - from ==> is_link_char(#[trigger] s[j], name_first),
        decreases to - i,
    {
        assert(s[i - from] == chars@[i as int]);
        if !link_char(chars[i], name_first) {
            return false;
        }
        i += 1;
    }
    let text: String = string_between(chars, from, to);
    let words: Vec<String> = keep_non_empty(split(text.as_str(), Separator::NonLetter));
    let ghost all = words_of(s);
    assert(texts(words@) == all);
    let behind_or: [&str; 5] = ["equivalent", "above", "higher", "more", "better"];
    assert(strs(behind_or@) =~= words_behind_or());
    let mut holds_or: bool = false;
    let mut leads_on: bool = false;
    let mut j: usize = 0;
    while j < words.len()
        invariant
            j <= words@.len(),
            s == chars@.subrange(from as int, to as int),
            all == words_of(s),
            all == texts(words@),
            allowed == (if name_first {
                words_before_score()
            } else {
                words_behind_score()
            }),
            strs(behind_or@) == words_behind_or(),
            forall|m: int| 0 <= m < j ==> allowed.contains(#[trigger] all[m]),
            holds_or == all.take(j as int).contains("or"@),
            leads_on == exists|m: int| 0 <= m < j && words_behind_or().contains(#[trigger] all[m]),
        decreases words@.len() - j,
    {
        assert(all[j as int] == words@[j as int]@);
        let word: &str = words[j].as_str();
        if !is_link_word(word, name_first) {
            return false;
        }
        proof {
            lemma_contains_one_more(all, j as int, "or"@);
        }
        if same_text(word, "or") {
            holds_or = true;
        }
        if is_one_of(word, &behind_or) {
            leads_on = true;
        }
        j += 1;
    }
    assert(all.take(j as int) =~= all);
    !holds_or || leads_on
}

/// A text is among the first of several ones if it is among those before the last of
/// them, or is the last one.
proof fn lemma_contains_one_more(list: Seq<Seq<char>>, i: int, t: Seq<char>)
    requires
        0 <= i < list.len(),
    ensures
        list.take(i + 1).contains(t) == (list.take(i).contains(t) || list[i] == t),
{
    let longer = list.take(i + 1);
    let shorter = list.take(i);
    if shorter.contains(t) {
        let k = choose|k: int| 0 <= k < shorter.len() && shorter[k] == t;
        assert(longer[k] == t);
    }
    if list[i] == t {
        assert(longer[i] == t);
    }
    if longer.contains(t) {
        let k = choose|k: int| 0 <= k < longer.len() && longer[k] == t;
        if k < i {
            assert(shorter[k] == t);
        }
    }
}

/// The names of the English tests, in lowercase.
fn english_names() -> (result: Vec<Vec<char>>)
    ensures
        result@.len() == english_tests().len(),
        forall|k: int| 0 <= k < result@.len() ==> #[trigger] result@[k]@ == english_tests()[k],
{
    let names: [&str; 6] = ["ielts", "pte", "toefl", "duolingo", "det", "kaplan"];
    assert(strs(names@) =~= english_tests());
    let mut list: Vec<Vec<char>> = Vec::new();
    let mut k: usize = 0;
    while k < 6
        invariant
            k <= 6,
            list@.len() == k,
            strs(names@) == english_tests(),
            forall|j: int| 0 <= j < k ==> #[trigger] list@[j]@ == english_tests()[j],
        decreases 6 - k,
    {
        assert(strs(names@)[k as int] == names@[k as int]@);
        list.push(chars_of(names[k]));
        k += 1;
    }
    list
}

/// Whether the name of an English test stands at an index of a lowercase character list.
pub fn english_matches_at(s: &Vec<char>, i: usize) -> (result: bool)
    ensures
        result == english_at(s@, i as int),
{
    let names: Vec<Vec<char>> = english_names();
    let mut k: usize = 0;
    while k < names.len()
        invariant
            k <= names@.len() == english_tests().len(),
            forall|j: int| 0 <= j < names@.len() ==> #[trigger] names@[j]@ == english_tests()[j],
            forall|j: int| 0 <= j < k ==> !english_name_at(s@, i as int, j),
        decreases names@.len() - k,
    {
        assert(names@[k as int]@ == english_tests()[k as int]);
        if name_matches_at(s, &names[k], i) {
            assert(english_name_at(s@, i as int, k as int));
            return true;
        }
        assert(!english_name_at(s@, i as int, k as int));
        k += 1;
    }
    false
}

/// Where the run of digits at an index ends.
fn end_of_digits(s: &Vec<char>, from: usize) -> (result: usize)
    requires
        from <= s@.len(),
    ensures
        from <= result <= s@.len(),
        result == digits_end(s@, from as int),
{
    let mut i: usize = from;
    while i < s.len() && digit(s[i])
        invariant
            from <= i <= s@.len(),
            digits_end(s@, from as int) == digits_end(s@, i as int),
        decreases s@.len() - i,
    {
        i += 1;
    }
    i
}

/// Looks for the score of a test whose name ends at an index, behind that.
fn find_score_after(s: &Vec<char>, end: usize) -> (result: Option<usize>)
    requires
        end <= s@.len(),
    ensures
        match result {
            Some(d) => end <= d <= s@.len() && score_after(s@, end as int) == Some(d as int),
            None => score_after(s@, end as int) is None,
        },
{
    let n: usize = s.len();
    let mut d: usize = end;
    while d < n && !digit(s[d])
        invariant
            n == s@.len(),
            end <= d <= n,
            digit_from(s@, end as int) == digit_from(s@, d as int),
        decreases n - d,
    {
        d += 1;
    }
    if d < n && links(s, end, d, true) && end_of_digits(s, d) - d <= SCORE_DIGITS {
        Some(d)
    } else {
        None
    }
}

/// Whether a comma stands between two indices of a character list.
fn has_comma(s: &Vec<char>, from: usize, to: usize) -> (result: bool)
    requires
        from <= to <= s@.len(),
    ensures
        result == s@.subrange(from as int, to as int).contains(','),
{
    let ghost part = s@.subrange(from as int, to as int);
    let mut i: usize = from;
    while i < to
        invariant
            from <= i <= to <= s@.len(),
            part == s@.subrange(from as int, to as int),
            forall|j: int| 0 <= j < i - from ==> #[trigger] part[j] != ',',
        decreases to - i,
    {
        assert(part[i - from] == s@[i as int]);
        if s[i] == ',' {
            return true;
        }
        i += 1;
    }
    false
}

/// Looks for the score of a test whose name starts at an index, before that.
fn find_score_before(s: &Vec<char>, start: usize) -> (result: Option<usize>)
    requires
        start <= s@.len(),
    ensures
        match result {
            Some(d) => score_before(s@, start as int) == Some(d as int),
            None => score_before(s@, start as int) is None,
        },
{
    let mut e: usize = start;
    while e > 0 && !digit(s[e - 1])
        invariant
            e <= start <= s@.len(),
            digit_before(s@, start as int) == digit_before(s@, e as int),
        decreases e,
    {
        e -= 1;
    }
    let mut b: usize = e;
    while b > 0 && digit(s[b - 1])
        invariant
            b <= e <= s@.len(),
            digits_start(s@, e as int) == digits_start(s@, b as int),
        decreases b,
    {
        b -= 1;
    }
    let amount: bool = b > 0 && (s[b - 1] == ',' || s[b - 1] == '\u{a3}');
    if e > 0 && links(s, e, start, false) && e - b <= SCORE_DIGITS && !amount {
        Some(b)
    } else {
        None
    }
}

/// Whether a text holds a score of an English test, next to the test's name.
pub fn has_english_score(text: &str) -> (result: bool)
    ensures
        result == holds_english_score(text@),
{
    let s: Vec<char> = fold(text);
    let n: usize = s.len();
    let names: Vec<Vec<char>> = english_names();
    let mut i: usize = 0;
    while i < n
        invariant
            n == s@.len(),
            s@ == folded(text@),
            names@.len() == english_tests().len(),
            forall|j: int| 0 <= j < names@.len() ==> #[trigger] names@[j]@ == english_tests()[j],
            i <= n,
            forall|p: int, j: int| 0 <= p < i ==> !#[trigger] scored_name_at(s@, p, j),
        decreases n - i,
    {
        let mut k: usize = 0;
        while k < names.len()
            invariant
                i < n == s@.len(),
                s@ == folded(text@),
                k <= names@.len() == english_tests().len(),
                forall|j: int|
                    0 <= j < names@.len() ==> #[trigger] names@[j]@ == english_tests()[j],
                forall|j: int| 0 <= j < k ==> !#[trigger] scored_name_at(s@, i as int, j),
            decreases names@.len() - k,
        {
            assert(names@[k as int]@ == english_tests()[k as int]);
            if name_matches_at(&s, &names[k], i) {
                let end: usize = i + names[k].len();
                if find_score_after(&s, end).is_some() || find_score_before(&s, i).is_some() {
                    assert(scored_name_at(s@, i as int, k as int));
                    return true;
                }
            }
            k += 1;
        }
        i += 1;
    }
    proof {
        assert forall|p: int, j: int| !#[trigger] scored_name_at(s@, p, j) by {
            if scored_name_at(s@, p, j) {
                lemma_english_names_are_letters(j);
            }
        }
    }
    false
}

/// Whether the digits at an index of a lowercase character list are the score of an
/// English test.
fn digits_are_score(s: &Vec<char>, d: usize) -> (result: bool)
    ensures
        result == score_at(s@, d as int),
{
    let n: usize = s.len();
    let names: Vec<Vec<char>> = english_names();
    let mut i: usize = 0;
    while i < n
        invariant
            n == s@.len(),
            names@.len() == english_tests().len(),
            forall|j: int| 0 <= j < names@.len() ==> #[trigger] names@[j]@ == english_tests()[j],
            i <= n,
            forall|p: int, j: int| 0 <= p < i ==> !#[trigger] score_of_name(s@, d as int, p, j),
        decreases n - i,
    {
        let mut k: usize = 0;
        while k < names.len()
            invariant
                i < n == s@.len(),
                k <= names@.len() == english_tests().len(),
                forall|j: int|
                    0 <= j < names@.len() ==> #[trigger] names@[j]@ == english_tests()[j],
                forall|j: int|
                    0 <= j < k ==> !#[trigger] score_of_name(s@, d as int, i as int, j),
            decreases names@.len() - k,
        {
            assert(names@[k as int]@ == english_tests()[k as int]);
            if name_matches_at(s, &names[k], i) {
                let end: usize = i + names[k].len();
                let (behind, follows): (bool, bool) = match find_score_after(s, end) {
                    Some(p) => (p == d, !has_comma(s, end, p)),
                    None => (false, false),
                };
                let ahead: bool = match find_score_before(s, i) {
                    Some(p) => p == d,
                    None => false,
                };
                if behind || (ahead && !follows) {
                    assert(score_of_name(s@, d as int, i as int, k as int));
                    return true;
                }
            }
            k += 1;
        }
        i += 1;
    }
    proof {
        assert forall|p: int, j: int| !#[trigger] score_of_name(s@, d as int, p, j) by {
            if score_of_name(s@, d as int, p, j) {
                lemma_english_names_are_letters(j);
            }
        }
    }
    false
}

/// Whether the number at an index of a lowercase character list is the score of an English
/// test.
pub fn number_is_score(s: &Vec<char>, d: usize) -> (result: bool)
    requires
        d <= s@.len(),
    ensures
        result == number_score_at(s@, d as int),
{
    let n: usize = s.len();
    let e: usize = end_of_digits(s, d);
    digits_are_score(s, d) || (e > d && e < n && n - e > 1 && s[e] == '.' && digits_are_score(
        s,
        e + 1,
    ))
}

/// Removes the sentences of a text that hold a score of an English test.
pub fn remove_english_scores(s: &str) -> (result: String)
    ensures
        result@ == english_free(s@),
{
    if !has_english_score(s) {
        return s.to_string();
    }
    let list: Vec<String> = sentences(s);
    let ghost all = texts(list@);
    let mut kept: Vec<String> = Vec::new();
    let mut i: usize = 0;
    proof {
        reveal(Seq::filter);
        assert(all.take(0) =~= Seq::empty());
        assert(texts(kept@) =~= without_scores(all.take(0)));
    }
    while i < list.len()
        invariant
            i <= list@.len(),
            all == texts(list@),
            texts(kept@) == without_scores(all.take(i as int)),
        decreases list@.len() - i,
    {
        let ghost done = texts(kept@);
        proof {
            reveal(Seq::filter);
            assert(all.take(i + 1).drop_last() =~= all.take(i as int));
        }
        if !has_english_score(list[i].as_str()) {
            kept.push(list[i].clone());
            assert(texts(kept@) =~= done.push(all[i as int]));
        }
        i += 1;
    }
    assert(all.take(i as int) =~= all);
    trim(join(&kept, ".").as_str())
}

/// Removes the sentences of an optional text that hold a score of an English test, and the
/// text if nothing is left of it.
pub fn keep_free(value: Option<String>) -> (result: Option<String>)
    ensures
        match result {
            Some(t) => free_or_none(match value {
                Some(t) => Some(t@),
                None => None,
            }) == Some(t@),
            None => free_or_none(match value {
                Some(t) => Some(t@),
                None => None,
            }) is None,
        },
{
    match value {
        Some(t) => {
            let free: String = remove_english_scores(t.as_str());
            if trim(free.as_str()).as_str().is_empty() {
                None
            } else {
                Some(free)
            }
        },
        None => None,
    }
}

/// Whether the characters of a text from an index on are letters.
pub open spec fn letters_from(s: Seq<char>, i: int) -> bool
    decreases s.len() - i,
{
    0 <= i < s.len() ==> is_letter(s[i]) && letters_from(s, i + 1)
}

/// All characters from an index on are letters.
pub proof fn lemma_letters_from(s: Seq<char>, i: int)
    requires
        0 <= i,
        letters_from(s, i),
    ensures
        forall|j: int| i <= j < s.len() ==> is_letter(#[trigger] s[j]),
    decreases s.len() - i,
{
    if i < s.len() {
        lemma_letters_from(s, i + 1);
    }
}

/// The names of the English tests are made of at least three letters.
pub proof fn lemma_english_names_are_letters(k: int)
    requires
        0 <= k < english_tests().len(),
    ensures
        english_tests()[k].len() >= 3,
        forall|j: int|
            0 <= j < english_tests()[k].len() ==> is_letter(#[trigger] english_tests()[k][j]),
{
    reveal_strlit("ielts");
    reveal_strlit("pte");
    reveal_strlit("toefl");
    reveal_strlit("duolingo");
    reveal_strlit("det");
    reveal_strlit("kaplan");
    reveal_with_fuel(letters_from, 10);
    lemma_letters_from("ielts"@, 0);
    lemma_letters_from("pte"@, 0);
    lemma_letters_from("toefl"@, 0);
    lemma_letters_from("duolingo"@, 0);
    lemma_letters_from("det"@, 0);
    lemma_letters_from("kaplan"@, 0);
}

} // verus!
