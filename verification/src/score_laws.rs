//! Which scores are read off a text.

use vstd::prelude::*;

use crate::english::number_score_at;
use crate::layer2::{
    admission_names, admission_value, duolingo_names, duolingo_value, ielts_names, ielts_value,
    kaplan_names, kaplan_value, pte_names, pte_value, toefl_names, toefl_value,
};
use crate::number::{all_digits, digits_value};
use crate::pattern::{group_of, regex_groups, regex_literal};
use crate::scores::{
    direct_score_from, find_name_from, letters_end, matched_score, name_at, name_endings,
    near_score_from, plausible, score_pattern, score_shape, score_window, stop_from, stops_at,
    test_score, ScoreKind,
};
use crate::text::{first_chars, includes, index_from};
use crate::text_laws::lemma_index_from;
use crate::unicode::{folded, is_digit, is_letter, lower, numeric_char};

verus! {

/// Whether a text is a number of one to three digits, with at most one decimal place.
pub open spec fn written_as_score(s: Seq<char>) -> bool {
    let n = s.len() as int;
    ||| 1 <= n <= 3 && forall|i: int| 0 <= i < n ==> numeric_char(#[trigger] s[i])
    ||| 3 <= n <= 5 && s[n - 2] == '.' && forall|i: int|
        0 <= i < n && i != n - 2 ==> numeric_char(#[trigger] s[i])
}

/// Whether a text is a score between 36 and 90, in digits and with at most one decimal
/// place.
pub open spec fn between_36_and_90(s: Seq<char>) -> bool {
    let n = s.len() as int;
    ||| 1 <= n <= 3 && all_digits(s) && 36 <= digits_value(s) <= 90
    ||| 3 <= n <= 5 && s[n - 2] == '.' && all_digits(s.take(n - 2)) && is_digit(s[n - 1]) && (36
        <= digits_value(s.take(n - 2)) < 90 || (digits_value(s.take(n - 2)) == 90 && s[n - 1]
        == '0'))
}

/// What is written as a score is taken for one, and nothing else.
pub proof fn law_shape_of_scores(s: Seq<char>)
    ensures
        plausible(s, ScoreKind::General) == written_as_score(s),
        plausible(s, ScoreKind::Admission) == written_as_score(s),
{
    let n = s.len() as int;
    let k = index_from(s, '.', 0);
    lemma_index_from(s, '.', 0);
    if written_as_score(s) {
        if n <= 3 && forall|i: int| 0 <= i < n ==> numeric_char(#[trigger] s[i]) {
            if k < n {
                assert(numeric_char(s[k]));
            }
        } else {
            if k < n - 2 {
                assert(numeric_char(s[k]));
            }
            assert(k == n - 2);
            assert(numeric_char(s[n - 1]));
        }
    }
    if score_shape(s) && k < n {
        assert(s[k] == '.');
        assert(k == n - 2);
    }
}

/// PTE scores are those between 36 and 90, and only PTE scores are limited so.
pub proof fn law_range_of_pte_scores(s: Seq<char>)
    ensures
        plausible(s, ScoreKind::Pte) == between_36_and_90(s),
{
    let n = s.len() as int;
    let k = index_from(s, '.', 0);
    lemma_index_from(s, '.', 0);
    reveal_with_fuel(digits_value, 2);
    if between_36_and_90(s) {
        if n <= 3 && all_digits(s) {
            if k < n {
                assert(is_digit(s[k]));
            }
            assert(s.take(k) =~= s);
            assert forall|i: int| 0 <= i < k implies numeric_char(#[trigger] s[i]) by {
                assert(is_digit(s[i]));
            }
        } else {
            let whole = s.take(n - 2);
            if k < n - 2 {
                assert(is_digit(whole[k]));
            }
            assert(k == n - 2);
            assert forall|i: int| 0 <= i < k implies numeric_char(#[trigger] s[i]) by {
                assert(is_digit(whole[i]));
            }
        }
        assert(score_shape(s));
    }
    if score_shape(s) {
        if k == n {
            assert(s.take(k) =~= s);
        } else {
            assert(k == n - 2);
            let last = seq![s[k + 1]];
            assert(last.drop_last() =~= Seq::empty());
            assert(digits_value(last.drop_last()) == 0);
            assert(digits_value(last) == (s[k + 1] as u32 - '0' as u32) as nat);
            if all_digits(s) {
                assert(is_digit(s[k]));
            }
        }
    }
}

/// Whether a score is taken for one of a test: any, but for PTE.
pub open spec fn fits(score: Seq<char>, kind: ScoreKind) -> bool {
    match kind {
        ScoreKind::Pte => between_36_and_90(score),
        _ => written_as_score(score),
    }
}

/// What fits a test is plausible for it.
proof fn lemma_fits(score: Seq<char>, kind: ScoreKind)
    ensures
        fits(score, kind) == plausible(score, kind),
{
    law_shape_of_scores(score);
    law_range_of_pte_scores(score);
}

/// Whether the groups of a match give a score: their first one is written as a score, and
/// no digit follows it that it is the start of a longer number with.
pub open spec fn gives(
    groups: Option<Seq<Option<Seq<char>>>>,
    kind: ScoreKind,
    score: Seq<char>,
) -> bool {
    &&& group_of(groups, 1) == Some(score)
    &&& fits(score, kind)
    &&& score.contains('.') || !(group_of(groups, 2) matches Some(digit) && digit.len() > 0)
}

/// Whether the groups of a match give no score.
pub open spec fn gives_none(groups: Option<Seq<Option<Seq<char>>>>, kind: ScoreKind) -> bool {
    forall|score: Seq<char>| !#[trigger] gives(groups, kind, score)
}

/// The score that a match gives is the one that is read off it.
proof fn lemma_gives(groups: Option<Seq<Option<Seq<char>>>>, kind: ScoreKind, score: Seq<char>)
    ensures
        gives(groups, kind, score) ==> matched_score(groups, kind) == Some(score),
        gives_none(groups, kind) ==> matched_score(groups, kind) is None,
{
    lemma_fits(score, kind);
    match matched_score(groups, kind) {
        Some(found) => {
            lemma_fits(found, kind);
            assert(gives(groups, kind, found));
        },
        None => {},
    }
}

/// The groups of the first place in a text where the name of a test stands with no letter
/// before it and a number behind it.
pub open spec fn number_behind(text: Seq<char>, name: Seq<char>) -> Option<
    Seq<Option<Seq<char>>>,
> {
    regex_groups(
        "(?i)(?:^|[^a-z])"@ + regex_literal(name)
            + r"\s*[:]?\s*(?:of\s+)?(?:score\s+)?(\d{1,3}(?:\.\d)?)(\d?)"@,
        text,
    )
}

/// The first name with a number right behind it gives the score.
proof fn lemma_direct(
    text: Seq<char>,
    names: Seq<Seq<char>>,
    kind: ScoreKind,
    from: int,
    k: int,
    score: Seq<char>,
)
    requires
        0 <= from <= k <= names.len(),
        forall|j: int| from <= j < k ==> gives_none(number_behind(text, #[trigger] names[j]), kind),
        k < names.len() ==> gives(number_behind(text, names[k]), kind, score),
    ensures
        k < names.len() ==> direct_score_from(text, names, kind, from) == Some(score),
        k == names.len() ==> direct_score_from(text, names, kind, from) is None,
    decreases k - from,
{
    if from < names.len() {
        lemma_gives(number_behind(text, names[from]), kind, score);
        assert(regex_groups(score_pattern(names[from]), text) == number_behind(text, names[from]));
        if from < k {
            assert(gives_none(number_behind(text, names[from]), kind));
            lemma_direct(text, names, kind, from + 1, k, score);
        }
    }
}

/// A number right behind the name of a test is its score. The names of a test are tried in
/// order, and the first one with such a number counts.
pub proof fn law_score_right_behind_name(
    text: Seq<char>,
    names: Seq<Seq<char>>,
    kind: ScoreKind,
    k: int,
    score: Seq<char>,
)
    requires
        0 <= k < names.len(),
        forall|j: int| 0 <= j < k ==> gives_none(number_behind(text, #[trigger] names[j]), kind),
        gives(number_behind(text, names[k]), kind, score),
    ensures
        test_score(text, names, kind) == Some(score),
{
    lemma_direct(text, names, kind, 0, k, score);
}

/// Whether a text is one of the endings that the name of a test may run together with.
pub open spec fn ends_a_name(t: Seq<char>) -> bool {
    t == "s"@ || t == "academic"@ || t == "ibt"@ || t == "score"@ || t == "overall"@ || t
        == "ukvi"@
}

/// Whether a word of a text, from an index up to another, is a name, in any case and with
/// or without an ending.
pub open spec fn is_name_word(text: Seq<char>, name: Seq<char>, i: int, end: int) -> bool {
    let m = i + name.len();
    &&& 0 <= i
    &&& m <= end <= text.len()
    &&& folded(text.subrange(i, m)) == folded(name)
    &&& i > 0 ==> !is_letter(text[i - 1])
    &&& forall|c: int| m <= c < end ==> is_letter(#[trigger] text[c])
    &&& end < text.len() ==> !is_letter(text[end])
    &&& end == m || ends_a_name(folded(text.subrange(m, end)))
}

/// Whether the name of a test stands in a text at an index, as a word.
pub open spec fn stands(text: Seq<char>, name: Seq<char>, i: int) -> bool {
    exists|end: int| #[trigger] is_name_word(text, name, i, end)
}

/// The index found is the end of the run of letters.
proof fn lemma_letters_end(s: Seq<char>, i: int)
    requires
        0 <= i <= s.len(),
    ensures
        i <= letters_end(s, i) <= s.len(),
        forall|c: int| i <= c < letters_end(s, i) ==> is_letter(#[trigger] s[c]),
        letters_end(s, i) < s.len() ==> !is_letter(s[letters_end(s, i)]),
    decreases s.len() - i,
{
    if i < s.len() && is_letter(s[i]) {
        lemma_letters_end(s, i + 1);
    }
}

/// The endings of names are the six known ones.
proof fn lemma_endings(t: Seq<char>)
    ensures
        name_endings().contains(t) == ends_a_name(t),
{
    let all = name_endings();
    assert(all[0] == "s"@ && all[1] == "academic"@ && all[2] == "ibt"@ && all[3] == "score"@
        && all[4] == "overall"@ && all[5] == "ukvi"@);
    if all.contains(t) {
        let k = choose|k: int| 0 <= k < all.len() && all[k] == t;
        assert(k == 0 || k == 1 || k == 2 || k == 3 || k == 4 || k == 5);
    }
    if ends_a_name(t) {
        assert(all.contains(all[0]) && all.contains(all[1]) && all.contains(all[2])
            && all.contains(all[3]) && all.contains(all[4]) && all.contains(all[5]));
    }
}

/// A name is found where it stands as a word, and nowhere else.
pub proof fn law_names_are_words(text: Seq<char>, name: Seq<char>, i: int)
    ensures
        name_at(folded(text), folded(name), i) == stands(text, name, i),
{
    let f = folded(text);
    let m = i + name.len();
    if 0 <= i && m <= text.len() {
        lemma_letters_end(f, m);
        let e = letters_end(f, m);
        assert(folded(text.subrange(i, m)) =~= f.subrange(i, m));
        assert(folded(text.subrange(m, e)) =~= f.subrange(m, e));
        assert forall|c: int| 0 <= c < text.len() implies is_letter(f[c]) == is_letter(
            #[trigger] text[c],
        ) by {}
        lemma_endings(f.subrange(m, e));
        if name_at(f, folded(name), i) {
            assert(is_name_word(text, name, i, e));
        }
        if stands(text, name, i) {
            let end = choose|end: int| #[trigger] is_name_word(text, name, i, end);
            assert(end == e) by {
                if end < e {
                    assert(is_letter(f[end]));
                    assert(!is_letter(text[end]));
                }
                if e < end {
                    assert(is_letter(text[e]));
                    assert(!is_letter(f[e]));
                }
            }
        }
    }
}

/// The first place where a name stands is found.
proof fn lemma_first_mention(text: Seq<char>, name: Seq<char>, from: int, i: int)
    requires
        0 <= from <= i,
        forall|j: int| from <= j < i ==> !stands(text, name, j),
        i + name.len() <= text.len() ==> stands(text, name, i),
    ensures
        i + name.len() <= text.len() ==> find_name_from(folded(text), folded(name), from) == Some(
            i,
        ),
        i + name.len() > text.len() ==> find_name_from(folded(text), folded(name), from) is None,
    decreases i - from,
{
    law_names_are_words(text, name, from);
    if from < i {
        if from + name.len() <= text.len() {
            assert(!stands(text, name, from));
            lemma_first_mention(text, name, from + 1, i);
        }
    }
}

/// Whether the search for the score of an admission test ends in a text at an index: at a
/// point that is no decimal point, at the name of an English test, and at its score.
pub open spec fn ends_search(s: Seq<char>, i: int) -> bool {
    ||| s[i] == '.' && !(0 < i && i + 1 < s.len() && is_digit(s[i - 1]) && is_digit(s[i + 1]))
    ||| stands(s, "ielts"@, i) || stands(s, "pte"@, i) || stands(s, "toefl"@, i) || stands(
        s,
        "duolingo"@,
        i,
    ) || stands(s, "det"@, i) || stands(s, "kaplan"@, i)
    ||| number_score_at(folded(s), i)
}

/// Whether the name of a test stands at an index of a text for the first time, and a given
/// number of characters behind it is searched for a score: sixty, as far as the text goes,
/// and for an admission test only up to where the search ends.
pub open spec fn is_searched(
    text: Seq<char>,
    name: Seq<char>,
    kind: ScoreKind,
    i: int,
    n: int,
) -> bool {
    let rest = text.skip(i + name.len());
    let most = if rest.len() < 60 {
        rest.len() as int
    } else {
        60
    };
    &&& stands(text, name, i)
    &&& forall|j: int| 0 <= j < i ==> !stands(text, name, j)
    &&& if kind is Admission {
        let context = first_chars(rest, 120);
        &&& 0 <= n <= most
        &&& forall|j: int| 0 <= j < n ==> !ends_search(context, j)
        &&& n == most || ends_search(context, n)
    } else {
        n == most
    }
}

/// The search stops where it ends.
proof fn lemma_ends_search(s: Seq<char>, i: int)
    requires
        0 <= i < s.len(),
    ensures
        ends_search(s, i) == stops_at(s, i),
{
    let f = folded(s);
    reveal_strlit("ielts");
    reveal_strlit("pte");
    reveal_strlit("toefl");
    reveal_strlit("duolingo");
    reveal_strlit("det");
    reveal_strlit("kaplan");
    let all = crate::english::english_tests();
    assert(folded("ielts"@) =~= "ielts"@ && all[0] == "ielts"@);
    assert(folded("pte"@) =~= "pte"@ && all[1] == "pte"@);
    assert(folded("toefl"@) =~= "toefl"@ && all[2] == "toefl"@);
    assert(folded("duolingo"@) =~= "duolingo"@ && all[3] == "duolingo"@);
    assert(folded("det"@) =~= "det"@ && all[4] == "det"@);
    assert(folded("kaplan"@) =~= "kaplan"@ && all[5] == "kaplan"@);
    law_names_are_words(s, "ielts"@, i);
    law_names_are_words(s, "pte"@, i);
    law_names_are_words(s, "toefl"@, i);
    law_names_are_words(s, "duolingo"@, i);
    law_names_are_words(s, "det"@, i);
    law_names_are_words(s, "kaplan"@, i);
    assert(crate::english::english_name_at(f, i, 0) == stands(s, "ielts"@, i));
    assert(crate::english::english_name_at(f, i, 1) == stands(s, "pte"@, i));
    assert(crate::english::english_name_at(f, i, 2) == stands(s, "toefl"@, i));
    assert(crate::english::english_name_at(f, i, 3) == stands(s, "duolingo"@, i));
    assert(crate::english::english_name_at(f, i, 4) == stands(s, "det"@, i));
    assert(crate::english::english_name_at(f, i, 5) == stands(s, "kaplan"@, i));
    if crate::english::english_at(f, i) {
        let k = choose|k: int| #[trigger] crate::english::english_name_at(f, i, k);
        assert(k == 0 || k == 1 || k == 2 || k == 3 || k == 4 || k == 5);
    }
}

/// The search stops at the first place where it ends.
proof fn lemma_stop_at(s: Seq<char>, from: int, n: int)
    requires
        0 <= from <= n <= s.len(),
        forall|j: int| from <= j < n ==> !ends_search(s, j),
    ensures
        n <= stop_from(s, from),
        n < s.len() && ends_search(s, n) ==> stop_from(s, from) == n,
        n == s.len() ==> stop_from(s, from) == n,
    decreases n - from,
{
    if from < n {
        lemma_ends_search(s, from);
        lemma_stop_at(s, from + 1, n);
    } else if n < s.len() {
        lemma_ends_search(s, n);
        if !ends_search(s, n) {
            lemma_stop_after(s, n + 1);
        }
    }
}

/// The search does not stop before it starts.
proof fn lemma_stop_after(s: Seq<char>, from: int)
    requires
        0 <= from <= s.len(),
    ensures
        from <= stop_from(s, from),
    decreases s.len() - from,
{
    if from < s.len() && !stops_at(s, from) {
        lemma_stop_after(s, from + 1);
    }
}

/// The text that is searched for a score is the one behind the first mention of the name.
pub proof fn law_searched_text(text: Seq<char>, name: Seq<char>, kind: ScoreKind, i: int, n: int)
    requires
        is_searched(text, name, kind, i, n),
    ensures
        score_window(text, name, kind) == Some(text.skip(i + name.len()).take(n)),
{
    let end = choose|end: int| #[trigger] is_name_word(text, name, i, end);
    let rest = text.skip(i + name.len());
    lemma_first_mention(text, name, 0, i);
    if kind is Admission {
        let context = first_chars(rest, 120);
        lemma_stop_at(context, 0, n);
        let window = first_chars(rest, 60);
        let stop = stop_from(context, 0);
        assert(first_chars(window, stop as nat) =~= rest.take(n));
    } else {
        assert(first_chars(rest, 60) =~= rest.take(n));
    }
}

/// The groups of the first short number in the text behind a name.
pub open spec fn number_near(text: Seq<char>, name: Seq<char>, i: int, n: int) -> Option<
    Seq<Option<Seq<char>>>,
> {
    regex_groups(r"\b(\d{1,3}(?:\.\d)?)\b"@, text.skip(i + name.len()).take(n))
}

/// Whether no score is found near a name: it does not stand in the text, or the text behind
/// it gives none.
pub open spec fn none_near(text: Seq<char>, name: Seq<char>, kind: ScoreKind) -> bool {
    ||| forall|i: int| !stands(text, name, i)
    ||| exists|i: int, n: int| #[trigger]
        is_searched(text, name, kind, i, n) && gives_none(number_near(text, name, i, n), kind)
}

/// Where none is near a name, no score is read there.
proof fn lemma_none_near(text: Seq<char>, name: Seq<char>, kind: ScoreKind)
    requires
        none_near(text, name, kind),
    ensures
        match score_window(text, name, kind) {
            Some(window) => matched_score(
                regex_groups(r"\b(\d{1,3}(?:\.\d)?)\b"@, window),
                kind,
            ) is None,
            None => true,
        },
{
    if forall|i: int| !stands(text, name, i) {
        lemma_first_mention(text, name, 0, text.len() as int + 1);
    } else {
        let (i, n) = choose|i: int, n: int| #[trigger]
            is_searched(text, name, kind, i, n) && gives_none(number_near(text, name, i, n), kind);
        law_searched_text(text, name, kind, i, n);
        lemma_gives(number_near(text, name, i, n), kind, Seq::empty());
    }
}

/// The first name with a number near it gives the score.
proof fn lemma_near(
    text: Seq<char>,
    names: Seq<Seq<char>>,
    kind: ScoreKind,
    from: int,
    k: int,
    i: int,
    n: int,
    score: Seq<char>,
)
    requires
        0 <= from <= k <= names.len(),
        forall|j: int| from <= j < k ==> none_near(text, #[trigger] names[j], kind),
        k < names.len() ==> is_searched(text, names[k], kind, i, n) && gives(
            number_near(text, names[k], i, n),
            kind,
            score,
        ),
    ensures
        k < names.len() ==> near_score_from(text, names, kind, from) == Some(score),
        k == names.len() ==> near_score_from(text, names, kind, from) is None,
    decreases k - from,
{
    if from < k {
        assert(none_near(text, names[from], kind));
        lemma_none_near(text, names[from], kind);
        lemma_near(text, names, kind, from + 1, k, i, n, score);
    } else if k < names.len() {
        law_searched_text(text, names[k], kind, i, n);
        lemma_gives(number_near(text, names[k], i, n), kind, score);
    }
}

/// Where no number stands right behind any name of a test, its score is the first short
/// number in the sixty characters behind the first mention of the first name with one.
pub proof fn law_score_near_name(
    text: Seq<char>,
    names: Seq<Seq<char>>,
    kind: ScoreKind,
    k: int,
    i: int,
    n: int,
    score: Seq<char>,
)
    requires
        forall|j: int|
            0 <= j < names.len() ==> gives_none(number_behind(text, #[trigger] names[j]), kind),
        0 <= k < names.len(),
        forall|j: int| 0 <= j < k ==> none_near(text, #[trigger] names[j], kind),
        is_searched(text, names[k], kind, i, n),
        gives(number_near(text, names[k], i, n), kind, score),
    ensures
        test_score(text, names, kind) == Some(score),
{
    lemma_direct(text, names, kind, 0, names.len() as int, score);
    lemma_near(text, names, kind, 0, k, i, n, score);
}

/// A text with no number behind and none near any name of a test gives it no score.
pub proof fn law_no_number_no_score(text: Seq<char>, names: Seq<Seq<char>>, kind: ScoreKind)
    requires
        forall|j: int|
            0 <= j < names.len() ==> gives_none(number_behind(text, #[trigger] names[j]), kind),
        forall|j: int| 0 <= j < names.len() ==> none_near(text, #[trigger] names[j], kind),
    ensures
        test_score(text, names, kind) is None,
{
    lemma_direct(text, names, kind, 0, names.len() as int, Seq::empty());
    lemma_near(text, names, kind, 0, names.len() as int, 0, 0, Seq::empty());
}

/// Each English test is known by its names, the longest one first, and only the scores of
/// PTE are limited.
pub proof fn law_english_tests_by_name(content: Seq<char>)
    ensures
        ielts_value(content) == test_score(content, seq!["IELTS"@], ScoreKind::General),
        pte_value(content) == test_score(content, seq!["PTE Academic"@, "PTE"@], ScoreKind::Pte),
        toefl_value(content) == test_score(
            content,
            seq!["TOEFL iBT"@, "TOEFL"@],
            ScoreKind::General,
        ),
        duolingo_value(content) == test_score(
            content,
            seq!["Duolingo English Test"@, "Duolingo"@, "DET"@],
            ScoreKind::General,
        ),
        kaplan_value(content) == test_score(
            content,
            seq!["Kaplan Test of English"@, "Kaplan"@],
            ScoreKind::General,
        ),
{
    assert(seq!["IELTS"@] =~= ielts_names());
    assert(seq!["PTE Academic"@, "PTE"@] =~= pte_names());
    assert(seq!["TOEFL iBT"@, "TOEFL"@] =~= toefl_names());
    assert(seq!["Duolingo English Test"@, "Duolingo"@, "DET"@] =~= duolingo_names());
    assert(seq!["Kaplan Test of English"@, "Kaplan"@] =~= kaplan_names());
}

/// For every test but PTE, the number right behind the first name of the test is its score
/// whenever it is written as one, whatever its size; for PTE, where it lies between 36 and
/// 90.
pub proof fn law_first_name_gives_the_score(content: Seq<char>, score: Seq<char>)
    ensures
        gives(number_behind(content, "IELTS"@), ScoreKind::General, score) ==> ielts_value(content)
            == Some(score),
        gives(number_behind(content, "TOEFL iBT"@), ScoreKind::General, score) ==> toefl_value(
            content,
        ) == Some(score),
        gives(number_behind(content, "Duolingo English Test"@), ScoreKind::General, score)
            ==> duolingo_value(content) == Some(score),
        gives(number_behind(content, "Kaplan Test of English"@), ScoreKind::General, score)
            ==> kaplan_value(content) == Some(score),
        gives(number_behind(content, "PTE Academic"@), ScoreKind::Pte, score) ==> pte_value(content)
            == Some(score),
{
    if gives(number_behind(content, "IELTS"@), ScoreKind::General, score) {
        law_score_right_behind_name(content, ielts_names(), ScoreKind::General, 0, score);
    }
    if gives(number_behind(content, "TOEFL iBT"@), ScoreKind::General, score) {
        law_score_right_behind_name(content, toefl_names(), ScoreKind::General, 0, score);
    }
    if gives(number_behind(content, "Duolingo English Test"@), ScoreKind::General, score) {
        law_score_right_behind_name(content, duolingo_names(), ScoreKind::General, 0, score);
    }
    if gives(number_behind(content, "Kaplan Test of English"@), ScoreKind::General, score) {
        law_score_right_behind_name(content, kaplan_names(), ScoreKind::General, 0, score);
    }
    if gives(number_behind(content, "PTE Academic"@), ScoreKind::Pte, score) {
        law_score_right_behind_name(content, pte_names(), ScoreKind::Pte, 0, score);
    }
}

/// A name is found exactly where it stands somewhere.
proof fn lemma_names_test(s: Seq<char>, p: Seq<char>, from: int)
    requires
        0 <= from,
    ensures
        find_name_from(s, p, from) is Some <==> exists|i: int| from <= i && name_at(s, p, i),
    decreases s.len() + 1 - from,
{
    if from + p.len() <= s.len() {
        if name_at(s, p, from) {
        } else {
            lemma_names_test(s, p, from + 1);
            if exists|i: int| from <= i && name_at(s, p, i) {
                let i = choose|i: int| from <= i && name_at(s, p, i);
                assert(from + 1 <= i && name_at(s, p, i));
            }
            if exists|i: int| from + 1 <= i && name_at(s, p, i) {
                let i = choose|i: int| from + 1 <= i && name_at(s, p, i);
                assert(from <= i && name_at(s, p, i));
            }
        }
    }
}

/// An admission score is read only off a text that names GRE or GMAT and says "required",
/// and then behind GRE first, behind GMAT else.
pub proof fn law_admission_score(content: Seq<char>)
    ensures
        ({
            let l = lower(content);
            let named = (exists|i: int| 0 <= i && name_at(l, "gre"@, i)) || (exists|i: int|
                0 <= i && name_at(l, "gmat"@, i));
            if named && includes(l, "required"@) {
                admission_value(content) == test_score(
                    content,
                    seq!["GRE"@, "GMAT"@],
                    ScoreKind::Admission,
                )
            } else {
                admission_value(content) is None
            }
        }),
{
    let l = lower(content);
    assert(seq!["GRE"@, "GMAT"@] =~= admission_names());
    lemma_names_test(l, "gre"@, 0);
    lemma_names_test(l, "gmat"@, 0);
}

} // verus!
