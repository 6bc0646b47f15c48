//! Which sentences are kept.

use vstd::prelude::*;

use crate::english::{
    digit_before, digit_from, digits_end, digits_start, english_free, english_name_at,
    english_tests, holds_english_score, is_link, is_link_char, number_score_at, or_stays,
    score_after, score_before, score_of_name, scored_name_at, words_before_score, words_behind_or,
    words_behind_score, words_of,
};
use crate::layer2::{
    begins_at, document_at, document_words, is_on, on_documents, said_on, short_document_names,
    stands_alone_at, Subject,
};
use crate::number::all_digits;
use crate::score_laws::{law_names_are_words, stands};
use crate::text::{
    full_stop_at, is_space, joined, lemma_non_empty_push, lemma_sentence_end, non_empty,
    occurs_at, sentence_end, sentences_from, split_at, trimmed, Separator,
};
use crate::unicode::{folded, is_digit, is_letter, lower};

verus! {

/// Whether a point ends a sentence: it does, but between two digits.
pub open spec fn ends_sentence(s: Seq<char>, i: int) -> bool {
    s[i] == '.' && !(0 < i && i + 1 < s.len() && is_digit(s[i - 1]) && is_digit(s[i + 1]))
}

/// The first point that ends a sentence is found.
proof fn lemma_sentence_end_at(s: Seq<char>, from: int, end: int)
    requires
        0 <= from <= end <= s.len(),
        forall|j: int| from <= j < end ==> !ends_sentence(s, j),
        end < s.len() ==> ends_sentence(s, end),
    ensures
        sentence_end(s, from) == end,
    decreases end - from,
{
    if from < end {
        assert(!ends_sentence(s, from));
        lemma_sentence_end_at(s, from + 1, end);
    }
}

/// Behind a point, sentences end where those of the rest end.
proof fn lemma_sentence_end_shift(s: Seq<char>, k: int, i: int)
    requires
        0 <= k <= s.len(),
        k > 0 ==> s[k - 1] == '.',
        0 <= i <= s.len() - k,
    ensures
        sentence_end(s, k + i) == k + sentence_end(s.skip(k), i),
    decreases s.len() - k - i,
{
    let t = s.skip(k);
    if i < t.len() {
        assert(full_stop_at(t, i) == full_stop_at(s, k + i)) by {
            assert(t[i] == s[k + i]);
            if i > 0 {
                assert(t[i - 1] == s[k + i - 1]);
            }
            if i + 1 < t.len() {
                assert(t[i + 1] == s[k + i + 1]);
            }
        }
        if !full_stop_at(t, i) {
            lemma_sentence_end_shift(s, k, i + 1);
        }
    }
}

/// The sentences behind a point are those of the rest.
proof fn lemma_sentences_shift(s: Seq<char>, k: int, i: int)
    requires
        0 <= k <= s.len(),
        k > 0 ==> s[k - 1] == '.',
        0 <= i <= s.len() - k,
    ensures
        sentences_from(s, k + i) == sentences_from(s.skip(k), i),
    decreases s.len() - k - i,
{
    let t = s.skip(k);
    lemma_sentence_end_shift(s, k, i);
    lemma_sentence_end(t, i);
    let end = sentence_end(t, i);
    assert(s.subrange(k + i, k + end) =~= t.subrange(i, end));
    if end < t.len() {
        lemma_sentences_shift(s, k, end + 1);
    }
}

/// The first sentence of a text ends at the first point that is no decimal point, and the
/// others are those of the rest; a text without such a point is one sentence.
pub proof fn law_sentences(s: Seq<char>, end: int)
    requires
        0 <= end <= s.len(),
        forall|j: int| 0 <= j < end ==> !ends_sentence(s, j),
        end < s.len() ==> ends_sentence(s, end),
    ensures
        end < s.len() ==> sentences_from(s, 0) == seq![s.take(end)] + sentences_from(
            s.skip(end + 1),
            0,
        ),
        end == s.len() ==> sentences_from(s, 0) == seq![s],
{
    lemma_sentence_end_at(s, 0, end);
    assert(s.subrange(0, end) =~= s.take(end));
    if end < s.len() {
        lemma_sentences_shift(s, end + 1, 0);
    } else {
        assert(s.take(end) =~= s);
    }
}

/// What is said on a subject is made of the sentences on it, in order and joined with a
/// point and a blank: all of them and no others.
pub proof fn law_said_on(subject: Subject, block: Seq<char>, kept: Seq<Seq<char>>)
    requires
        kept == sentences_from(block, 0).filter(|t: Seq<char>| is_on(subject, t)),
    ensures
        trimmed(joined(kept, ". "@)).len() > 0 ==> said_on(subject, block) == Some(
            trimmed(joined(kept, ". "@)),
        ),
        trimmed(joined(kept, ". "@)).len() == 0 ==> said_on(subject, block) is None,
{
}

/// Whether a word of a text begins at an index with given letters.
pub open spec fn word_begins(s: Seq<char>, i: int, p: Seq<char>) -> bool {
    occurs_at(s, p, i) && (i > 0 ==> !is_letter(s[i - 1]))
}

/// Whether given letters stand in a text at an index, with neither letter nor digit next to
/// them.
pub open spec fn is_alone(s: Seq<char>, i: int, p: Seq<char>) -> bool {
    let end = i + p.len();
    &&& occurs_at(s, p, i)
    &&& i > 0 ==> !is_letter(s[i - 1]) && !is_digit(s[i - 1])
    &&& end < s.len() ==> !is_letter(s[end]) && !is_digit(s[end])
}

/// Whether the name of a document begins at an index of a text.
pub open spec fn begins_document(s: Seq<char>, i: int) -> bool {
    ||| word_begins(s, i, "transcript"@)
    ||| word_begins(s, i, "statement"@)
    ||| word_begins(s, i, "letter"@)
    ||| word_begins(s, i, "reference"@)
    ||| word_begins(s, i, "recommendation"@)
    ||| word_begins(s, i, "certificate"@)
    ||| word_begins(s, i, "passport"@)
    ||| word_begins(s, i, "curriculum vitae"@)
    ||| word_begins(s, i, "resume"@)
    ||| word_begins(s, i, "résumé"@)
    ||| word_begins(s, i, "portfolio"@)
    ||| word_begins(s, i, "research proposal"@)
    ||| word_begins(s, i, "essay"@)
    ||| word_begins(s, i, "writing sample"@)
    ||| word_begins(s, i, "application form"@)
    ||| word_begins(s, i, "photograph"@)
    ||| word_begins(s, i, "identification"@)
    ||| word_begins(s, i, "proof of"@)
    ||| word_begins(s, i, "document"@)
    ||| word_begins(s, i, "submit"@)
    ||| word_begins(s, i, "upload"@)
    ||| word_begins(s, i, "motivation"@)
    ||| word_begins(s, i, "research plan"@)
    ||| word_begins(s, i, "evidence of"@)
    ||| word_begins(s, i, "copy of"@)
    ||| word_begins(s, i, "copies"@)
    ||| is_alone(s, i, "cv"@)
    ||| is_alone(s, i, "cvs"@)
}

/// The names of documents are the known ones.
proof fn lemma_begins_document(s: Seq<char>, i: int)
    ensures
        begins_document(s, i) == document_at(s, i),
{
    let all = document_words();
    let short = short_document_names();
    assert(all[0] == "transcript"@ && all[1] == "statement"@ && all[2] == "letter"@ && all[3]
        == "reference"@ && all[4] == "recommendation"@ && all[5] == "certificate"@ && all[6]
        == "passport"@ && all[7] == "curriculum vitae"@ && all[8] == "resume"@ && all[9]
        == "résumé"@);
    assert(all[10] == "portfolio"@ && all[11] == "research proposal"@ && all[12] == "essay"@
        && all[13] == "writing sample"@ && all[14] == "application form"@ && all[15]
        == "photograph"@ && all[16] == "identification"@ && all[17] == "proof of"@ && all[18]
        == "document"@ && all[19] == "submit"@);
    assert(all[20] == "upload"@ && all[21] == "motivation"@ && all[22] == "research plan"@
        && all[23] == "evidence of"@ && all[24] == "copy of"@ && all[25] == "copies"@);
    assert(short[0] == "cv"@ && short[1] == "cvs"@);
    if exists|k: int| 0 <= k < all.len() && begins_at(s, #[trigger] all[k], i) {
        let k = choose|k: int| 0 <= k < all.len() && begins_at(s, #[trigger] all[k], i);
        assert(0 <= k < 26);
        assert(k < 10 ==> k == 0 || k == 1 || k == 2 || k == 3 || k == 4 || k == 5 || k == 6 || k
            == 7 || k == 8 || k == 9);
        assert(10 <= k < 20 ==> k == 10 || k == 11 || k == 12 || k == 13 || k == 14 || k == 15 || k
            == 16 || k == 17 || k == 18 || k == 19);
        assert(20 <= k ==> k == 20 || k == 21 || k == 22 || k == 23 || k == 24 || k == 25);
    }
    if exists|k: int| 0 <= k < short.len() && stands_alone_at(s, #[trigger] short[k], i) {
        let k = choose|k: int| 0 <= k < short.len() && stands_alone_at(s, #[trigger] short[k], i);
        assert(k == 0 || k == 1);
    }
}

/// A sentence is on documents exactly where it names one, in any case, and holds no English
/// score.
pub proof fn law_sentences_on_documents(sentence: Seq<char>)
    ensures
        is_on(Subject::Documents, sentence) == ((exists|i: int| #[trigger]
            begins_document(lower(sentence), i)) && !holds_english_score(sentence)),
{
    let s = lower(sentence);
    if on_documents(sentence) {
        let i = choose|i: int| #[trigger] document_at(s, i);
        lemma_begins_document(s, i);
        assert(begins_document(s, i));
    }
    if exists|i: int| #[trigger] begins_document(s, i) {
        let i = choose|i: int| #[trigger] begins_document(s, i);
        lemma_begins_document(s, i);
        assert(document_at(s, i));
    }
}

/// Whether an English test is named in a text at an index.
pub open spec fn names_english_at(s: Seq<char>, i: int) -> bool {
    stands(s, "ielts"@, i) || stands(s, "pte"@, i) || stands(s, "toefl"@, i) || stands(
        s,
        "duolingo"@,
        i,
    ) || stands(s, "det"@, i) || stands(s, "kaplan"@, i)
}

/// The lowercase names of the tests are lowercase.
proof fn lemma_test_names(s: Seq<char>, i: int, k: int)
    requires
        0 <= k < 6,
    ensures
        english_tests().len() == 6,
        english_name_at(folded(s), i, k) == stands(s, english_tests()[k], i),
        k == 0 ==> english_tests()[k] == "ielts"@,
        k == 1 ==> english_tests()[k] == "pte"@,
        k == 2 ==> english_tests()[k] == "toefl"@,
        k == 3 ==> english_tests()[k] == "duolingo"@,
        k == 4 ==> english_tests()[k] == "det"@,
        k == 5 ==> english_tests()[k] == "kaplan"@,
{
    reveal_strlit("ielts");
    reveal_strlit("pte");
    reveal_strlit("toefl");
    reveal_strlit("duolingo");
    reveal_strlit("det");
    reveal_strlit("kaplan");
    let name = english_tests()[k];
    assert(k == 0 || k == 1 || k == 2 || k == 3 || k == 4 || k == 5);
    assert(folded(name) =~= name);
    law_names_are_words(s, name, i);
}

/// A text that names no English test is kept as it is.
pub proof fn law_text_without_tests_is_kept(s: Seq<char>)
    requires
        forall|i: int| !#[trigger] names_english_at(s, i),
    ensures
        !holds_english_score(s),
        english_free(s) == s,
{
    assert forall|i: int, k: int| !#[trigger] scored_name_at(folded(s), i, k) by {
        if scored_name_at(folded(s), i, k) {
            lemma_test_names(s, i, k);
            assert(!names_english_at(s, i));
        }
    }
}

/// Of a text that holds an English score, the sentences that hold none are left, in order.
pub proof fn law_sentences_left(s: Seq<char>)
    requires
        holds_english_score(s),
    ensures
        english_free(s) == trimmed(
            joined(sentences_from(s, 0).filter(|t: Seq<char>| !holds_english_score(t)), "."@),
        ),
{
}

/// A text without letters has no words.
proof fn lemma_no_words(s: Seq<char>)
    requires
        forall|i: int| 0 <= i < s.len() ==> !is_letter(#[trigger] s[i]),
    ensures
        words_of(s).len() == 0,
        forall|j: int|
            0 <= j < split_at(s, Separator::NonLetter).len() ==> (#[trigger] split_at(
                s,
                Separator::NonLetter,
            )[j]).len() == 0,
    decreases s.len(),
{
    let pieces = split_at(s, Separator::NonLetter);
    if s.len() > 0 {
        let front = s.drop_last();
        lemma_no_words(front);
        assert(!is_letter(s[s.len() - 1]));
    }
    if words_of(s).len() > 0 {
        pieces.lemma_filter_pred(|t: Seq<char>| t.len() > 0, 0);
        assert(pieces.contains(words_of(s)[0])) by {
            assert(words_of(s).contains(words_of(s)[0]));
            pieces.lemma_filter_contains_rev(|t: Seq<char>| t.len() > 0, words_of(s)[0]);
        }
    }
}

/// Whether a text is a gap between a name and a number: blanks and colons.
pub open spec fn is_gap(s: Seq<char>) -> bool {
    forall|i: int| 0 <= i < s.len() ==> is_space(#[trigger] s[i]) || s[i] == ':'
}

/// A gap links a name and a number.
proof fn lemma_gap_is_link(s: Seq<char>, name_first: bool)
    requires
        is_gap(s),
    ensures
        is_link(folded(s), name_first),
        folded(s) == s,
{
    assert forall|i: int| 0 <= i < s.len() implies !is_letter(#[trigger] s[i]) && folded(s)[i]
        == s[i] by {
        assert(is_space(s[i]) || s[i] == ':');
    }
    assert(folded(s) =~= s);
    lemma_no_words(s);
    assert forall|i: int| 0 <= i < s.len() implies is_link_char(#[trigger] s[i], name_first) by {
        assert(is_space(s[i]) || s[i] == ':');
    }
    if words_of(s).contains("or"@) {
        assert(false);
    }
}

/// The next digit is found.
proof fn lemma_digit_from_at(s: Seq<char>, from: int, d: int)
    requires
        0 <= from <= d < s.len(),
        forall|j: int| from <= j < d ==> !is_digit(#[trigger] s[j]),
        is_digit(s[d]),
    ensures
        digit_from(s, from) == d,
    decreases d - from,
{
    if from < d {
        assert(!is_digit(s[from]));
        lemma_digit_from_at(s, from + 1, d);
    }
}

/// The end of a run of digits is found.
proof fn lemma_digits_end_at(s: Seq<char>, from: int, e: int)
    requires
        0 <= from <= e <= s.len(),
        forall|j: int| from <= j < e ==> is_digit(#[trigger] s[j]),
        e < s.len() ==> !is_digit(s[e]),
    ensures
        digits_end(s, from) == e,
    decreases e - from,
{
    if from < e {
        assert(is_digit(s[from]));
        lemma_digits_end_at(s, from + 1, e);
    }
}

/// The last digit is found.
proof fn lemma_digit_before_at(s: Seq<char>, i: int, e: int)
    requires
        0 < e <= i <= s.len(),
        forall|j: int| e <= j < i ==> !is_digit(#[trigger] s[j]),
        is_digit(s[e - 1]),
    ensures
        digit_before(s, i) == e,
    decreases i - e,
{
    if e < i {
        assert(!is_digit(s[i - 1]));
        lemma_digit_before_at(s, i - 1, e);
    }
}

/// The start of a run of digits is found.
proof fn lemma_digits_start_at(s: Seq<char>, e: int, b: int)
    requires
        0 <= b <= e <= s.len(),
        forall|j: int| b <= j < e ==> is_digit(#[trigger] s[j]),
        b > 0 ==> !is_digit(s[b - 1]),
    ensures
        digits_start(s, e) == b,
    decreases e - b,
{
    if b < e {
        assert(is_digit(s[e - 1]));
        lemma_digits_start_at(s, e - 1, b);
    }
}

/// The place of the name of a test among those of the English tests.
spec fn index_of_test(name: Seq<char>) -> int {
    if name == "ielts"@ {
        0
    } else if name == "pte"@ {
        1
    } else if name == "toefl"@ {
        2
    } else if name == "duolingo"@ {
        3
    } else if name == "det"@ {
        4
    } else {
        5
    }
}

/// A number of at most three digits right behind the name of an English test, but for
/// blanks and a colon, is taken for its score.
pub proof fn law_score_behind_english_name(
    s: Seq<char>,
    i: int,
    gap: Seq<char>,
    digits: Seq<char>,
    name: Seq<char>,
)
    requires
        name == "ielts"@ || name == "pte"@ || name == "toefl"@ || name == "duolingo"@ || name
            == "det"@ || name == "kaplan"@,
        stands(s, name, i),
        ({
            let m = i + name.len();
            let d = m + gap.len();
            let e = d + digits.len();
            &&& e <= s.len()
            &&& s.subrange(m, d) == gap
            &&& s.subrange(d, e) == digits
            &&& e < s.len() ==> !is_digit(s[e])
        }),
        is_gap(gap),
        1 <= digits.len() <= 3,
        all_digits(digits),
    ensures
        names_english_at(s, i),
        holds_english_score(s),
        number_score_at(folded(s), i + name.len() + gap.len()),
{
    let k = index_of_test(name);
    let f = folded(s);
    let m = i + name.len();
    let d = m + gap.len();
    let e = d + digits.len();
    lemma_test_names(s, i, k);
    assert(k == 0 || k == 1 || k == 2 || k == 3 || k == 4 || k == 5);
    lemma_gap_is_link(gap, true);
    assert(f.subrange(m, d) =~= folded(gap)) by {
        assert forall|j: int| 0 <= j < gap.len() implies f[m + j] == folded(gap)[j] by {
            assert(s.subrange(m, d)[j] == gap[j]);
        }
    }
    assert forall|j: int| m <= j < d implies !is_digit(#[trigger] f[j]) by {
        assert(gap[j - m] == s[j]);
        assert(is_space(gap[j - m]) || gap[j - m] == ':');
    }
    assert forall|j: int| d <= j < e implies is_digit(#[trigger] f[j]) by {
        assert(digits[j - d] == s[j]);
        assert(is_digit(digits[j - d]));
    }
    lemma_digit_from_at(f, m, d);
    lemma_digits_end_at(f, d, e);
    assert(score_after(f, m) == Some(d));
    assert(scored_name_at(f, i, k));
    assert(score_of_name(f, d, i, k));
}

/// A number of at most three digits right before the name of an English test, but for
/// blanks and a colon, is taken for its score, unless it is a part of a larger number or an
/// amount in pounds.
pub proof fn law_score_before_english_name(
    s: Seq<char>,
    i: int,
    gap: Seq<char>,
    digits: Seq<char>,
    name: Seq<char>,
)
    requires
        name == "ielts"@ || name == "pte"@ || name == "toefl"@ || name == "duolingo"@ || name
            == "det"@ || name == "kaplan"@,
        stands(s, name, i),
        ({
            let e = i - gap.len();
            let b = e - digits.len();
            &&& b >= 0
            &&& s.subrange(e, i) == gap
            &&& s.subrange(b, e) == digits
            &&& b > 0 ==> !is_digit(s[b - 1]) && s[b - 1] != ',' && s[b - 1] != '£'
        }),
        is_gap(gap),
        1 <= digits.len() <= 3,
        all_digits(digits),
    ensures
        holds_english_score(s),
        (forall|j: int| i <= j < s.len() ==> !is_digit(#[trigger] s[j])) ==> number_score_at(
            folded(s),
            i - gap.len() - digits.len(),
        ),
{
    let k = index_of_test(name);
    let f = folded(s);
    let e = i - gap.len();
    let b = e - digits.len();
    lemma_test_names(s, i, k);
    lemma_gap_is_link(gap, false);
    assert(f.subrange(e, i) =~= folded(gap)) by {
        assert forall|j: int| 0 <= j < gap.len() implies f[e + j] == folded(gap)[j] by {
            assert(s.subrange(e, i)[j] == gap[j]);
        }
    }
    assert forall|j: int| e <= j < i implies !is_digit(#[trigger] f[j]) by {
        assert(gap[j - e] == s[j]);
        assert(is_space(gap[j - e]) || gap[j - e] == ':');
    }
    assert forall|j: int| b <= j < e implies is_digit(#[trigger] f[j]) by {
        assert(digits[j - b] == s[j]);
        assert(is_digit(digits[j - b]));
    }
    lemma_digit_before_at(f, i, e);
    lemma_digits_start_at(f, e, b);
    assert(score_before(f, i) == Some(b));
    assert(scored_name_at(f, i, k));
    if forall|j: int| i <= j < s.len() ==> !is_digit(#[trigger] s[j]) {
        let m = i + name.len();
        assert(m <= s.len());
        assert forall|j: int| i <= j < f.len() implies !is_digit(#[trigger] f[j]) by {
            assert(!is_digit(s[j]));
        }
        lemma_no_digit_from(f, m);
        assert(score_after(f, m) is None);
        assert(score_of_name(f, b, i, k));
    }
}

/// Where no digit follows, none is found.
proof fn lemma_no_digit_from(s: Seq<char>, from: int)
    requires
        0 <= from <= s.len(),
        forall|j: int| from <= j < s.len() ==> !is_digit(#[trigger] s[j]),
    ensures
        digit_from(s, from) == s.len(),
    decreases s.len() - from,
{
    if from < s.len() {
        assert(!is_digit(s[from]));
        lemma_no_digit_from(s, from + 1);
    }
}

/// Whether a word may stand between the name of a test and its score behind it.
pub open spec fn leads_to_score(w: Seq<char>) -> bool {
    ||| w == "overall"@
    ||| w == "score"@
    ||| w == "scores"@
    ||| w == "of"@
    ||| w == "academic"@
    ||| w == "ibt"@
    ||| w == "ukvi"@
    ||| w == "english"@
    ||| w == "test"@
    ||| w == "exam"@
    ||| w == "minimum"@
    ||| w == "min"@
    ||| w == "band"@
    ||| w == "bands"@
    ||| w == "grade"@
    ||| w == "level"@
    ||| w == "result"@
    ||| w == "requirement"@
    ||| w == "requirements"@
    ||| w == "required"@
    ||| w == "total"@
    ||| w == "average"@
    ||| w == "component"@
    ||| w == "components"@
    ||| w == "section"@
    ||| w == "skill"@
    ||| w == "skills"@
    ||| w == "listening"@
    ||| w == "reading"@
    ||| w == "writing"@
    ||| w == "speaking"@
    ||| w == "each"@
    ||| w == "every"@
    ||| w == "all"@
    ||| w == "no"@
    ||| w == "not"@
    ||| w == "less"@
    ||| w == "lower"@
    ||| w == "below"@
    ||| w == "than"@
    ||| w == "at"@
    ||| w == "least"@
    ||| w == "a"@
    ||| w == "an"@
    ||| w == "the"@
    ||| w == "with"@
    ||| w == "is"@
    ||| w == "in"@
    ||| w == "equivalent"@
    ||| w == "s"@
}

/// Whether a word may stand between a score and the name of its test behind it.
pub open spec fn leads_to_name(w: Seq<char>) -> bool {
    ||| w == "above"@
    ||| w == "higher"@
    ||| w == "more"@
    ||| w == "better"@
    ||| w == "in"@
    ||| w == "on"@
    ||| w == "for"@
    ||| w == "from"@
    ||| w == "the"@
    ||| w == "overall"@
    ||| w == "score"@
    ||| w == "points"@
    ||| w == "band"@
    ||| w == "academic"@
    ||| w == "english"@
    ||| w == "minimum"@
}

/// The words that lead to a score are among those that may stand before it.
proof fn lemma_leads_to_score(w: Seq<char>)
    requires
        leads_to_score(w),
    ensures
        words_before_score().contains(w),
{
    let all = words_before_score();
    if w == "overall"@ {
        assert(all[0] == w);
    }
    if w == "score"@ {
        assert(all[1] == w);
    }
    if w == "scores"@ {
        assert(all[2] == w);
    }
    if w == "of"@ {
        assert(all[3] == w);
    }
    if w == "academic"@ {
        assert(all[4] == w);
    }
    if w == "ibt"@ {
        assert(all[5] == w);
    }
    if w == "ukvi"@ {
        assert(all[6] == w);
    }
    if w == "english"@ {
        assert(all[7] == w);
    }
    if w == "test"@ {
        assert(all[8] == w);
    }
    if w == "exam"@ {
        assert(all[9] == w);
    }
    if w == "minimum"@ {
        assert(all[10] == w);
    }
    if w == "min"@ {
        assert(all[11] == w);
    }
    if w == "band"@ {
        assert(all[12] == w);
    }
    if w == "bands"@ {
        assert(all[13] == w);
    }
    if w == "grade"@ {
        assert(all[14] == w);
    }
    if w == "level"@ {
        assert(all[15] == w);
    }
    if w == "result"@ {
        assert(all[16] == w);
    }
    if w == "requirement"@ {
        assert(all[17] == w);
    }
    if w == "requirements"@ {
        assert(all[18] == w);
    }
    if w == "required"@ {
        assert(all[19] == w);
    }
    if w == "total"@ {
        assert(all[20] == w);
    }
    if w == "average"@ {
        assert(all[21] == w);
    }
    if w == "component"@ {
        assert(all[22] == w);
    }
    if w == "components"@ {
        assert(all[23] == w);
    }
    if w == "section"@ {
        assert(all[24] == w);
    }
    if w == "skill"@ {
        assert(all[25] == w);
    }
    if w == "skills"@ {
        assert(all[26] == w);
    }
    if w == "listening"@ {
        assert(all[27] == w);
    }
    if w == "reading"@ {
        assert(all[28] == w);
    }
    if w == "writing"@ {
        assert(all[29] == w);
    }
    if w == "speaking"@ {
        assert(all[30] == w);
    }
    if w == "each"@ {
        assert(all[31] == w);
    }
    if w == "every"@ {
        assert(all[32] == w);
    }
    if w == "all"@ {
        assert(all[33] == w);
    }
    if w == "no"@ {
        assert(all[34] == w);
    }
    if w == "not"@ {
        assert(all[35] == w);
    }
    if w == "less"@ {
        assert(all[36] == w);
    }
    if w == "lower"@ {
        assert(all[37] == w);
    }
    if w == "below"@ {
        assert(all[38] == w);
    }
    if w == "than"@ {
        assert(all[39] == w);
    }
    if w == "at"@ {
        assert(all[40] == w);
    }
    if w == "least"@ {
        assert(all[41] == w);
    }
    if w == "a"@ {
        assert(all[42] == w);
    }
    if w == "an"@ {
        assert(all[43] == w);
    }
    if w == "the"@ {
        assert(all[44] == w);
    }
    if w == "with"@ {
        assert(all[45] == w);
    }
    if w == "is"@ {
        assert(all[46] == w);
    }
    if w == "in"@ {
        assert(all[47] == w);
    }
    if w == "equivalent"@ {
        assert(all[49] == w);
    }
    if w == "s"@ {
        assert(all[50] == w);
    }
}

/// The words that lead to a name are among those that may stand behind a score.
proof fn lemma_leads_to_name(w: Seq<char>)
    requires
        leads_to_name(w),
    ensures
        words_behind_score().contains(w),
{
    let all = words_behind_score();
    if w == "above"@ {
        assert(all[1] == w);
    }
    if w == "higher"@ {
        assert(all[2] == w);
    }
    if w == "more"@ {
        assert(all[3] == w);
    }
    if w == "better"@ {
        assert(all[4] == w);
    }
    if w == "in"@ {
        assert(all[5] == w);
    }
    if w == "on"@ {
        assert(all[6] == w);
    }
    if w == "for"@ {
        assert(all[7] == w);
    }
    if w == "from"@ {
        assert(all[8] == w);
    }
    if w == "the"@ {
        assert(all[9] == w);
    }
    if w == "overall"@ {
        assert(all[10] == w);
    }
    if w == "score"@ {
        assert(all[11] == w);
    }
    if w == "points"@ {
        assert(all[12] == w);
    }
    if w == "band"@ {
        assert(all[13] == w);
    }
    if w == "academic"@ {
        assert(all[14] == w);
    }
    if w == "english"@ {
        assert(all[15] == w);
    }
    if w == "minimum"@ {
        assert(all[16] == w);
    }
}

/// A word behind a blank is one piece.
proof fn lemma_split_word(w: Seq<char>)
    requires
        forall|i: int| 0 <= i < w.len() ==> is_letter(#[trigger] w[i]),
    ensures
        split_at(seq![' '] + w, Separator::NonLetter) == seq![Seq::empty(), w],
    decreases w.len(),
{
    let sep = Separator::NonLetter;
    let s = seq![' '] + w;
    if w.len() == 0 {
        assert(w =~= Seq::empty());
        assert(s =~= seq![' ']);
        assert(s.drop_last() =~= Seq::empty());
        assert(split_at(Seq::empty(), sep) =~= seq![Seq::empty()]);
        assert(split_at(s, sep) =~= seq![Seq::empty(), w]);
    } else {
        let front = w.drop_last();
        assert forall|i: int| 0 <= i < front.len() implies is_letter(#[trigger] front[i]) by {
            assert(is_letter(w[i]));
        }
        lemma_split_word(front);
        assert(s.drop_last() =~= seq![' '] + front);
        assert(s.last() == w.last());
        assert(is_letter(w[w.len() - 1]));
        assert(front.push(w.last()) =~= w);
        assert(split_at(s, sep) =~= seq![Seq::empty(), w]);
    }
}

/// A word between blanks is the only one.
proof fn lemma_single_word(w: Seq<char>)
    requires
        w.len() > 0,
        forall|i: int| 0 <= i < w.len() ==> is_letter(#[trigger] w[i]),
    ensures
        words_of(seq![' '] + w + seq![' ']) == seq![w],
{
    let sep = Separator::NonLetter;
    let s = seq![' '] + w + seq![' '];
    let none = Seq::<char>::empty();
    lemma_split_word(w);
    assert(s.drop_last() =~= seq![' '] + w);
    assert(split_at(s, sep) =~= seq![none, w, none]);
    let nothing = Seq::<Seq<char>>::empty();
    reveal(Seq::filter);
    assert(non_empty(nothing) =~= nothing);
    lemma_non_empty_push(nothing, none);
    lemma_non_empty_push(nothing.push(none), w);
    lemma_non_empty_push(nothing.push(none).push(w), none);
    assert(nothing.push(none).push(w).push(none) =~= seq![none, w, none]);
    assert(non_empty(seq![none, w, none]) =~= seq![w]);
}

/// Whether a text is a word in lowercase letters.
pub open spec fn is_lower_word(w: Seq<char>) -> bool {
    w.len() > 0 && forall|i: int| 0 <= i < w.len() ==> 'a' <= #[trigger] w[i] <= 'z'
}

/// A linking word between blanks links a name and a number.
proof fn lemma_word_is_link(w: Seq<char>, name_first: bool)
    requires
        is_lower_word(w),
        w != "or"@,
        name_first ==> leads_to_score(w),
        !name_first ==> leads_to_name(w),
    ensures
        is_link(seq![' '] + w + seq![' '], name_first),
        folded(seq![' '] + w + seq![' ']) == seq![' '] + w + seq![' '],
        forall|i: int|
            0 <= i < w.len() + 2 ==> !is_digit(#[trigger] (seq![' '] + w + seq![' '])[i]),
{
    let s = seq![' '] + w + seq![' '];
    assert forall|i: int| 0 <= i < w.len() implies is_letter(#[trigger] w[i]) by {
        assert('a' <= w[i] <= 'z');
    }
    lemma_single_word(w);
    if name_first {
        lemma_leads_to_score(w);
    } else {
        lemma_leads_to_name(w);
    }
    assert forall|i: int| 0 <= i < s.len() implies is_link_char(#[trigger] s[i], name_first)
        && folded(s)[i] == s[i] && !is_digit(s[i]) by {
        if 0 < i < s.len() - 1 {
            assert(s[i] == w[i - 1]);
            assert('a' <= w[i - 1] <= 'z');
        }
    }
    assert(folded(s) =~= s);
    assert(words_of(s)[0] == w);
    assert(!words_of(s).contains("or"@));
}

/// A number of at most three digits behind the name of an English test and one linking
/// word, such as "overall", is taken for its score; so is one before the name.
pub proof fn law_score_and_linking_word(
    s: Seq<char>,
    i: int,
    w: Seq<char>,
    digits: Seq<char>,
    name: Seq<char>,
)
    requires
        name == "ielts"@ || name == "pte"@ || name == "toefl"@ || name == "duolingo"@ || name
            == "det"@ || name == "kaplan"@,
        stands(s, name, i),
        is_lower_word(w),
        w != "or"@,
        1 <= digits.len() <= 3,
        all_digits(digits),
        ({
            let m = i + name.len();
            let d = m + w.len() + 2;
            let e = d + digits.len();
            let x = i - w.len() - 2;
            let b = x - digits.len();
            ||| {
                &&& leads_to_score(w)
                &&& e <= s.len()
                &&& folded(s).subrange(m, d) == seq![' '] + w + seq![' ']
                &&& s.subrange(d, e) == digits
                &&& e < s.len() ==> !is_digit(s[e])
            }
            ||| {
                &&& leads_to_name(w)
                &&& b >= 0
                &&& folded(s).subrange(x, i) == seq![' '] + w + seq![' ']
                &&& s.subrange(b, x) == digits
                &&& b > 0 ==> !is_digit(s[b - 1]) && s[b - 1] != ',' && s[b - 1] != '£'
            }
        }),
    ensures
        holds_english_score(s),
{
    let k = index_of_test(name);
    let f = folded(s);
    let link = seq![' '] + w + seq![' '];
    let m = i + name.len();
    let d = m + w.len() + 2;
    let e = d + digits.len();
    let x = i - w.len() - 2;
    let b = x - digits.len();
    lemma_test_names(s, i, k);
    if leads_to_score(w) && e <= s.len() && f.subrange(m, d) == link && s.subrange(d, e) == digits
        && (e < s.len() ==> !is_digit(s[e])) {
        lemma_word_is_link(w, true);
        assert forall|j: int| m <= j < d implies !is_digit(#[trigger] f[j]) by {
            assert(f.subrange(m, d)[j - m] == f[j]);
            assert(!is_digit(link[j - m]));
        }
        assert forall|j: int| d <= j < e implies is_digit(#[trigger] f[j]) by {
            assert(digits[j - d] == s[j]);
            assert(is_digit(digits[j - d]));
        }
        lemma_digit_from_at(f, m, d);
        lemma_digits_end_at(f, d, e);
        assert(score_after(f, m) == Some(d));
    } else {
        lemma_word_is_link(w, false);
        assert forall|j: int| x <= j < i implies !is_digit(#[trigger] f[j]) by {
            assert(f.subrange(x, i)[j - x] == f[j]);
            assert(!is_digit(link[j - x]));
        }
        assert forall|j: int| b <= j < x implies is_digit(#[trigger] f[j]) by {
            assert(digits[j - b] == s[j]);
            assert(is_digit(digits[j - b]));
        }
        lemma_digit_before_at(f, i, x);
        lemma_digits_start_at(f, x, b);
        assert(score_before(f, i) == Some(b));
    }
    assert(scored_name_at(f, i, k));
}

/// No other words link a name and a number.
proof fn lemma_only_linking_words(w: Seq<char>)
    ensures
        words_before_score().contains(w) ==> leads_to_score(w) || w == "or"@,
        words_behind_score().contains(w) ==> leads_to_name(w) || w == "or"@,
{
    if words_before_score().contains(w) {
        lemma_only_before_score(w);
    }
    if words_behind_score().contains(w) {
        lemma_only_behind_score(w);
    }
}

/// No other words may stand before a score.
proof fn lemma_only_before_score(w: Seq<char>)
    requires
        words_before_score().contains(w),
    ensures
        leads_to_score(w) || w == "or"@,
{
    let all = words_before_score();
    let k = choose|k: int| 0 <= k < all.len() && all[k] == w;
    assert(all.len() == 51);
    assert(all[0] == "overall"@);
    assert(all[1] == "score"@);
    assert(all[2] == "scores"@);
    assert(all[3] == "of"@);
    assert(all[4] == "academic"@);
    assert(all[5] == "ibt"@);
    assert(all[6] == "ukvi"@);
    assert(all[7] == "english"@);
    assert(all[8] == "test"@);
    assert(all[9] == "exam"@);
    assert(all[10] == "minimum"@);
    assert(all[11] == "min"@);
    assert(all[12] == "band"@);
    assert(all[13] == "bands"@);
    assert(all[14] == "grade"@);
    assert(all[15] == "level"@);
    assert(all[16] == "result"@);
    assert(all[17] == "requirement"@);
    assert(all[18] == "requirements"@);
    assert(all[19] == "required"@);
    assert(all[20] == "total"@);
    assert(all[21] == "average"@);
    assert(all[22] == "component"@);
    assert(all[23] == "components"@);
    assert(all[24] == "section"@);
    assert(all[25] == "skill"@);
    assert(all[26] == "skills"@);
    assert(all[27] == "listening"@);
    assert(all[28] == "reading"@);
    assert(all[29] == "writing"@);
    assert(all[30] == "speaking"@);
    assert(all[31] == "each"@);
    assert(all[32] == "every"@);
    assert(all[33] == "all"@);
    assert(all[34] == "no"@);
    assert(all[35] == "not"@);
    assert(all[36] == "less"@);
    assert(all[37] == "lower"@);
    assert(all[38] == "below"@);
    assert(all[39] == "than"@);
    assert(all[40] == "at"@);
    assert(all[41] == "least"@);
    assert(all[42] == "a"@);
    assert(all[43] == "an"@);
    assert(all[44] == "the"@);
    assert(all[45] == "with"@);
    assert(all[46] == "is"@);
    assert(all[47] == "in"@);
    assert(all[48] == "or"@);
    assert(all[49] == "equivalent"@);
    assert(all[50] == "s"@);
    assert(0 <= k < 10 ==> k == 0
        || k == 1
        || k == 2
        || k == 3
        || k == 4
        || k == 5
        || k == 6
        || k == 7
        || k == 8
        || k == 9);
    assert(10 <= k < 20 ==> k == 10
        || k == 11
        || k == 12
        || k == 13
        || k == 14
        || k == 15
        || k == 16
        || k == 17
        || k == 18
        || k == 19);
    assert(20 <= k < 30 ==> k == 20
        || k == 21
        || k == 22
        || k == 23
        || k == 24
        || k == 25
        || k == 26
        || k == 27
        || k == 28
        || k == 29);
    assert(30 <= k < 40 ==> k == 30
        || k == 31
        || k == 32
        || k == 33
        || k == 34
        || k == 35
        || k == 36
        || k == 37
        || k == 38
        || k == 39);
    assert(40 <= k < 50 ==> k == 40
        || k == 41
        || k == 42
        || k == 43
        || k == 44
        || k == 45
        || k == 46
        || k == 47
        || k == 48
        || k == 49);
    assert(50 <= k < 51 ==> k == 50);
}

/// No other words may stand behind a score.
proof fn lemma_only_behind_score(w: Seq<char>)
    requires
        words_behind_score().contains(w),
    ensures
        leads_to_name(w) || w == "or"@,
{
    let all = words_behind_score();
    let k = choose|k: int| 0 <= k < all.len() && all[k] == w;
    assert(all.len() == 17);
    assert(all[0] == "or"@);
    assert(all[1] == "above"@);
    assert(all[2] == "higher"@);
    assert(all[3] == "more"@);
    assert(all[4] == "better"@);
    assert(all[5] == "in"@);
    assert(all[6] == "on"@);
    assert(all[7] == "for"@);
    assert(all[8] == "from"@);
    assert(all[9] == "the"@);
    assert(all[10] == "overall"@);
    assert(all[11] == "score"@);
    assert(all[12] == "points"@);
    assert(all[13] == "band"@);
    assert(all[14] == "academic"@);
    assert(all[15] == "english"@);
    assert(all[16] == "minimum"@);
    assert(0 <= k < 10 ==> k == 0
        || k == 1
        || k == 2
        || k == 3
        || k == 4
        || k == 5
        || k == 6
        || k == 7
        || k == 8
        || k == 9);
    assert(10 <= k < 17 ==> k == 10
        || k == 11
        || k == 12
        || k == 13
        || k == 14
        || k == 15
        || k == 16);
}

/// Whether a character may stand between the name of a test and its score.
pub open spec fn is_between(c: char, name_first: bool) -> bool {
    is_letter(c) || is_space(c) || c == ':' || c == '(' || c == ')' || c == '-' || c == '/' || c
        == '=' || c == '>' || c == '–' || c == '≥' || (name_first && c == ',')
}

/// Whether words that hold an "or" hold one that stays with the score, as "or equivalent" and
/// "or above" do.
pub open spec fn or_leads_on(words: Seq<Seq<char>>) -> bool {
    words.contains("or"@) ==> words.contains("equivalent"@) || words.contains("above"@)
        || words.contains("higher"@) || words.contains("more"@) || words.contains("better"@)
}

/// An "or" that stays with the score leads on.
proof fn lemma_or_leads_on(words: Seq<Seq<char>>)
    requires
        or_stays(words),
    ensures
        or_leads_on(words),
{
    if words.contains("or"@) {
        let all = words_behind_or();
        let j = choose|j: int| 0 <= j < words.len() && all.contains(#[trigger] words[j]);
        let k = choose|k: int| 0 <= k < all.len() && all[k] == words[j];
        assert(k == 0 || k == 1 || k == 2 || k == 3 || k == 4);
        assert(words.contains(words[j]));
    }
}

/// Whether a number of at most three digits, that is no part of a larger one and no amount
/// in pounds, stands in a text from an index up to another.
pub open spec fn short_number(s: Seq<char>, b: int, e: int) -> bool {
    &&& 0 <= b < e <= s.len()
    &&& e - b <= 3
    &&& forall|j: int| b <= j < e ==> is_digit(#[trigger] s[j])
    &&& b > 0 ==> !is_digit(s[b - 1]) && s[b - 1] != ',' && s[b - 1] != '£'
}

/// The start of a run of digits is found.
proof fn lemma_digits_start_found(s: Seq<char>, e: int)
    requires
        0 <= e <= s.len(),
    ensures
        0 <= digits_start(s, e) <= e,
        forall|j: int| digits_start(s, e) <= j < e ==> is_digit(#[trigger] s[j]),
        digits_start(s, e) > 0 ==> !is_digit(s[digits_start(s, e) - 1]),
    decreases e,
{
    if 0 < e && is_digit(s[e - 1]) {
        lemma_digits_start_found(s, e - 1);
    }
}

/// Whether a number of at most three digits stands in a text at an index, and only letters,
/// blanks, a few marks and linking words stand between a name that ends at another index and
/// it.
pub open spec fn follows_name(s: Seq<char>, m: int, d: int) -> bool {
    let f = folded(s);
    let between = f.subrange(m, d);
    &&& 0 <= m <= d < s.len()
    &&& is_digit(s[d])
    &&& !(d + 3 < s.len() && is_digit(s[d + 1]) && is_digit(s[d + 2]) && is_digit(s[d + 3]))
    &&& forall|j: int| 0 <= j < between.len() ==> is_between(#[trigger] between[j], true)
    &&& forall|j: int|
        0 <= j < words_of(between).len() ==> leads_to_score(#[trigger] words_of(between)[j])
            || words_of(between)[j] == "or"@
    &&& or_leads_on(words_of(between))
}

/// The same of a number that ends at an index, before a name that starts at another one.
pub open spec fn precedes_name(s: Seq<char>, e: int, i: int) -> bool {
    let f = folded(s);
    let between = f.subrange(e, i);
    &&& 0 < e <= i <= s.len()
    &&& exists|b: int| #[trigger] short_number(s, b, e)
    &&& forall|j: int| 0 <= j < between.len() ==> is_between(#[trigger] between[j], false)
    &&& forall|j: int|
        0 <= j < words_of(between).len() ==> leads_to_name(#[trigger] words_of(between)[j])
            || words_of(between)[j] == "or"@
    &&& or_leads_on(words_of(between))
}

/// Whether the name of an English test that stands at an index has a score next to it.
pub open spec fn has_score_next_to(s: Seq<char>, i: int, name: Seq<char>) -> bool {
    &&& name == "ielts"@ || name == "pte"@ || name == "toefl"@ || name == "duolingo"@ || name
        == "det"@ || name == "kaplan"@
    &&& stands(s, name, i)
    &&& (exists|d: int| #[trigger] follows_name(s, i + name.len(), d)) || (exists|e: int| #[trigger]
        precedes_name(s, e, i))
}

/// The digit found is at or after the index.
proof fn lemma_digit_from_found(s: Seq<char>, i: int)
    requires
        0 <= i <= s.len(),
    ensures
        i <= digit_from(s, i) <= s.len(),
        digit_from(s, i) < s.len() ==> is_digit(s[digit_from(s, i)]),
    decreases s.len() - i,
{
    if i < s.len() && !is_digit(s[i]) {
        lemma_digit_from_found(s, i + 1);
    }
}

/// The digit found is before the index.
proof fn lemma_digit_before_found(s: Seq<char>, i: int)
    requires
        0 <= i <= s.len(),
    ensures
        0 <= digit_before(s, i) <= i,
        digit_before(s, i) > 0 ==> is_digit(s[digit_before(s, i) - 1]),
    decreases i,
{
    if 0 < i && !is_digit(s[i - 1]) {
        lemma_digit_before_found(s, i - 1);
    }
}

/// A sentence is only left out for a score that stands next to the name of its test: a text
/// with nothing of the kind is kept.
pub proof fn law_only_scores_next_to_names(s: Seq<char>)
    requires
        holds_english_score(s),
    ensures
        exists|i: int, name: Seq<char>| #[trigger] has_score_next_to(s, i, name),
{
    let f = folded(s);
    let (i, k) = choose|i: int, k: int| #[trigger] scored_name_at(f, i, k);
    let name = english_tests()[k];
    lemma_test_names(s, i, k);
    assert(k == 0 || k == 1 || k == 2 || k == 3 || k == 4 || k == 5);
    let m = i + name.len();
    assert(0 <= i && m <= s.len());
    if score_after(f, m) is Some {
        lemma_digit_from_found(f, m);
        let d = digit_from(f, m);
        let between = f.subrange(m, d);
        assert(is_link(between, true));
        assert forall|j: int| 0 <= j < words_of(between).len() implies leads_to_score(
            #[trigger] words_of(between)[j],
        ) || words_of(between)[j] == "or"@ by {
            lemma_only_linking_words(words_of(between)[j]);
        }
        assert forall|j: int| 0 <= j < between.len() implies is_between(
            #[trigger] between[j],
            true,
        ) by {
            assert(is_link_char(between[j], true));
        }
        if d + 3 < s.len() && is_digit(s[d + 1]) && is_digit(s[d + 2]) && is_digit(s[d + 3]) {
            reveal_with_fuel(digits_end, 5);
            lemma_digits_end_after(f, d + 4);
        }
        lemma_or_leads_on(words_of(between));
        assert(follows_name(s, m, d));
    } else {
        lemma_digit_before_found(f, i);
        let e = digit_before(f, i);
        let between = f.subrange(e, i);
        assert(is_link(between, false));
        assert forall|j: int| 0 <= j < words_of(between).len() implies leads_to_name(
            #[trigger] words_of(between)[j],
        ) || words_of(between)[j] == "or"@ by {
            lemma_only_linking_words(words_of(between)[j]);
        }
        assert forall|j: int| 0 <= j < between.len() implies is_between(
            #[trigger] between[j],
            false,
        ) by {
            assert(is_link_char(between[j], false));
        }
        lemma_or_leads_on(words_of(between));
        lemma_digits_start_found(f, e);
        let b = digits_start(f, e);
        assert forall|j: int| b <= j < e implies is_digit(#[trigger] s[j]) by {
            assert(is_digit(f[j]));
        }
        assert(b > 0 ==> f[b - 1] == s[b - 1] || is_letter(s[b - 1]));
        assert(short_number(s, b, e));
        assert(precedes_name(s, e, i));
    }
    assert(has_score_next_to(s, i, name));
}

/// A run of digits does not end before it starts.
proof fn lemma_digits_end_after(s: Seq<char>, i: int)
    requires
        0 <= i <= s.len(),
    ensures
        i <= digits_end(s, i),
    decreases s.len() - i,
{
    if i < s.len() && is_digit(s[i]) {
        lemma_digits_end_after(s, i + 1);
    }
}

/// In a text that names no English test, no number is the score of one.
pub proof fn law_no_test_no_english_score(s: Seq<char>, d: int)
    requires
        forall|i: int| !#[trigger] names_english_at(s, i),
    ensures
        !number_score_at(folded(s), d),
{
    let f = folded(s);
    assert forall|p: int, i: int, k: int| !#[trigger] score_of_name(f, p, i, k) by {
        if score_of_name(f, p, i, k) {
            lemma_test_names(s, i, k);
            assert(!names_english_at(s, i));
        }
    }
}

} // verus!
