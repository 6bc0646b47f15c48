//! What keeping English scores apart guarantees.

use vstd::prelude::*;

use crate::english::{
    digit_before, digit_from, digits_end, digits_start, english_free, english_name_at,
    english_tests, free_or_none, holds_english_score, is_link_char,
    lemma_english_names_are_letters, makes_amount, score_after, score_before, scored_name_at,
    without_scores,
};
use crate::scores::letters_end;
use crate::text::{is_space, joined, sentences_from, trim_end, trim_start, trimmed};
use crate::unicode::{folded, is_digit, is_letter};

verus! {

/// Whether a character ends words and numbers alike.
pub open spec fn is_wall(c: char) -> bool {
    !is_letter(c) && !is_digit(c) && !makes_amount(c)
}

/// Whether the part of a text from one index up to another cuts no word and no number.
pub open spec fn walled(s: Seq<char>, lo: int, hi: int) -> bool {
    &&& 0 <= lo <= hi <= s.len()
    &&& lo > 0 ==> is_wall(s[lo - 1])
    &&& hi < s.len() ==> is_wall(s[hi])
}

/// A run of letters ends in a part of a text where it ends in the text.
proof fn lemma_letters_end_part(s: Seq<char>, lo: int, hi: int, i: int)
    requires
        walled(s, lo, hi),
        0 <= i <= hi - lo,
    ensures
        i <= letters_end(s.subrange(lo, hi), i) <= hi - lo,
        letters_end(s, lo + i) == lo + letters_end(s.subrange(lo, hi), i),
    decreases hi - lo - i,
{
    if i < hi - lo && is_letter(s[lo + i]) {
        lemma_letters_end_part(s, lo, hi, i + 1);
    }
}

/// A run of digits ends in a part of a text where it ends in the text.
proof fn lemma_digits_end_part(s: Seq<char>, lo: int, hi: int, i: int)
    requires
        walled(s, lo, hi),
        0 <= i <= hi - lo,
    ensures
        i <= digits_end(s.subrange(lo, hi), i) <= hi - lo,
        digits_end(s, lo + i) == lo + digits_end(s.subrange(lo, hi), i),
    decreases hi - lo - i,
{
    if i < hi - lo && is_digit(s[lo + i]) {
        lemma_digits_end_part(s, lo, hi, i + 1);
    }
}

/// A run of digits starts in a part of a text where it starts in the text.
proof fn lemma_digits_start_part(s: Seq<char>, lo: int, hi: int, i: int)
    requires
        walled(s, lo, hi),
        0 <= i <= hi - lo,
    ensures
        0 <= digits_start(s.subrange(lo, hi), i) <= i,
        digits_start(s, lo + i) == lo + digits_start(s.subrange(lo, hi), i),
    decreases i,
{
    if 0 < i {
        assert(s.subrange(lo, hi)[i - 1] == s[lo + i - 1]);
        if is_digit(s[lo + i - 1]) {
            lemma_digits_start_part(s, lo, hi, i - 1);
        }
    }
}

/// The digit found is at or after the index.
proof fn lemma_digit_from(s: Seq<char>, i: int)
    requires
        0 <= i <= s.len(),
    ensures
        i <= digit_from(s, i) <= s.len(),
        digit_from(s, i) < s.len() ==> is_digit(s[digit_from(s, i)]),
    decreases s.len() - i,
{
    if i < s.len() && !is_digit(s[i]) {
        lemma_digit_from(s, i + 1);
    }
}

/// The digit found is before the index.
proof fn lemma_digit_before(s: Seq<char>, i: int)
    requires
        0 <= i <= s.len(),
    ensures
        0 <= digit_before(s, i) <= i,
        digit_before(s, i) > 0 ==> is_digit(s[digit_before(s, i) - 1]),
    decreases i,
{
    if 0 < i && !is_digit(s[i - 1]) {
        lemma_digit_before(s, i - 1);
    }
}

/// The next digit in a part of a text is the next one in the text, if there is one.
proof fn lemma_digit_from_part(s: Seq<char>, lo: int, hi: int, i: int)
    requires
        walled(s, lo, hi),
        0 <= i <= hi - lo,
    ensures
        ({
            let d = digit_from(s.subrange(lo, hi), i);
            &&& i <= d <= hi - lo
            &&& d < hi - lo ==> digit_from(s, lo + i) == lo + d
            &&& d == hi - lo ==> digit_from(s, lo + i) >= hi
        }),
    decreases hi - lo - i,
{
    if i < hi - lo && !is_digit(s[lo + i]) {
        lemma_digit_from_part(s, lo, hi, i + 1);
    } else if i == hi - lo {
        lemma_digit_from(s, hi);
    }
}

/// The last digit in a part of a text is the last one in the text, if there is one.
proof fn lemma_digit_before_part(s: Seq<char>, lo: int, hi: int, i: int)
    requires
        walled(s, lo, hi),
        0 <= i <= hi - lo,
    ensures
        ({
            let e = digit_before(s.subrange(lo, hi), i);
            &&& 0 <= e <= i
            &&& e > 0 ==> digit_before(s, lo + i) == lo + e
            &&& e == 0 ==> digit_before(s, lo + i) <= lo
        }),
    decreases i,
{
    if 0 < i {
        assert(s.subrange(lo, hi)[i - 1] == s[lo + i - 1]);
        if !is_digit(s[lo + i - 1]) {
            lemma_digit_before_part(s, lo, hi, i - 1);
        }
    } else {
        lemma_digit_before(s, lo);
    }
}

/// The name of a test stands in a part of a text as it stands in the text.
proof fn lemma_name_part(s: Seq<char>, lo: int, hi: int, i: int, k: int)
    requires
        walled(s, lo, hi),
        0 <= k < english_tests().len(),
        0 <= i,
        i + english_tests()[k].len() <= hi - lo,
    ensures
        english_name_at(s.subrange(lo, hi), i, k) == english_name_at(s, lo + i, k),
{
    let p = s.subrange(lo, hi);
    let end = i + english_tests()[k].len();
    lemma_letters_end_part(s, lo, hi, end);
    assert(p.subrange(i, end) =~= s.subrange(lo + i, lo + end));
    assert(p.subrange(end, letters_end(p, end)) =~= s.subrange(
        lo + end,
        letters_end(s, lo + end),
    ));
    assert(i > 0 ==> p[i - 1] == s[lo + i - 1]);
}

/// A score behind a name stands in a part of a text as it stands in the text, if it stands
/// in that part.
proof fn lemma_after_part(s: Seq<char>, lo: int, hi: int, end: int)
    requires
        walled(s, lo, hi),
        0 <= end <= hi - lo,
    ensures
        score_after(s.subrange(lo, hi), end) is Some ==> score_after(s, lo + end) is Some,
        score_after(s, lo + end) matches Some(d) ==> (d < hi ==> score_after(
            s.subrange(lo, hi),
            end,
        ) is Some),
{
    let p = s.subrange(lo, hi);
    let d = digit_from(p, end);
    lemma_digit_from_part(s, lo, hi, end);
    lemma_digits_end_part(s, lo, hi, d);
    assert(d < hi - lo ==> p.subrange(end, d) =~= s.subrange(lo + end, lo + d));
}

/// A score before a name stands in a part of a text as it stands in the text, if it stands
/// in that part.
proof fn lemma_before_part(s: Seq<char>, lo: int, hi: int, i: int)
    requires
        walled(s, lo, hi),
        0 <= i <= hi - lo,
    ensures
        score_before(s.subrange(lo, hi), i) is Some ==> score_before(s, lo + i) is Some,
        score_before(s, lo + i) is Some && digit_before(s, lo + i) > lo ==> score_before(
            s.subrange(lo, hi),
            i,
        ) is Some,
{
    let p = s.subrange(lo, hi);
    let e = digit_before(p, i);
    let b = digits_start(p, e);
    lemma_digit_before_part(s, lo, hi, i);
    lemma_digits_start_part(s, lo, hi, e);
    assert(e > 0 ==> p.subrange(e, i) =~= s.subrange(lo + e, lo + i));
    assert(b > 0 ==> p[b - 1] == s[lo + b - 1]);
}

/// A text holds the scores that a part of it holds.
proof fn lemma_part_holds(s: Seq<char>, lo: int, hi: int)
    requires
        walled(s, lo, hi),
        holds_english_score(s.subrange(lo, hi)),
    ensures
        holds_english_score(s),
{
    let p = s.subrange(lo, hi);
    let f = folded(s);
    assert(folded(p) =~= f.subrange(lo, hi));
    let (i, k) = choose|i: int, k: int| #[trigger] scored_name_at(folded(p), i, k);
    lemma_name_part(f, lo, hi, i, k);
    lemma_after_part(f, lo, hi, i + english_tests()[k].len());
    lemma_before_part(f, lo, hi, i);
    assert(scored_name_at(f, lo + i, k));
}

/// No score stands next to the name of a test across a point.
proof fn lemma_joined_by_point(a: Seq<char>, b: Seq<char>)
    requires
        !holds_english_score(a),
        !holds_english_score(b),
    ensures
        !holds_english_score(a + seq!['.'] + b),
{
    let s = a + seq!['.'] + b;
    let n = a.len() as int;
    let f = folded(s);
    let m = f.len() as int;
    assert(f[n] == '.');
    assert(folded(a) =~= f.subrange(0, n));
    assert(folded(b) =~= f.subrange(n + 1, m));
    assert forall|i: int, k: int| !#[trigger] scored_name_at(f, i, k) by {
        if scored_name_at(f, i, k) {
            let name = english_tests()[k];
            let end = i + name.len();
            lemma_english_names_are_letters(k);
            lemma_digit_from(f, end);
            lemma_digit_before(f, i);
            let d = digit_from(f, end);
            let e = digit_before(f, i);
            if i <= n < end {
                assert(f.subrange(i, end)[n - i] == f[n]);
                assert(is_letter(name[n - i]));
            } else if end <= n {
                if d > n && score_after(f, end) is Some {
                    assert(f.subrange(end, d)[n - end] == '.');
                    assert(is_link_char('.', true));
                }
                lemma_name_part(f, 0, n, i, k);
                lemma_after_part(f, 0, n, end);
                lemma_before_part(f, 0, n, i);
                assert(scored_name_at(folded(a), i, k));
            } else {
                let lo = n + 1;
                if e <= n && score_before(f, i) is Some {
                    assert(f.subrange(e, i)[n - e] == '.');
                    assert(is_link_char('.', false));
                }
                lemma_name_part(f, lo, m, i - lo, k);
                lemma_after_part(f, lo, m, end - lo);
                lemma_before_part(f, lo, m, i - lo);
                assert(scored_name_at(folded(b), i - lo, k));
            }
        }
    }
}

/// A blank before a text adds no score.
proof fn lemma_blank_first(s: Seq<char>)
    requires
        !holds_english_score(s),
    ensures
        !holds_english_score(seq![' '] + s),
{
    let t = seq![' '] + s;
    let f = folded(t);
    let m = f.len() as int;
    assert(f[0] == ' ');
    assert(folded(s) =~= f.subrange(1, m));
    assert forall|i: int, k: int| !#[trigger] scored_name_at(f, i, k) by {
        if scored_name_at(f, i, k) {
            let name = english_tests()[k];
            let end = i + name.len();
            lemma_english_names_are_letters(k);
            lemma_digit_from(f, end);
            lemma_digit_before(f, i);
            if i == 0 {
                assert(f.subrange(i, end)[0] == f[0]);
                assert(is_letter(name[0]));
            }
            lemma_name_part(f, 1, m, i - 1, k);
            lemma_after_part(f, 1, m, end - 1);
            lemma_before_part(f, 1, m, i - 1);
            assert(scored_name_at(folded(s), i - 1, k));
        }
    }
}

/// A text without digits holds no score.
pub proof fn lemma_no_digits_no_score(s: Seq<char>)
    requires
        forall|j: int| 0 <= j < s.len() ==> !is_digit(#[trigger] s[j]),
    ensures
        !holds_english_score(s),
{
    let f = folded(s);
    assert forall|i: int, k: int| !#[trigger] scored_name_at(f, i, k) by {
        if scored_name_at(f, i, k) {
            let end = i + english_tests()[k].len();
            lemma_digit_from(f, end);
            lemma_digit_before(f, i);
            let d = digit_from(f, end);
            let e = digit_before(f, i);
            if d < f.len() {
                assert(!is_digit(s[d]));
            }
            if e > 0 {
                assert(!is_digit(s[e - 1]));
            }
        }
    }
}

/// Sentences that hold no score of an English test hold none when they are joined with a
/// point, or with a point and a blank.
pub proof fn lemma_joined_holds_none(list: Seq<Seq<char>>, sep: Seq<char>)
    requires
        forall|i: int| 0 <= i < list.len() ==> !holds_english_score(#[trigger] list[i]),
        sep == seq!['.'] || sep == seq!['.', ' '],
    ensures
        !holds_english_score(joined(list, sep)),
    decreases list.len(),
{
    if list.len() == 0 {
        lemma_no_digits_no_score(joined(list, sep));
    } else {
        assert(!holds_english_score(list[list.len() - 1]));
        if list.len() > 1 {
            let front = list.drop_last();
            assert forall|i: int| 0 <= i < front.len() implies !holds_english_score(
                #[trigger] front[i],
            ) by {
                assert(!holds_english_score(list[i]));
            }
            lemma_joined_holds_none(front, sep);
            let a = joined(front, sep);
            let b = list.last();
            if sep == seq!['.'] {
                lemma_joined_by_point(a, b);
            } else {
                lemma_blank_first(b);
                lemma_joined_by_point(a, seq![' '] + b);
                assert(a + seq!['.'] + (seq![' '] + b) =~= a + sep + b);
            }
        }
    }
}

/// Removing white space at the start adds no score.
proof fn lemma_trim_start_holds_none(s: Seq<char>)
    requires
        !holds_english_score(s),
    ensures
        !holds_english_score(trim_start(s)),
    decreases s.len(),
{
    if s.len() > 0 && is_space(s[0]) {
        assert(s.drop_first() =~= s.subrange(1, s.len() as int));
        if holds_english_score(s.drop_first()) {
            lemma_part_holds(s, 1, s.len() as int);
        }
        lemma_trim_start_holds_none(s.drop_first());
    }
}

/// Removing white space at the end adds no score.
proof fn lemma_trim_end_holds_none(s: Seq<char>)
    requires
        !holds_english_score(s),
    ensures
        !holds_english_score(trim_end(s)),
    decreases s.len(),
{
    if s.len() > 0 && is_space(s.last()) {
        assert(s.drop_last() =~= s.subrange(0, s.len() - 1));
        if holds_english_score(s.drop_last()) {
            lemma_part_holds(s, 0, s.len() - 1);
        }
        lemma_trim_end_holds_none(s.drop_last());
    }
}

/// Trimming adds no score.
pub proof fn lemma_trimmed_holds_none(s: Seq<char>)
    requires
        !holds_english_score(s),
    ensures
        !holds_english_score(trimmed(s)),
{
    lemma_trim_start_holds_none(s);
    lemma_trim_end_holds_none(trim_start(s));
}

/// What is left of a text holds no score of an English test, also once it is trimmed, and
/// a text that holds none is left as it is.
pub proof fn law_english_free(s: Seq<char>)
    ensures
        !holds_english_score(english_free(s)),
        !holds_english_score(trimmed(english_free(s))),
        !holds_english_score(s) ==> english_free(s) == s,
        free_or_none(Some(s)) matches Some(t) ==> !holds_english_score(t),
{
    let list = sentences_from(s, 0);
    let kept = without_scores(list);
    assert forall|i: int| 0 <= i < kept.len() implies !holds_english_score(#[trigger] kept[i]) by {
        list.lemma_filter_pred(|t: Seq<char>| !holds_english_score(t), i);
    }
    reveal_strlit(".");
    assert("."@ =~= seq!['.']);
    lemma_joined_holds_none(kept, "."@);
    lemma_trimmed_holds_none(joined(kept, "."@));
    lemma_trimmed_holds_none(english_free(s));
}

} // verus!
