//! Which intakes are still to come.

use vstd::prelude::*;

use crate::english::{english_free, holds_english_score, without_scores};
use crate::number::{all_digits, digit, digits_value, parse_digits};
use crate::scores::{fold, word_at, word_matches_at};
use crate::text::{
    chars_of, is_space, is_white_space, join, joined, lemma_sentence_end, sentence_end,
    sentences_from, split, split_at, string_between, texts, trim_end, trim_start, trimmed,
    Separator,
};
use crate::text_laws::law_join_split;
use crate::unicode::{folded, is_digit};

verus! {

/// The first year whose intakes are listed.
pub const FIRST_INTAKE_YEAR: u64 = 2025;

/// The least number that is taken for a year.
pub const FIRST_YEAR: u64 = 1900;

/// Whether four digits stand in a text at an index, with no digit next to them.
pub open spec fn year_at(s: Seq<char>, i: int) -> bool {
    &&& 0 <= i
    &&& i + 4 <= s.len()
    &&& all_digits(s.subrange(i, i + 4))
    &&& i > 0 ==> !is_digit(s[i - 1])
    &&& i + 4 < s.len() ==> !is_digit(s[i + 4])
}

/// Whether a year before the first intake year stands in a text at an index.
pub open spec fn past_year_at(s: Seq<char>, i: int) -> bool {
    year_at(s, i) && FIRST_YEAR <= digits_value(s.subrange(i, i + 4)) < FIRST_INTAKE_YEAR
}

/// Whether a text names a year before the first intake year.
pub open spec fn is_past(s: Seq<char>) -> bool {
    exists|i: int| past_year_at(s, i)
}

/// Whether a number that is taken for a year stands in a text at an index.
pub open spec fn named_year_at(s: Seq<char>, i: int) -> bool {
    year_at(s, i) && digits_value(s.subrange(i, i + 4)) >= FIRST_YEAR
}

/// The first index, at or after `i`, at which a year stands; the length if there is
/// none.
pub open spec fn next_year(s: Seq<char>, i: int) -> int
    decreases s.len() - i,
{
    if 0 <= i < s.len() && !named_year_at(s, i) {
        next_year(s, i + 1)
    } else {
        i
    }
}

/// Where a year that stands at an index ends, together with the second half of an
/// academic year such as "2025-26" or "2025/26".
pub open spec fn year_end(s: Seq<char>, i: int) -> int {
    if i + 7 <= s.len() && (s[i + 4] == '-' || s[i + 4] == '/') && is_digit(s[i + 5]) && is_digit(
        s[i + 6],
    ) && !(i + 7 < s.len() && is_digit(s[i + 7])) {
        i + 7
    } else {
        i + 4
    }
}

/// The index found is that of the first year.
pub proof fn lemma_next_year(s: Seq<char>, i: int)
    requires
        0 <= i <= s.len(),
    ensures
        i <= next_year(s, i) <= s.len(),
        next_year(s, i) < s.len() ==> named_year_at(s, next_year(s, i)),
    decreases s.len() - i,
{
    if i < s.len() && !named_year_at(s, i) {
        lemma_next_year(s, i + 1);
    }
}

/// The intakes that a text names from an index on: each up to the end of its year, the
/// last one with all that follows.
pub open spec fn divided_from(s: Seq<char>, i: int) -> Seq<Seq<char>>
    decreases s.len() - i,
{
    if i < 0 || i > s.len() {
        Seq::empty()
    } else {
        proof {
            lemma_next_year(s, i);
        }
        let end = year_end(s, next_year(s, i));
        if next_year(s, i) < s.len() && next_year(s, end) < s.len() {
            seq![s.subrange(i, end)] + divided_from(s, end)
        } else {
            seq![s.skip(i)]
        }
    }
}

/// Whether a character is a mark that stands between intakes.
pub open spec fn is_mark(c: char) -> bool {
    is_space(c) || c == ';' || c == '&' || c == '/' || c == '-' || c == '\u{2013}' || c == '|' || c
        == '+' || c == '(' || c == ')'
}

/// A text without the marks at its start.
pub open spec fn without_marks(s: Seq<char>) -> Seq<char>
    decreases s.len(),
{
    if s.len() > 0 && is_mark(s[0]) {
        without_marks(s.drop_first())
    } else {
        s
    }
}

/// A text without the word at its start that links it to another intake.
pub open spec fn without_link(s: Seq<char>) -> Seq<char> {
    let t = without_marks(s);
    if word_at(folded(t), "and"@, 0) {
        without_marks(t.skip(3))
    } else if word_at(folded(t), "or"@, 0) {
        without_marks(t.skip(2))
    } else {
        t
    }
}

/// Several intakes, each without what links it to the one before it.
pub open spec fn unlinked(list: Seq<Seq<char>>) -> Seq<Seq<char>> {
    list.map_values(|t: Seq<char>| seq![' '] + without_link(t))
}

/// The intakes of an entry of a list. An entry that names a past year is divided into
/// the intakes that it names.
pub open spec fn intakes_of(entry: Seq<char>) -> Seq<Seq<char>> {
    if is_past(entry) {
        unlinked(divided_from(entry, 0))
    } else {
        seq![entry]
    }
}

/// The intakes of several entries.
pub open spec fn all_intakes(entries: Seq<Seq<char>>) -> Seq<Seq<char>>
    decreases entries.len(),
{
    if entries.len() == 0 {
        Seq::empty()
    } else {
        all_intakes(entries.drop_last()) + intakes_of(entries.last())
    }
}

/// The ones among several intakes that name no past year.
pub open spec fn not_past(list: Seq<Seq<char>>) -> Seq<Seq<char>> {
    list.filter(|t: Seq<char>| !is_past(t))
}

/// A list of intakes, separated by commas, without the past ones.
pub open spec fn current_intakes(s: Seq<char>) -> Seq<char> {
    joined(not_past(all_intakes(split_at(s, Separator::Char(',')))), ","@)
}

/// Whether a text names a year before the first intake year.
pub fn names_past_year(s: &str) -> (result: bool)
    ensures
        result == is_past(s@),
{
    let chars: Vec<char> = chars_of(s);
    let n: usize = chars.len();
    let mut i: usize = 0;
    while i < n && n - i >= 4
        invariant
            chars@ == s@,
            n == s@.len(),
            i <= n,
            forall|j: int| 0 <= j < i ==> !past_year_at(s@, j),
        decreases n - i,
    {
        let alone: bool = !(i > 0 && digit(chars[i - 1])) && !(i + 4 < n && digit(chars[i + 4]));
        if alone {
            match parse_digits(&chars, i, i + 4, FIRST_INTAKE_YEAR - 1) {
                Some(year) => {
                    if year >= FIRST_YEAR {
                        assert(past_year_at(s@, i as int));
                        return true;
                    }
                },
                None => {},
            }
        }
        i += 1;
    }
    false
}

/// Whether a year stands at an index of a character list.
fn is_year_at(chars: &Vec<char>, i: usize) -> (result: bool)
    ensures
        result == named_year_at(chars@, i as int),
{
    let n: usize = chars.len();
    if i > n || n - i < 4 {
        return false;
    }
    if (i > 0 && digit(chars[i - 1])) || (n - i > 4 && digit(chars[i + 4])) {
        return false;
    }
    proof {
        if all_digits(chars@.subrange(i as int, i + 4)) {
            lemma_four_digits(chars@.subrange(i as int, i + 4));
        }
    }
    match parse_digits(chars, i, i + 4, 9999) {
        Some(year) => year >= FIRST_YEAR,
        None => false,
    }
}

/// Four digits spell a number below ten thousand.
proof fn lemma_four_digits(s: Seq<char>)
    requires
        s.len() == 4,
        all_digits(s),
    ensures
        digits_value(s) <= 9999,
{
    let a = s.drop_last();
    let b = a.drop_last();
    let c = b.drop_last();
    let d = c.drop_last();
    reveal_with_fuel(digits_value, 5);
    assert(digits_value(d) == 0);
    assert(is_digit(s[0]) && is_digit(s[1]) && is_digit(s[2]) && is_digit(s[3]));
    assert(s.last() == s[3] && a.last() == s[2] && b.last() == s[1] && c.last() == s[0]);
    assert(digits_value(c) <= 9);
    assert(digits_value(b) <= 99);
    assert(digits_value(a) <= 999);
}

/// Looks for a year in a character list, from an index on.
fn find_year(chars: &Vec<char>, from: usize) -> (result: usize)
    requires
        from <= chars@.len(),
    ensures
        from <= result <= chars@.len(),
        result == next_year(chars@, from as int),
        result < chars@.len() ==> named_year_at(chars@, result as int),
{
    let mut i: usize = from;
    while i < chars.len() && !is_year_at(chars, i)
        invariant
            from <= i <= chars@.len(),
            next_year(chars@, from as int) == next_year(chars@, i as int),
        decreases chars@.len() - i,
    {
        i += 1;
    }
    i
}

/// Where a year that stands at an index ends.
fn end_of_year(chars: &Vec<char>, i: usize) -> (result: usize)
    requires
        named_year_at(chars@, i as int),
    ensures
        i < result <= chars@.len(),
        result == year_end(chars@, i as int),
{
    let n: usize = chars.len();
    if n - i >= 7 && (chars[i + 4] == '-' || chars[i + 4] == '/') && digit(chars[i + 5]) && digit(
        chars[i + 6],
    ) && !(n - i > 7 && digit(chars[i + 7])) {
        i + 7
    } else {
        i + 4
    }
}

/// Removes the marks at the start of a text.
fn strip_marks(s: &str) -> (result: String)
    ensures
        result@ == without_marks(s@),
{
    let chars: Vec<char> = chars_of(s);
    let n: usize = chars.len();
    let mut lo: usize = 0;
    assert(s@.subrange(0, n as int) =~= s@);
    while lo < n && mark(chars[lo])
        invariant
            chars@ == s@,
            n == s@.len(),
            lo <= n,
            without_marks(s@) == without_marks(s@.subrange(lo as int, n as int)),
        decreases n - lo,
    {
        assert(s@.subrange(lo as int, n as int).drop_first() =~= s@.subrange(lo + 1, n as int));
        lo += 1;
    }
    string_between(&chars, lo, n)
}

/// Whether a character is a mark that stands between intakes.
fn mark(c: char) -> (result: bool)
    ensures
        result == is_mark(c),
{
    is_white_space(c) || c == ';' || c == '&' || c == '/' || c == '-' || c == '\u{2013}' || c == '|'
        || c == '+' || c == '(' || c == ')'
}

/// Removes what links an intake to the one before it.
pub fn strip_link(s: &str) -> (result: String)
    ensures
        result@ == without_link(s@),
{
    let t: String = strip_marks(s);
    let chars: Vec<char> = chars_of(t.as_str());
    let n: usize = chars.len();
    let lowered: Vec<char> = fold(t.as_str());
    proof {
        reveal_strlit("and");
        reveal_strlit("or");
    }
    if word_matches_at(&lowered, &chars_of("and"), 0) {
        let rest: String = string_between(&chars, 3, n);
        assert(rest@ =~= t@.skip(3));
        strip_marks(rest.as_str())
    } else if word_matches_at(&lowered, &chars_of("or"), 0) {
        let rest: String = string_between(&chars, 2, n);
        assert(rest@ =~= t@.skip(2));
        strip_marks(rest.as_str())
    } else {
        t
    }
}

/// Adds an intake that is cut out of an entry to a list, unless it is past.
fn keep_part(kept: &mut Vec<String>, part: &str)
    ensures
        texts(final(kept)@) == texts(old(kept)@) + not_past(seq![seq![' '] + without_link(part@)]),
{
    let ghost done = texts(kept@);
    let mut intake: String = String::new();
    intake.push(' ');
    intake.append(strip_link(part).as_str());
    let ghost t = seq![' '] + without_link(part@);
    assert(intake@ =~= t);
    proof {
        reveal(Seq::filter);
        assert(seq![t].drop_last() =~= Seq::empty());
        assert(not_past(Seq::empty()) =~= Seq::empty());
    }
    if !names_past_year(intake.as_str()) {
        kept.push(intake);
        assert(texts(kept@) =~= done.push(t));
        assert(done.push(t) =~= done + not_past(seq![t]));
    } else {
        assert(done =~= done + not_past(seq![t]));
    }
}

/// The intakes of an entry that names a past year.
proof fn lemma_unlinked_cons(t: Seq<char>, list: Seq<Seq<char>>)
    ensures
        not_past(unlinked(seq![t] + list)) == not_past(seq![seq![' '] + without_link(t)])
            + not_past(unlinked(list)),
{
    assert(unlinked(seq![t] + list) =~= seq![seq![' '] + without_link(t)] + unlinked(list));
    Seq::filter_distributes_over_add(
        seq![seq![' '] + without_link(t)],
        unlinked(list),
        |t: Seq<char>| !is_past(t),
    );
}

/// Adds the intakes of an entry that names a past year to a list, but for the past ones.
fn keep_divided(kept: &mut Vec<String>, entry: &str)
    ensures
        texts(final(kept)@) == texts(old(kept)@) + not_past(unlinked(divided_from(entry@, 0))),
{
    let ghost start = texts(kept@);
    let chars: Vec<char> = chars_of(entry);
    let n: usize = chars.len();
    let ghost goal = start + not_past(unlinked(divided_from(entry@, 0)));
    let mut i: usize = 0;
    loop
        invariant
            chars@ == entry@,
            n == entry@.len(),
            i <= n,
            start == texts(old(kept)@),
            goal == start + not_past(unlinked(divided_from(entry@, 0))),
            texts(kept@) + not_past(unlinked(divided_from(entry@, i as int))) == goal,
        decreases n - i,
    {
        let ghost done = texts(kept@);
        let y: usize = find_year(&chars, i);
        if y < n {
            let end: usize = end_of_year(&chars, y);
            if find_year(&chars, end) < n {
                let part: String = string_between(&chars, i, end);
                keep_part(kept, part.as_str());
                proof {
                    let rest = divided_from(entry@, end as int);
                    lemma_unlinked_cons(part@, rest);
                    let now = not_past(seq![seq![' '] + without_link(part@)]);
                    assert((done + now) + not_past(unlinked(rest)) =~= done + (now + not_past(
                        unlinked(rest),
                    )));
                }
                i = end;
                continue;
            }
        }
        let part: String = string_between(&chars, i, n);
        assert(part@ =~= entry@.skip(i as int));
        keep_part(kept, part.as_str());
        proof {
            let none = Seq::<Seq<char>>::empty();
            lemma_unlinked_cons(part@, none);
            assert(seq![part@] + none =~= seq![part@]);
            assert(unlinked(none) =~= none);
            reveal(Seq::filter);
            assert(not_past(none) =~= none);
            let now = not_past(seq![seq![' '] + without_link(part@)]);
            assert(now + none =~= now);
        }
        return;
    }
}

/// Removes the intakes of past years from a list separated by commas.
pub fn keep_current_intakes(s: &str) -> (result: String)
    ensures
        result@ == current_intakes(s@),
{
    let list: Vec<String> = split(s, Separator::Char(','));
    let ghost all = texts(list@);
    let mut kept: Vec<String> = Vec::new();
    let mut i: usize = 0;
    proof {
        reveal(Seq::filter);
        assert(all.take(0) =~= Seq::empty());
        assert(all_intakes(all.take(0)) =~= Seq::empty());
        assert(texts(kept@) =~= not_past(all_intakes(all.take(0))));
    }
    while i < list.len()
        invariant
            i <= list@.len(),
            all == texts(list@),
            texts(kept@) == not_past(all_intakes(all.take(i as int))),
        decreases list@.len() - i,
    {
        let ghost done = texts(kept@);
        let ghost entry = all[i as int];
        proof {
            assert(all.take(i + 1).drop_last() =~= all.take(i as int));
            assert(all.take(i + 1).last() == entry);
            Seq::filter_distributes_over_add(
                all_intakes(all.take(i as int)),
                intakes_of(entry),
                |t: Seq<char>| !is_past(t),
            );
        }
        if names_past_year(list[i].as_str()) {
            keep_divided(&mut kept, list[i].as_str());
        } else {
            kept.push(list[i].clone());
            proof {
                reveal(Seq::filter);
                assert(texts(kept@) =~= done.push(entry));
                assert(seq![entry].drop_last() =~= Seq::empty());
                assert(not_past(seq![entry]) =~= seq![entry]);
                assert(done.push(entry) =~= done + not_past(intakes_of(entry)));
            }
        }
        i += 1;
    }
    assert(all.take(i as int) =~= all);
    join(&kept, ",")
}

/// A past year in two texts with a character between them that is no digit stands in
/// one of them.
proof fn lemma_past_in_parts(a: Seq<char>, c: char, b: Seq<char>)
    requires
        !is_past(a),
        !is_past(b),
        !is_digit(c),
    ensures
        !is_past(a + seq![c] + b),
{
    let s = a + seq![c] + b;
    let n = a.len() as int;
    if is_past(s) {
        let i = choose|i: int| past_year_at(s, i);
        let year = s.subrange(i, i + 4);
        assert(s[n] == c);
        assert forall|j: int| 0 <= j < 4 implies is_digit(#[trigger] s[i + j]) by {
            assert(year[j] == s[i + j]);
            assert(is_digit(year[j]));
        }
        assert(i + 4 <= n || i > n) by {
            if i <= n < i + 4 {
                assert(is_digit(s[i + (n - i)]));
            }
        }
        if i + 4 <= n {
            assert(a.subrange(i, i + 4) =~= year);
            assert(i > 0 ==> a[i - 1] == s[i - 1]);
            assert(i + 4 < n ==> a[i + 4] == s[i + 4]);
            assert(past_year_at(a, i));
        } else {
            let k = i - n - 1;
            assert(b.subrange(k, k + 4) =~= year);
            assert(k > 0 ==> b[k - 1] == s[i - 1]);
            assert(k + 4 < b.len() ==> b[k + 4] == s[i + 4]);
            assert(past_year_at(b, k));
        }
    }
}

/// Texts that name no past year name none when they are joined with a character that is
/// no digit.
proof fn lemma_past_in_joined(list: Seq<Seq<char>>, c: char)
    requires
        forall|i: int| 0 <= i < list.len() ==> !is_past(#[trigger] list[i]),
        !is_digit(c),
    ensures
        !is_past(joined(list, seq![c])),
    decreases list.len(),
{
    if list.len() == 0 {
        assert forall|i: int| !past_year_at(joined(list, seq![c]), i) by {}
    } else {
        assert(!is_past(list[list.len() - 1]));
        if list.len() > 1 {
            let front = list.drop_last();
            assert forall|i: int| 0 <= i < front.len() implies !is_past(#[trigger] front[i]) by {
                assert(!is_past(list[i]));
            }
            lemma_past_in_joined(front, c);
            lemma_past_in_parts(joined(front, seq![c]), c, list.last());
        }
    }
}

/// Removing white space at the start adds no past year.
proof fn lemma_past_trim_start(s: Seq<char>)
    requires
        !is_past(s),
    ensures
        !is_past(trim_start(s)),
    decreases s.len(),
{
    if s.len() > 0 && is_space(s[0]) {
        let t = s.drop_first();
        if is_past(t) {
            let i = choose|i: int| past_year_at(t, i);
            assert(s.subrange(i + 1, i + 5) =~= t.subrange(i, i + 4));
            assert(i > 0 ==> s[i] == t[i - 1]);
            assert(i + 4 < t.len() ==> s[i + 5] == t[i + 4]);
            assert(past_year_at(s, i + 1));
        }
        lemma_past_trim_start(t);
    }
}

/// Removing white space at the end adds no past year.
proof fn lemma_past_trim_end(s: Seq<char>)
    requires
        !is_past(s),
    ensures
        !is_past(trim_end(s)),
    decreases s.len(),
{
    if s.len() > 0 && is_space(s.last()) {
        let t = s.drop_last();
        if is_past(t) {
            let i = choose|i: int| past_year_at(t, i);
            assert(s.subrange(i, i + 4) =~= t.subrange(i, i + 4));
            assert(i > 0 ==> s[i - 1] == t[i - 1]);
            assert(i + 4 < t.len() ==> s[i + 4] == t[i + 4]);
            assert(past_year_at(s, i));
        }
        lemma_past_trim_end(t);
    }
}

/// Trimming a text that names no past year adds none.
proof fn lemma_past_trimmed(s: Seq<char>)
    requires
        !is_past(s),
    ensures
        !is_past(trimmed(s)),
{
    lemma_past_trim_start(s);
    lemma_past_trim_end(trim_start(s));
}

/// The sentences of a text that names no past year name none.
proof fn lemma_past_sentences(s: Seq<char>, i: int, k: int)
    requires
        !is_past(s),
        0 <= i <= s.len(),
        i > 0 ==> s[i - 1] == '.',
        0 <= k < sentences_from(s, i).len(),
    ensures
        !is_past(sentences_from(s, i)[k]),
    decreases s.len() - i,
{
    lemma_sentence_end(s, i);
    let end = sentence_end(s, i);
    if k == 0 {
        let t = s.subrange(i, end);
        assert(sentences_from(s, i)[0] == t);
        if is_past(t) {
            let j = choose|j: int| past_year_at(t, j);
            assert(s.subrange(i + j, i + j + 4) =~= t.subrange(j, j + 4));
            assert(j > 0 ==> s[i + j - 1] == t[j - 1]);
            assert(j + 4 < t.len() ==> s[i + j + 4] == t[j + 4]);
            assert(past_year_at(s, i + j));
        }
    } else {
        assert(sentences_from(s, i)[k] == sentences_from(s, end + 1)[k - 1]);
        lemma_past_sentences(s, end + 1, k - 1);
    }
}

/// Only the intakes of 2025 and later years are listed: what is left of a list names
/// no past year, also once its sentences on English tests are left out and it is trimmed.
pub proof fn law_no_past_intakes(s: Seq<char>)
    ensures
        !is_past(current_intakes(s)),
        !is_past(trimmed(english_free(current_intakes(s)))),
{
    let pieces = all_intakes(split_at(s, Separator::Char(',')));
    let kept = not_past(pieces);
    assert forall|i: int| 0 <= i < kept.len() implies !is_past(#[trigger] kept[i]) by {
        pieces.lemma_filter_pred(|t: Seq<char>| !is_past(t), i);
    }
    reveal_strlit(",");
    assert(","@ =~= seq![',']);
    lemma_past_in_joined(kept, ',');
    let left = current_intakes(s);
    let list = sentences_from(left, 0);
    let free = without_scores(list);
    assert forall|i: int| 0 <= i < free.len() implies !is_past(#[trigger] free[i]) by {
        assert(free.contains(free[i]));
        list.lemma_filter_contains_rev(|t: Seq<char>| !holds_english_score(t), free[i]);
        let k = choose|k: int| 0 <= k < list.len() && list[k] == free[i];
        lemma_past_sentences(left, 0, k);
    }
    reveal_strlit(".");
    assert("."@ =~= seq!['.']);
    lemma_past_in_joined(free, '.');
    lemma_past_trimmed(joined(free, "."@));
    lemma_past_trimmed(english_free(left));
}

/// Intakes that name no past year are kept as they are.
pub proof fn law_current_intakes_kept(s: Seq<char>)
    requires
        forall|i: int|
            0 <= i < split_at(s, Separator::Char(',')).len() ==> !is_past(
                #[trigger] split_at(s, Separator::Char(','))[i],
            ),
    ensures
        current_intakes(s) == s,
{
    let pieces = split_at(s, Separator::Char(','));
    lemma_entries_kept(pieces);
    lemma_none_past(pieces);
    reveal_strlit(",");
    assert(","@ =~= seq![',']);
    law_join_split(s, ',');
}

/// Entries that name no past year are intakes as they are.
proof fn lemma_entries_kept(entries: Seq<Seq<char>>)
    requires
        forall|i: int| 0 <= i < entries.len() ==> !is_past(#[trigger] entries[i]),
    ensures
        all_intakes(entries) == entries,
    decreases entries.len(),
{
    if entries.len() > 0 {
        let front = entries.drop_last();
        assert forall|i: int| 0 <= i < front.len() implies !is_past(#[trigger] front[i]) by {
            assert(!is_past(entries[i]));
        }
        lemma_entries_kept(front);
        assert(!is_past(entries[entries.len() - 1]));
        assert(front + seq![entries.last()] =~= entries);
    } else {
        assert(all_intakes(entries) =~= entries);
    }
}

/// Texts that name no past year are all kept.
proof fn lemma_none_past(list: Seq<Seq<char>>)
    requires
        forall|i: int| 0 <= i < list.len() ==> !is_past(#[trigger] list[i]),
    ensures
        not_past(list) == list,
    decreases list.len(),
{
    reveal(Seq::filter);
    if list.len() > 0 {
        let front = list.drop_last();
        assert forall|i: int| 0 <= i < front.len() implies !is_past(#[trigger] front[i]) by {
            assert(!is_past(list[i]));
        }
        lemma_none_past(front);
        assert(!is_past(list[list.len() - 1]));
        assert(front.push(list.last()) =~= list);
    } else {
        assert(not_past(list) =~= list);
    }
}

} // verus!
