//! What holds of the intakes that are kept.

use vstd::prelude::*;

use crate::intakes::{
    all_intakes, current_intakes, divided_from, intakes_of, is_mark, is_past, named_year_at,
    law_no_past_intakes, lemma_next_year, next_year, not_past, past_year_at, unlinked, without_link,
    without_marks, year_end,
    FIRST_INTAKE_YEAR,
};
use crate::number::{all_digits, digits_value};
use crate::scores::word_at;
use crate::text::{includes, joined, occurs_at, split_at, Separator};
use crate::text_laws::law_join_split;
use crate::unicode::{folded, is_digit, is_letter};

verus! {

/// Whether a text names the year that four digits spell.
pub open spec fn names_year(s: Seq<char>, year: Seq<char>) -> bool {
    exists|i: int| #[trigger] named_year_at(s, i) && s.subrange(i, i + 4) == year
}

/// The four characters of a year are digits.
proof fn lemma_year_digits(s: Seq<char>, i: int)
    requires
        named_year_at(s, i),
    ensures
        is_digit(s[i]),
        is_digit(s[i + 1]),
        is_digit(s[i + 2]),
        is_digit(s[i + 3]),
{
    let t = s.subrange(i, i + 4);
    assert(is_digit(t[0]) && is_digit(t[1]) && is_digit(t[2]) && is_digit(t[3]));
}

/// A year that stands in a part of a text, with no digit next to the part, stands in the
/// text, and the other way round.
proof fn lemma_year_in_part(s: Seq<char>, lo: int, hi: int, i: int)
    requires
        0 <= lo <= hi <= s.len(),
        lo == 0 || !is_digit(s[lo - 1]) || lo == s.len() || !is_digit(s[lo]),
        hi == s.len() || !is_digit(s[hi]),
        0 <= i,
        lo + i + 4 <= hi,
    ensures
        named_year_at(s.subrange(lo, hi), i) == named_year_at(s, lo + i),
        s.subrange(lo, hi).subrange(i, i + 4) == s.subrange(lo + i, lo + i + 4),
{
    let t = s.subrange(lo, hi);
    assert(t.subrange(i, i + 4) =~= s.subrange(lo + i, lo + i + 4));
    assert(i > 0 ==> t[i - 1] == s[lo + i - 1]);
    assert(i + 4 < t.len() ==> t[i + 4] == s[lo + i + 4]);
    if named_year_at(t, i) {
        lemma_year_digits(t, i);
        assert(t[i] == s[lo + i]);
    }
    if named_year_at(s, lo + i) {
        lemma_year_digits(s, lo + i);
    }
}

/// A text that is put behind another one, with a character between them that is no digit,
/// keeps the years of both.
proof fn lemma_year_of_parts(a: Seq<char>, c: char, b: Seq<char>, year: Seq<char>)
    requires
        !is_digit(c),
    ensures
        names_year(a + seq![c] + b, year) == (names_year(a, year) || names_year(b, year)),
{
    let s = a + seq![c] + b;
    let n = a.len() as int;
    assert(s[n] == c);
    assert(s.subrange(0, n) =~= a);
    assert(s.subrange(n + 1, s.len() as int) =~= b);
    if names_year(a, year) {
        let i = choose|i: int| #[trigger] named_year_at(a, i) && a.subrange(i, i + 4) == year;
        lemma_year_in_part(s, 0, n, i);
        assert(named_year_at(s, i));
    }
    if names_year(b, year) {
        let i = choose|i: int| #[trigger] named_year_at(b, i) && b.subrange(i, i + 4) == year;
        lemma_year_in_part(s, n + 1, s.len() as int, i);
        assert(named_year_at(s, n + 1 + i));
    }
    if names_year(s, year) {
        let i = choose|i: int| #[trigger] named_year_at(s, i) && s.subrange(i, i + 4) == year;
        lemma_year_digits(s, i);
        if i + 4 <= n {
            lemma_year_in_part(s, 0, n, i);
            assert(named_year_at(a, i));
        } else {
            assert(i > n);
            lemma_year_in_part(s, n + 1, s.len() as int, i - n - 1);
            assert(named_year_at(b, i - n - 1));
        }
    }
}

/// A year that joined texts name is named by one of them.
proof fn lemma_year_from_joined(list: Seq<Seq<char>>, c: char, year: Seq<char>) -> (k: int)
    requires
        !is_digit(c),
        names_year(joined(list, seq![c]), year),
    ensures
        0 <= k < list.len(),
        names_year(list[k], year),
    decreases list.len(),
{
    if list.len() == 0 {
        let i = choose|i: int| #[trigger] named_year_at(joined(list, seq![c]), i);
        0
    } else if list.len() == 1 {
        0
    } else {
        let front = list.drop_last();
        lemma_year_of_parts(joined(front, seq![c]), c, list.last(), year);
        if names_year(list.last(), year) {
            list.len() - 1
        } else {
            lemma_year_from_joined(front, c, year)
        }
    }
}

/// A year that one of several texts names is named when they are joined.
proof fn lemma_year_in_joined(list: Seq<Seq<char>>, c: char, year: Seq<char>, k: int)
    requires
        !is_digit(c),
        0 <= k < list.len(),
        names_year(list[k], year),
    ensures
        names_year(joined(list, seq![c]), year),
    decreases list.len(),
{
    if list.len() > 1 {
        let front = list.drop_last();
        lemma_year_of_parts(joined(front, seq![c]), c, list.last(), year);
        if k < front.len() {
            lemma_year_in_joined(front, c, year, k);
        }
    }
}

/// No year stands before the first one that is found.
proof fn lemma_no_year_before(s: Seq<char>, i: int, j: int)
    requires
        0 <= i <= j < next_year(s, i),
    ensures
        !named_year_at(s, j),
    decreases j - i,
{
    if i < j {
        lemma_no_year_before(s, i + 1, j);
    }
}

/// The first year found does not come after any year.
proof fn lemma_next_year_least(s: Seq<char>, i: int, p: int)
    requires
        0 <= i <= p,
        named_year_at(s, p),
    ensures
        i <= next_year(s, i) <= p,
        named_year_at(s, next_year(s, i)),
    decreases p - i,
{
    if i < p && !named_year_at(s, i) {
        lemma_next_year_least(s, i + 1, p);
    }
}

/// Two years do not overlap, and none stands in the second half of an academic year.
proof fn lemma_years_apart(s: Seq<char>, y: int, p: int)
    requires
        named_year_at(s, y),
        named_year_at(s, p),
        y < p,
    ensures
        year_end(s, y) <= p,
{
    lemma_year_digits(s, y);
    lemma_year_digits(s, p);
}

/// Where a part of an entry that ends with a year ends, no digit follows.
proof fn lemma_after_year(s: Seq<char>, y: int)
    requires
        named_year_at(s, y),
    ensures
        y + 4 <= year_end(s, y) <= s.len(),
        year_end(s, y) < s.len() ==> !is_digit(s[year_end(s, y)]),
{
}

/// A part of an entry whose only year is a current one is not past.
proof fn lemma_part_not_past(s: Seq<char>, lo: int, hi: int, y: int)
    requires
        0 <= lo <= y,
        hi <= s.len(),
        lo == 0 || lo == s.len() || !is_digit(s[lo]),
        hi == s.len() || !is_digit(s[hi]),
        named_year_at(s, y),
        year_end(s, y) <= hi,
        digits_value(s.subrange(y, y + 4)) >= FIRST_INTAKE_YEAR,
        forall|p: int| lo <= p && p + 4 <= hi && #[trigger] named_year_at(s, p) ==> p == y,
    ensures
        !is_past(s.subrange(lo, hi)),
{
    let t = s.subrange(lo, hi);
    if is_past(t) {
        let q = choose|q: int| past_year_at(t, q);
        lemma_year_in_part(s, lo, hi, q);
        assert(named_year_at(t, q));
        assert(named_year_at(s, lo + q));
    }
}

/// Each current year of an entry is named by one of the intakes that it is divided into,
/// and that one is not past.
proof fn lemma_current_part(s: Seq<char>, i: int, p: int) -> (k: int)
    requires
        0 <= i <= p,
        i == 0 || i == s.len() || !is_digit(s[i]),
        named_year_at(s, p),
        digits_value(s.subrange(p, p + 4)) >= FIRST_INTAKE_YEAR,
    ensures
        0 <= k < divided_from(s, i).len(),
        names_year(divided_from(s, i)[k], s.subrange(p, p + 4)),
        !is_past(divided_from(s, i)[k]),
    decreases s.len() - i,
{
    lemma_next_year_least(s, i, p);
    let y = next_year(s, i);
    let end = year_end(s, y);
    lemma_after_year(s, y);
    let n = s.len() as int;
    if y < p {
        lemma_years_apart(s, y, p);
        lemma_next_year_least(s, end, p);
        let rest = divided_from(s, end);
        let all = divided_from(s, i);
        assert(all == seq![s.subrange(i, end)] + rest);
        let k = lemma_current_part(s, end, p);
        assert(all[k + 1] == rest[k]);
        k + 1
    } else {
        let last = !(next_year(s, end) < n);
        let hi = if last {
            n
        } else {
            end
        };
        let part = s.subrange(i, hi);
        assert(s.skip(i) =~= s.subrange(i, n));
        assert(divided_from(s, i)[0] == part);
        lemma_year_in_part(s, i, hi, y - i);
        assert(named_year_at(part, y - i));
        assert forall|q: int| i <= q && q + 4 <= hi && #[trigger] named_year_at(s, q) implies q
            == y by {
            if q < y {
                lemma_no_year_before(s, i, q);
            } else if q > y {
                lemma_years_apart(s, y, q);
                if last {
                    lemma_next_year_least(s, end, q);
                }
            }
        }
        lemma_part_not_past(s, i, hi, y);
        0
    }
}

/// Dropping a character at the start that is no digit keeps the years.
proof fn lemma_drop_keeps_years(s: Seq<char>, year: Seq<char>)
    requires
        s.len() > 0,
        !is_digit(s[0]),
    ensures
        names_year(s, year) ==> names_year(s.drop_first(), year),
        !is_past(s) ==> !is_past(s.drop_first()),
        !is_past(s.drop_first()) ==> !is_past(s),
        names_year(s.drop_first(), year) ==> names_year(s, year),
{
    let t = s.drop_first();
    let n = s.len() as int;
    assert(t =~= s.subrange(1, n));
    if names_year(s, year) {
        let i = choose|i: int| #[trigger] named_year_at(s, i) && s.subrange(i, i + 4) == year;
        lemma_year_digits(s, i);
        lemma_year_in_part(s, 1, n, i - 1);
        assert(named_year_at(t, i - 1));
    }
    if names_year(t, year) {
        let i = choose|i: int| #[trigger] named_year_at(t, i) && t.subrange(i, i + 4) == year;
        lemma_year_in_part(s, 1, n, i);
        assert(named_year_at(s, i + 1));
    }
    if is_past(t) {
        let i = choose|i: int| past_year_at(t, i);
        lemma_year_in_part(s, 1, n, i);
        assert(named_year_at(t, i));
        assert(past_year_at(s, i + 1));
    }
    if is_past(s) {
        let i = choose|i: int| past_year_at(s, i);
        assert(named_year_at(s, i));
        lemma_year_digits(s, i);
        lemma_year_in_part(s, 1, n, i - 1);
        assert(past_year_at(t, i - 1));
    }
}

/// Removing the marks at the start keeps the years.
proof fn lemma_marks_keep_years(s: Seq<char>, year: Seq<char>)
    requires
        names_year(s, year),
    ensures
        names_year(without_marks(s), year),
        !is_past(s) ==> !is_past(without_marks(s)),
    decreases s.len(),
{
    if s.len() > 0 && is_mark(s[0]) {
        lemma_drop_keeps_years(s, year);
        lemma_marks_keep_years(s.drop_first(), year);
    }
}

/// Dropping letters at the start keeps the years.
proof fn lemma_skip_keeps_years(s: Seq<char>, n: int, year: Seq<char>)
    requires
        names_year(s, year),
        0 <= n <= s.len(),
        forall|j: int| 0 <= j < n ==> !is_digit(#[trigger] s[j]),
    ensures
        names_year(s.skip(n), year),
        !is_past(s) ==> !is_past(s.skip(n)),
    decreases n,
{
    if n == 0 {
        assert(s.skip(0) =~= s);
    } else {
        lemma_skip_keeps_years(s, n - 1, year);
        let t = s.skip(n - 1);
        assert(t[0] == s[n - 1]);
        lemma_drop_keeps_years(t, year);
        assert(t.drop_first() =~= s.skip(n));
    }
}

/// A word at the start of a text is made of its characters, none of which is a digit.
proof fn lemma_word_no_digit(t: Seq<char>, word: Seq<char>, j: int)
    requires
        word_at(folded(t), word, 0),
        0 <= j < word.len(),
        is_letter(word[j]),
    ensures
        !is_digit(t[j]),
{
    assert(folded(t).subrange(0, word.len() as int)[j] == word[j]);
    assert(folded(t)[j] == word[j]);
}

/// Removing what links an intake to the one before it keeps the years.
proof fn lemma_link_keeps_years(s: Seq<char>, year: Seq<char>)
    requires
        names_year(s, year),
    ensures
        names_year(seq![' '] + without_link(s), year),
        !is_past(s) ==> !is_past(seq![' '] + without_link(s)),
{
    reveal_strlit("and");
    reveal_strlit("or");
    let t = without_marks(s);
    lemma_marks_keep_years(s, year);
    if word_at(folded(t), "and"@, 0) {
        lemma_word_no_digit(t, "and"@, 0);
        lemma_word_no_digit(t, "and"@, 1);
        lemma_word_no_digit(t, "and"@, 2);
        lemma_skip_keeps_years(t, 3, year);
        lemma_marks_keep_years(t.skip(3), year);
    } else if word_at(folded(t), "or"@, 0) {
        lemma_word_no_digit(t, "or"@, 0);
        lemma_word_no_digit(t, "or"@, 1);
        lemma_skip_keeps_years(t, 2, year);
        lemma_marks_keep_years(t.skip(2), year);
    }
    let u = seq![' '] + without_link(s);
    assert(u.drop_first() =~= without_link(s));
    lemma_drop_keeps_years(u, year);
}

/// The intakes of an entry are among those of all entries.
proof fn lemma_intakes_among(entries: Seq<Seq<char>>, k: int, t: Seq<char>)
    requires
        0 <= k < entries.len(),
        intakes_of(entries[k]).contains(t),
    ensures
        all_intakes(entries).contains(t),
    decreases entries.len(),
{
    let front = entries.drop_last();
    let a = all_intakes(front);
    let b = intakes_of(entries.last());
    let all = all_intakes(entries);
    if k < front.len() {
        lemma_intakes_among(front, k, t);
        let j = choose|j: int| 0 <= j < a.len() && a[j] == t;
        assert(all[j] == t);
    } else {
        let j = choose|j: int| 0 <= j < b.len() && b[j] == t;
        assert(all[a.len() + j] == t);
    }
}

/// No intake to come is lost: every year from 2025 on that a list of intakes names is
/// still named once the past intakes are left out.
pub proof fn law_current_years_kept(s: Seq<char>, i: int)
    requires
        named_year_at(s, i),
        digits_value(s.subrange(i, i + 4)) >= FIRST_INTAKE_YEAR,
    ensures
        names_year(current_intakes(s), s.subrange(i, i + 4)),
{
    let year = s.subrange(i, i + 4);
    let entries = split_at(s, Separator::Char(','));
    law_join_split(s, ',');
    assert(names_year(s, year));
    let k = lemma_year_from_joined(entries, ',', year);
    let entry = entries[k];
    let p = choose|p: int| #[trigger] named_year_at(entry, p) && entry.subrange(p, p + 4) == year;
    let t = if is_past(entry) {
        let m = lemma_current_part(entry, 0, p);
        let part = divided_from(entry, 0)[m];
        lemma_link_keeps_years(part, year);
        let t = seq![' '] + without_link(part);
        assert(unlinked(divided_from(entry, 0))[m] == t);
        t
    } else {
        assert(intakes_of(entry)[0] == entry);
        entry
    };
    assert(intakes_of(entry).contains(t));
    lemma_intakes_among(entries, k, t);
    let all = all_intakes(entries);
    let j = choose|j: int| 0 <= j < all.len() && all[j] == t;
    all.lemma_filter_contains(|t: Seq<char>| !is_past(t), j);
    let kept = not_past(all);
    assert(kept.contains(t));
    let n = choose|n: int| 0 <= n < kept.len() && kept[n] == t;
    reveal_strlit(",");
    assert(","@ =~= seq![',']);
    lemma_year_in_joined(kept, ',', year, n);
}

/// Whether four digits that spell a year stand in a text at an index, with no digit next to
/// them.
pub open spec fn year_stands(s: Seq<char>, i: int, year: nat) -> bool {
    &&& 0 <= i
    &&& i + 4 <= s.len()
    &&& all_digits(s.subrange(i, i + 4))
    &&& i > 0 ==> !is_digit(s[i - 1])
    &&& i + 4 < s.len() ==> !is_digit(s[i + 4])
    &&& digits_value(s.subrange(i, i + 4)) == year
}

/// Whether a text names no year before 2025, other numbers of four digits left aside.
pub open spec fn names_no_past_year(s: Seq<char>) -> bool {
    forall|i: int, year: nat| #[trigger] year_stands(s, i, year) ==> year < 1900 || year >= 2025
}

/// A text is past exactly where it names a year before 2025.
proof fn lemma_no_past_year(s: Seq<char>)
    ensures
        names_no_past_year(s) == !is_past(s),
{
    if is_past(s) {
        let i = choose|i: int| past_year_at(s, i);
        assert(year_stands(s, i, digits_value(s.subrange(i, i + 4))));
    }
    if !is_past(s) {
        assert forall|i: int, year: nat| #[trigger] year_stands(s, i, year) implies year < 1900
            || year >= 2025 by {
            assert(!past_year_at(s, i));
        }
    }
}

/// No year before 2025 is listed.
pub proof fn law_no_year_before_2025(s: Seq<char>)
    ensures
        names_no_past_year(current_intakes(s)),
{
    law_no_past_intakes(s);
    lemma_no_past_year(current_intakes(s));
}

/// Every year from 2025 on stays listed.
pub proof fn law_years_from_2025_stay(s: Seq<char>, i: int, year: nat)
    requires
        year_stands(s, i, year),
        year >= 2025,
    ensures
        exists|j: int| #[trigger] year_stands(current_intakes(s), j, year),
{
    let digits = s.subrange(i, i + 4);
    law_current_years_kept(s, i);
    let left = current_intakes(s);
    let j = choose|j: int| #[trigger] named_year_at(left, j) && left.subrange(j, j + 4) == digits;
    assert(year_stands(left, j, year));
}

/// Texts that are joined are held by the whole.
proof fn lemma_joined_holds(list: Seq<Seq<char>>, sep: Seq<char>, k: int)
    requires
        0 <= k < list.len(),
    ensures
        includes(joined(list, sep), list[k]),
    decreases list.len(),
{
    let whole = joined(list, sep);
    if list.len() == 1 {
        assert(whole.subrange(0, whole.len() as int) =~= whole);
        assert(occurs_at(whole, list[k], 0));
    } else {
        let front = list.drop_last();
        let a = joined(front, sep);
        if k < front.len() {
            lemma_joined_holds(front, sep, k);
            let i = choose|i: int| occurs_at(a, list[k], i);
            assert(whole.subrange(i, i + list[k].len()) =~= a.subrange(i, i + list[k].len()));
            assert(occurs_at(whole, list[k], i));
        } else {
            let i = (a.len() + sep.len()) as int;
            assert(whole.subrange(i, i + list[k].len()) =~= list[k]);
            assert(occurs_at(whole, list[k], i));
        }
    }
}

/// An entry of the list that names no year before 2025 stays as it is.
pub proof fn law_current_entries_stay(s: Seq<char>, k: int)
    requires
        0 <= k < split_at(s, Separator::Char(',')).len(),
        names_no_past_year(split_at(s, Separator::Char(','))[k]),
    ensures
        includes(current_intakes(s), split_at(s, Separator::Char(','))[k]),
{
    let entries = split_at(s, Separator::Char(','));
    let entry = entries[k];
    lemma_no_past_year(entry);
    assert(intakes_of(entry)[0] == entry);
    lemma_intakes_among(entries, k, entry);
    let all = all_intakes(entries);
    let j = choose|j: int| 0 <= j < all.len() && all[j] == entry;
    all.lemma_filter_contains(|t: Seq<char>| !is_past(t), j);
    let kept = not_past(all);
    assert(kept.contains(entry));
    let n = choose|n: int| 0 <= n < kept.len() && kept[n] == entry;
    lemma_joined_holds(kept, ","@, n);
}

/// Whether a text names years before 2025 only, and at least one.
pub open spec fn names_past_years_only(s: Seq<char>) -> bool {
    &&& !names_no_past_year(s)
    &&& forall|i: int, year: nat| #[trigger] year_stands(s, i, year) ==> year < 2025
}

/// Each part of an entry that names past years only names a past year.
proof fn lemma_past_parts(s: Seq<char>, i: int, m: int)
    requires
        0 <= i <= s.len(),
        i == 0 || i == s.len() || !is_digit(s[i]),
        next_year(s, i) < s.len(),
        forall|p: int| #[trigger] named_year_at(s, p) ==> digits_value(s.subrange(p, p + 4)) < 2025,
        0 <= m < divided_from(s, i).len(),
    ensures
        exists|year: Seq<char>| #[trigger]
            names_year(divided_from(s, i)[m], year) && digits_value(year) < 2025,
    decreases s.len() - i,
{
    lemma_next_year(s, i);
    let y = next_year(s, i);
    let end = year_end(s, y);
    let year = s.subrange(y, y + 4);
    lemma_after_year(s, y);
    assert(named_year_at(s, y));
    if next_year(s, end) < s.len() {
        let part = s.subrange(i, end);
        if m == 0 {
            assert(divided_from(s, i)[0] == part);
            lemma_year_in_part(s, i, end, y - i);
            assert(named_year_at(part, y - i));
            assert(names_year(part, year));
        } else {
            assert(divided_from(s, i)[m] == divided_from(s, end)[m - 1]);
            lemma_past_parts(s, end, m - 1);
        }
    } else {
        let part = s.skip(i);
        assert(part =~= s.subrange(i, s.len() as int));
        assert(divided_from(s, i)[m] == part);
        lemma_year_in_part(s, i, s.len() as int, y - i);
        assert(named_year_at(part, y - i));
        assert(names_year(part, year));
    }
}

/// Every intake of an entry that names past years only is past.
proof fn lemma_past_intakes(entry: Seq<char>, m: int)
    requires
        names_past_years_only(entry),
        0 <= m < intakes_of(entry).len(),
    ensures
        is_past(intakes_of(entry)[m]),
{
    lemma_no_past_year(entry);
    let p = choose|p: int| past_year_at(entry, p);
    assert(named_year_at(entry, p));
    lemma_next_year_least(entry, 0, p);
    assert forall|q: int| #[trigger] named_year_at(entry, q) implies digits_value(
        entry.subrange(q, q + 4),
    ) < 2025 by {
        assert(year_stands(entry, q, digits_value(entry.subrange(q, q + 4))));
    }
    lemma_past_parts(entry, 0, m);
    let part = divided_from(entry, 0)[m];
    let year = choose|year: Seq<char>| #[trigger]
        names_year(part, year) && digits_value(year) < 2025;
    lemma_link_keeps_years(part, year);
    let t = intakes_of(entry)[m];
    assert(t == seq![' '] + without_link(part));
    let j = choose|j: int| #[trigger] named_year_at(t, j) && t.subrange(j, j + 4) == year;
    assert(past_year_at(t, j));
}

/// Every intake of entries that name past years only is past.
proof fn lemma_all_past(entries: Seq<Seq<char>>, m: int)
    requires
        forall|k: int| 0 <= k < entries.len() ==> names_past_years_only(#[trigger] entries[k]),
        0 <= m < all_intakes(entries).len(),
    ensures
        is_past(all_intakes(entries)[m]),
    decreases entries.len(),
{
    if entries.len() > 0 {
        let front = entries.drop_last();
        let a = all_intakes(front);
        assert(names_past_years_only(entries[entries.len() - 1]));
        if m < a.len() {
            assert forall|k: int| 0 <= k < front.len() implies names_past_years_only(
                #[trigger] front[k],
            ) by {
                assert(names_past_years_only(entries[k]));
            }
            lemma_all_past(front, m);
        } else {
            lemma_past_intakes(entries.last(), m - a.len());
        }
    }
}

/// Of a list all of whose entries name years before 2025 only, nothing is left.
pub proof fn law_past_lists_go(s: Seq<char>)
    requires
        forall|k: int|
            0 <= k < split_at(s, Separator::Char(',')).len() ==> names_past_years_only(
                #[trigger] split_at(s, Separator::Char(','))[k],
            ),
    ensures
        current_intakes(s).len() == 0,
{
    let entries = split_at(s, Separator::Char(','));
    let all = all_intakes(entries);
    let kept = not_past(all);
    if kept.len() > 0 {
        all.lemma_filter_pred(|t: Seq<char>| !is_past(t), 0);
        assert(kept.contains(kept[0]));
        all.lemma_filter_contains_rev(|t: Seq<char>| !is_past(t), kept[0]);
        let m = choose|m: int| 0 <= m < all.len() && all[m] == kept[0];
        lemma_all_past(entries, m);
    }
}

} // verus!
