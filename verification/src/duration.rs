//! ISO 8601 durations in words.

use vstd::prelude::*;

use crate::number::{
    all_digits, decimal, law_decimal_round_trip, number_of, parse_digits, to_decimal,
};
use crate::text::{
    before, chars_of, index_from, index_of, join, joined, string_between, text_before, texts,
};
use crate::text_laws::{law_before, law_before_append, lemma_index_from};
use crate::unicode::{is_digit, numeric, numeric_char};

verus! {

/// Where the run of numeric characters at the end of a text starts.
pub open spec fn numeric_tail(s: Seq<char>) -> int
    decreases s.len(),
{
    if s.len() > 0 && numeric_char(s.last()) {
        numeric_tail(s.drop_last())
    } else {
        s.len() as int
    }
}

/// The amount that stands before the first occurrence of a unit letter, where
/// the numeric characters before the letter are a number that fits 32 bits.
pub open spec fn unit_amount(s: Seq<char>, unit: char) -> Option<nat> {
    let k = index_from(s, unit, 0);
    if k < s.len() {
        let head = s.take(k);
        number_of(head.skip(numeric_tail(head)), u32::MAX as nat)
    } else {
        None
    }
}

/// An amount with its unit, in the plural unless the amount is one.
pub open spec fn amount_text(n: nat, label: Seq<char>) -> Seq<char> {
    decimal(n) + seq![' '] + label + if n != 1 {
        seq!['s']
    } else {
        Seq::empty()
    }
}

/// The part of a duration in one unit, as a list of at most one text.
pub open spec fn unit_part(s: Seq<char>, unit: char, label: Seq<char>) -> Seq<Seq<char>> {
    match unit_amount(s, unit) {
        Some(n) => seq![amount_text(n, label)],
        None => Seq::empty(),
    }
}

/// The parts of a duration in years, months, weeks and days. The letters behind a
/// `T` are those of hours, minutes and seconds.
pub open spec fn duration_parts(s: Seq<char>) -> Seq<Seq<char>> {
    let date = before(s, 'T');
    unit_part(date, 'Y', "year"@) + unit_part(date, 'M', "month"@) + unit_part(date, 'W', "week"@)
        + unit_part(date, 'D', "day"@)
}

/// An ISO 8601 duration in words. What is no duration stays as it is.
pub open spec fn duration_text(s: Seq<char>) -> Seq<char> {
    if s.len() > 0 && s[0] == 'P' && duration_parts(s.drop_first()).len() > 0 {
        joined(duration_parts(s.drop_first()), ", "@)
    } else {
        s
    }
}

/// Reads the amount before the first occurrence of a unit letter, from an index on.
fn read_amount(chars: &Vec<char>, unit: char) -> (result: Option<u64>)
    ensures
        match result {
            Some(n) => unit_amount(chars@, unit) == Some(n as nat),
            None => unit_amount(chars@, unit) is None,
        },
{
    let k: usize = index_of(chars, unit);
    if k == chars.len() {
        return None;
    }
    let ghost head = chars@.take(k as int);
    let mut lo: usize = k;
    assert(chars@.subrange(0, k as int) =~= head);
    while lo > 0 && numeric(chars[lo - 1])
        invariant
            lo <= k < chars@.len(),
            numeric_tail(head) == numeric_tail(chars@.subrange(0, lo as int)),
        decreases lo,
    {
        assert(chars@.subrange(0, lo as int).drop_last() =~= chars@.subrange(0, lo - 1));
        lo -= 1;
    }
    assert(chars@.subrange(lo as int, k as int) =~= head.skip(lo as int));
    parse_digits(chars, lo, k, u32::MAX as u64)
}

/// Adds the part of a duration in one unit to a list.
fn push_part(parts: &mut Vec<String>, chars: &Vec<char>, unit: char, label: &str)
    ensures
        texts(final(parts)@) == texts(old(parts)@) + unit_part(chars@, unit, label@),
{
    let ghost done = texts(parts@);
    match read_amount(chars, unit) {
        Some(n) => {
            let mut part: String = to_decimal(n);
            part.push(' ');
            part.append(label);
            if n != 1 {
                part.push('s');
            }
            assert(part@ =~= amount_text(n as nat, label@));
            parts.push(part);
            assert(texts(parts@) =~= done + unit_part(chars@, unit, label@));
        },
        None => {
            assert(texts(parts@) =~= done + unit_part(chars@, unit, label@));
        },
    }
}

/// Converts ISO 8601 duration strings to human-readable form.
/// e.g. "P3Y" becomes "3 years", "P1Y6M" becomes "1 year, 6 months".
/// What stands behind a `T`, the time of day, is left out.
pub fn parse_iso_duration(s: &str) -> (result: String)
    ensures
        result@ == duration_text(s@),
{
    let all: Vec<char> = chars_of(s);
    let n: usize = all.len();
    if n == 0 || all[0] != 'P' {
        return s.to_string();
    }
    let inner: String = string_between(&all, 1, n);
    assert(inner@ =~= s@.drop_first());
    let chars: Vec<char> = chars_of(text_before(inner.as_str(), 'T').as_str());
    let mut parts: Vec<String> = Vec::new();
    assert(texts(parts@) =~= Seq::empty());
    push_part(&mut parts, &chars, 'Y', "year");
    push_part(&mut parts, &chars, 'M', "month");
    push_part(&mut parts, &chars, 'W', "week");
    push_part(&mut parts, &chars, 'D', "day");
    assert(texts(parts@) =~= duration_parts(s@.drop_first()));
    assert(texts(parts@).len() == parts@.len());
    if parts.len() == 0 {
        s.to_string()
    } else {
        join(&parts, ", ")
    }
}

/// The numeric characters at the end of a text that ends with digits, behind a
/// character that is not numeric or at its start, are those digits.
proof fn lemma_numeric_tail(head: Seq<char>, digits: Seq<char>)
    requires
        all_digits(digits),
        head.len() > 0 ==> !numeric_char(head.last()),
    ensures
        numeric_tail(head + digits) == head.len(),
    decreases digits.len(),
{
    if digits.len() == 0 {
        assert(head + digits =~= head);
    } else {
        let front = digits.drop_last();
        assert forall|i: int| 0 <= i < front.len() implies is_digit(#[trigger] front[i]) by {
            assert(is_digit(digits[i]));
        }
        assert(is_digit(digits[digits.len() - 1]));
        assert((head + digits).drop_last() =~= head + front);
        lemma_numeric_tail(head, front);
    }
}

/// An amount is read where its digits stand right before the first occurrence of the
/// unit letter.
proof fn lemma_unit_amount(head: Seq<char>, n: nat, unit: char, rest: Seq<char>)
    requires
        n <= u32::MAX,
        head.len() > 0 ==> !numeric_char(head.last()),
        !head.contains(unit),
        !is_digit(unit),
    ensures
        unit_amount(head + decimal(n) + seq![unit] + rest, unit) == Some(n),
{
    let digits = decimal(n);
    let s = head + digits + seq![unit] + rest;
    law_decimal_round_trip(n, u32::MAX as nat);
    lemma_index_from(s, unit, 0);
    let k = index_from(s, unit, 0);
    let end = (head + digits).len() as int;
    assert(s[end] == unit);
    if k < head.len() {
        assert(s[k] == head[k]);
        assert(head.contains(head[k]));
    } else if k < end {
        assert(s[k] == digits[k - head.len()]);
        assert(is_digit(digits[k - head.len()]));
    }
    assert(s.take(k) =~= head + digits);
    lemma_numeric_tail(head, digits);
    assert((head + digits).skip(head.len() as int) =~= digits);
}

/// No amount is read for a unit letter that a text does not hold.
proof fn lemma_no_unit(s: Seq<char>, unit: char)
    requires
        !s.contains(unit),
    ensures
        unit_amount(s, unit) is None,
{
    lemma_index_from(s, unit, 0);
    let k = index_from(s, unit, 0);
    if k < s.len() {
        assert(s.contains(s[k]));
    }
}

/// Digits hold no letter.
proof fn lemma_digits_no_letter(n: nat, c: char)
    requires
        !is_digit(c),
    ensures
        !decimal(n).contains(c),
{
    law_decimal_round_trip(n, n);
    assert forall|i: int| 0 <= i < decimal(n).len() implies decimal(n)[i] != c by {
        assert(is_digit(decimal(n)[i]));
    }
}

/// How an ISO 8601 duration writes an amount in one unit, if it has one.
pub open spec fn written(amount: Option<nat>, unit: char) -> Seq<char> {
    match amount {
        Some(n) => decimal(n).push(unit),
        None => Seq::empty(),
    }
}

/// An amount in one unit in words, as a list of at most one text.
pub open spec fn in_words(amount: Option<nat>, label: Seq<char>) -> Seq<Seq<char>> {
    match amount {
        Some(n) => seq![amount_text(n, label)],
        None => Seq::empty(),
    }
}

/// Whether an amount can be read, where there is one.
pub open spec fn readable(amount: Option<nat>) -> bool {
    amount matches Some(n) ==> n <= u32::MAX
}

/// Whether a text does not end with a number.
pub open spec fn ends_unnumbered(s: Seq<char>) -> bool {
    s.len() > 0 ==> !numeric_char(s.last())
}

/// An amount is written without the letters of other units, and does not end with a
/// number.
proof fn lemma_written(amount: Option<nat>, unit: char)
    requires
        unit == 'Y' || unit == 'M' || unit == 'W' || unit == 'D',
    ensures
        ends_unnumbered(written(amount, unit)),
        unit != 'Y' ==> !written(amount, unit).contains('Y'),
        unit != 'M' ==> !written(amount, unit).contains('M'),
        unit != 'W' ==> !written(amount, unit).contains('W'),
        unit != 'D' ==> !written(amount, unit).contains('D'),
        !written(amount, unit).contains('T'),
{
    match amount {
        Some(n) => {
            lemma_digits_no_letter(n, 'Y');
            lemma_digits_no_letter(n, 'M');
            lemma_digits_no_letter(n, 'W');
            lemma_digits_no_letter(n, 'D');
            lemma_digits_no_letter(n, 'T');
            let s = written(amount, unit);
            assert forall|i: int| 0 <= i < s.len() - 1 implies decimal(n).contains(
                #[trigger] s[i],
            ) by {
                assert(s[i] == decimal(n)[i]);
            }
        },
        None => {},
    }
}

/// A character that two texts lack is lacking in both together.
proof fn lemma_lacking(a: Seq<char>, b: Seq<char>, c: char)
    requires
        !a.contains(c),
        !b.contains(c),
    ensures
        !(a + b).contains(c),
{
    let s = a + b;
    assert forall|i: int| 0 <= i < s.len() implies s[i] != c by {
        if i < a.len() {
            assert(a.contains(a[i]));
        } else {
            assert(b.contains(b[i - a.len()]));
        }
    }
}

/// An amount is read where it is written before any other occurrence of its unit, and none
/// where the unit does not occur.
proof fn lemma_amount_read(head: Seq<char>, amount: Option<nat>, unit: char, rest: Seq<char>)
    requires
        readable(amount),
        ends_unnumbered(head),
        !head.contains(unit),
        !rest.contains(unit),
        !is_digit(unit),
    ensures
        unit_amount(head + written(amount, unit) + rest, unit) == amount,
{
    match amount {
        Some(n) => {
            lemma_unit_amount(head, n, unit, rest);
            assert(head + decimal(n) + seq![unit] + rest =~= head + written(amount, unit) + rest);
        },
        None => {
            assert(head + written(amount, unit) + rest =~= head + rest);
            lemma_lacking(head, rest, unit);
            lemma_no_unit(head + rest, unit);
        },
    }
}

/// The date of a duration: its amounts in years, months, weeks and days.
pub open spec fn written_date(
    years: Option<nat>,
    months: Option<nat>,
    weeks: Option<nat>,
    days: Option<nat>,
) -> Seq<char> {
    written(years, 'Y') + written(months, 'M') + written(weeks, 'W') + written(days, 'D')
}

/// A date lacks a character that its four amounts lack.
proof fn lemma_date_lacking(y: Seq<char>, m: Seq<char>, w: Seq<char>, d: Seq<char>, c: char)
    requires
        !y.contains(c),
        !m.contains(c),
        !w.contains(c),
        !d.contains(c),
    ensures
        !(y + m + w + d).contains(c),
        !(y + m + w).contains(c),
        !(m + w + d).contains(c),
{
    lemma_lacking(y, m, c);
    lemma_lacking(y + m, w, c);
    lemma_lacking(y + m + w, d, c);
    lemma_lacking(m, w, c);
    lemma_lacking(m + w, d, c);
}

/// The years and the months of a date are read.
proof fn lemma_years_and_months(
    years: Option<nat>,
    months: Option<nat>,
    weeks: Option<nat>,
    days: Option<nat>,
)
    requires
        readable(years),
        readable(months),
    ensures
        unit_amount(written_date(years, months, weeks, days), 'Y') == years,
        unit_amount(written_date(years, months, weeks, days), 'M') == months,
{
    let y = written(years, 'Y');
    let m = written(months, 'M');
    let w = written(weeks, 'W');
    let d = written(days, 'D');
    let none = Seq::<char>::empty();
    lemma_written(years, 'Y');
    lemma_written(months, 'M');
    lemma_written(weeks, 'W');
    lemma_written(days, 'D');
    lemma_date_lacking(none, m, w, d, 'Y');
    lemma_amount_read(none, years, 'Y', m + w + d);
    assert(none + y + (m + w + d) =~= y + m + w + d);
    lemma_lacking(w, d, 'M');
    lemma_amount_read(y, months, 'M', w + d);
    assert(y + m + (w + d) =~= y + m + w + d);
}

/// The weeks and the days of a date are read.
proof fn lemma_weeks_and_days(
    years: Option<nat>,
    months: Option<nat>,
    weeks: Option<nat>,
    days: Option<nat>,
)
    requires
        readable(weeks),
        readable(days),
    ensures
        unit_amount(written_date(years, months, weeks, days), 'W') == weeks,
        unit_amount(written_date(years, months, weeks, days), 'D') == days,
{
    let y = written(years, 'Y');
    let m = written(months, 'M');
    let w = written(weeks, 'W');
    let d = written(days, 'D');
    let none = Seq::<char>::empty();
    lemma_written(years, 'Y');
    lemma_written(months, 'M');
    lemma_written(weeks, 'W');
    lemma_written(days, 'D');
    lemma_lacking(y, m, 'W');
    lemma_amount_read(y + m, weeks, 'W', d);
    lemma_date_lacking(y, m, w, none, 'D');
    lemma_amount_read(y + m + w, days, 'D', none);
    assert(y + m + w + d + none =~= y + m + w + d);
}

/// What stands before the time of day is the date.
proof fn lemma_date_before_time(
    years: Option<nat>,
    months: Option<nat>,
    weeks: Option<nat>,
    days: Option<nat>,
    time: Seq<char>,
)
    requires
        time.len() > 0 ==> time[0] == 'T',
    ensures
        before(written_date(years, months, weeks, days) + time, 'T') == written_date(
            years,
            months,
            weeks,
            days,
        ),
{
    let date = written_date(years, months, weeks, days);
    lemma_written(years, 'Y');
    lemma_written(months, 'M');
    lemma_written(weeks, 'W');
    lemma_written(days, 'D');
    lemma_date_lacking(
        written(years, 'Y'),
        written(months, 'M'),
        written(weeks, 'W'),
        written(days, 'D'),
        'T',
    );
    if time.len() > 0 {
        law_before_append(date, 'T', time.drop_first());
        assert(date.push('T') + time.drop_first() =~= date + time);
    } else {
        law_before(date, 'T');
        assert(date + time =~= date);
    }
}

/// A duration is written out in all its units, in the order of years, months, weeks and
/// days: "P3Y" as "3 years", "P1Y6M" as "1 year, 6 months". A time of day behind it is left
/// out.
pub proof fn law_duration_in_words(
    years: Option<nat>,
    months: Option<nat>,
    weeks: Option<nat>,
    days: Option<nat>,
    time: Seq<char>,
)
    requires
        readable(years) && readable(months) && readable(weeks) && readable(days),
        years is Some || months is Some || weeks is Some || days is Some,
        time.len() > 0 ==> time[0] == 'T',
    ensures
        duration_text(seq!['P'] + (written_date(years, months, weeks, days) + time)) == joined(
            in_words(years, "year"@) + in_words(months, "month"@) + in_words(weeks, "week"@)
                + in_words(days, "day"@),
            ", "@,
        ),
{
    let inner = written_date(years, months, weeks, days) + time;
    lemma_years_and_months(years, months, weeks, days);
    lemma_weeks_and_days(years, months, weeks, days);
    lemma_date_before_time(years, months, weeks, days, time);
    assert((seq!['P'] + inner).drop_first() =~= inner);
    assert(duration_parts(inner) == in_words(years, "year"@) + in_words(months, "month"@)
        + in_words(weeks, "week"@) + in_words(days, "day"@));
}

/// A duration in a time of day alone, such as minutes, is no amount of years, months,
/// weeks or days, and stays as it is.
pub proof fn law_time_of_day_stays(rest: Seq<char>)
    ensures
        duration_text(seq!['P', 'T'] + rest) == seq!['P', 'T'] + rest,
{
    let s = seq!['P', 'T'] + rest;
    let inner = s.drop_first();
    assert(inner[0] == 'T');
    assert(before(inner, 'T') =~= Seq::empty());
    lemma_no_unit(Seq::empty(), 'Y');
    lemma_no_unit(Seq::empty(), 'M');
    lemma_no_unit(Seq::empty(), 'W');
    lemma_no_unit(Seq::empty(), 'D');
    assert(duration_parts(inner).len() == 0);
}

/// What does not start with a "P", and what names no years, months, weeks or days behind
/// it, is no duration and stays as it is.
pub proof fn law_no_duration_stays(s: Seq<char>)
    ensures
        s.len() == 0 || s[0] != 'P' ==> duration_text(s) == s,
        !s.contains('Y') && !s.contains('M') && !s.contains('W') && !s.contains('D')
            ==> duration_text(s) == s,
{
    if s.len() > 0 && !s.contains('Y') && !s.contains('M') && !s.contains('W') && !s.contains(
        'D',
    ) {
        let date = before(s.drop_first(), 'T');
        lemma_index_from(s.drop_first(), 'T', 0);
        assert forall|i: int| 0 <= i < date.len() implies date[i] != 'Y' && date[i] != 'M'
            && date[i] != 'W' && date[i] != 'D' by {
            assert(date[i] == s[i + 1]);
            assert(s.contains(s[i + 1]));
        }
        lemma_no_unit(date, 'Y');
        lemma_no_unit(date, 'M');
        lemma_no_unit(date, 'W');
        lemma_no_unit(date, 'D');
        assert(duration_parts(s.drop_first()).len() == 0);
    }
}

} // verus!
