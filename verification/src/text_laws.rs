//! What holds of the text operations.

use vstd::prelude::*;
use vstd::utf8::is_ascii_chars;

use crate::text::{
    after, before, cleaned, divides, find_from, first_chars, includes, index_from, is_space, joined,
    lemma_find_least, lemma_non_empty_push, lemma_split_some, non_empty, occurs_at, split_at,
    trim_end, trim_start, trimmed, without, without_from, Separator,
};
use crate::unicode::{
    folded, is_digit, is_letter, lower, lowercase, numeric_char, unicode_numeric, upper, uppercase,
};

verus! {

/// Whether a text has no white space at its start.
pub open spec fn starts_solid(s: Seq<char>) -> bool {
    s.len() > 0 ==> !is_space(s[0])
}

/// Whether a text has no white space at its end.
pub open spec fn ends_solid(s: Seq<char>) -> bool {
    s.len() > 0 ==> !is_space(s.last())
}

/// Removing leading white space leaves none.
proof fn lemma_trim_start(s: Seq<char>)
    ensures
        starts_solid(trim_start(s)),
        trim_start(s).len() <= s.len(),
    decreases s.len(),
{
    if s.len() > 0 && is_space(s[0]) {
        lemma_trim_start(s.drop_first());
    }
}

/// Removing trailing white space leaves none, and the start as it is.
proof fn lemma_trim_end(s: Seq<char>)
    ensures
        ends_solid(trim_end(s)),
        trim_end(s).len() <= s.len(),
        trim_end(s) == s.take(trim_end(s).len() as int),
        starts_solid(s) ==> starts_solid(trim_end(s)),
    decreases s.len(),
{
    if s.len() > 0 && is_space(s.last()) {
        lemma_trim_end(s.drop_last());
        let n = trim_end(s).len() as int;
        assert(s.drop_last().take(n) =~= s.take(n));
    } else {
        assert(s.take(s.len() as int) =~= s);
    }
}

/// A trimmed text has no white space at its ends.
pub proof fn law_trimmed_ends(s: Seq<char>)
    ensures
        starts_solid(trimmed(s)),
        ends_solid(trimmed(s)),
        trimmed(s).len() <= s.len(),
{
    lemma_trim_start(s);
    lemma_trim_end(trim_start(s));
}

/// Trimming a text without white space at its ends changes nothing.
pub proof fn law_trimmed_solid(s: Seq<char>)
    requires
        starts_solid(s),
        ends_solid(s),
    ensures
        trimmed(s) == s,
{
}

/// Trimming twice is trimming once.
pub proof fn law_trimmed_idempotent(s: Seq<char>)
    ensures
        trimmed(trimmed(s)) == trimmed(s),
{
    law_trimmed_ends(s);
}

/// Splitting a text and joining the pieces with the separator gives the text back.
pub proof fn law_join_split(s: Seq<char>, c: char)
    ensures
        joined(split_at(s, Separator::Char(c)), seq![c]) == s,
    decreases s.len(),
{
    let sep = Separator::Char(c);
    let pieces = split_at(s, sep);
    if s.len() == 0 {
        assert(joined(pieces, seq![c]) =~= s);
    } else {
        let front = s.drop_last();
        let last = s.last();
        let before = split_at(front, sep);
        law_join_split(front, c);
        lemma_split_some(front, sep);
        assert(s =~= front.push(last));
        if divides(sep, last) {
            assert(pieces.drop_last() =~= before);
            assert(joined(pieces, seq![c]) == joined(before, seq![c]) + seq![c] + Seq::<
                char,
            >::empty());
            assert(joined(pieces, seq![c]) =~= s);
        } else {
            assert(pieces.drop_last() =~= before.drop_last());
            if before.len() == 1 {
                assert(joined(before, seq![c]) == before[0]);
                assert(joined(pieces, seq![c]) == pieces[0]);
            } else {
                let head = joined(before.drop_last(), seq![c]) + seq![c];
                assert(joined(before, seq![c]) == head + before.last());
                assert(joined(pieces, seq![c]) == head + before.last().push(last));
                assert(head + before.last().push(last) =~= (head + before.last()).push(last));
            }
        }
    }
}

/// Whether no character of a text is white space.
pub open spec fn is_word(s: Seq<char>) -> bool {
    forall|i: int| 0 <= i < s.len() ==> !is_space(#[trigger] s[i])
}

/// Whether several texts are words.
pub open spec fn are_words(list: Seq<Seq<char>>) -> bool {
    forall|i: int| 0 <= i < list.len() ==> is_word(#[trigger] list[i])
}

/// The pieces between white space are words.
proof fn lemma_pieces_are_words(s: Seq<char>)
    ensures
        are_words(split_at(s, Separator::Space)),
    decreases s.len(),
{
    if s.len() > 0 {
        lemma_pieces_are_words(s.drop_last());
        lemma_split_some(s.drop_last(), Separator::Space);
        let before = split_at(s.drop_last(), Separator::Space);
        let pieces = split_at(s, Separator::Space);
        assert forall|i: int| 0 <= i < pieces.len() implies is_word(#[trigger] pieces[i]) by {
            if i < before.len() {
                assert(is_word(before[i]));
            }
        }
    }
}

/// A word is one piece, and adding it behind a blank adds one piece.
proof fn lemma_split_word(s: Seq<char>, word: Seq<char>)
    requires
        is_word(word),
    ensures
        split_at(s.push(' ') + word, Separator::Space) == split_at(s, Separator::Space).push(word),
        split_at(word, Separator::Space) == seq![word],
    decreases word.len(),
{
    let sep = Separator::Space;
    if word.len() == 0 {
        assert(s.push(' ') + word =~= s.push(' '));
        assert(s.push(' ').drop_last() =~= s);
        assert(word =~= Seq::empty());
        assert(split_at(word, sep) =~= seq![word]);
    } else {
        let front = word.drop_last();
        assert forall|i: int| 0 <= i < front.len() implies !is_space(#[trigger] front[i]) by {
            assert(front[i] == word[i]);
        }
        lemma_split_word(s, front);
        assert((s.push(' ') + word).drop_last() =~= s.push(' ') + front);
        assert((s.push(' ') + word).last() == word.last());
        assert(!is_space(word[word.len() - 1]));
        assert(front.push(word.last()) =~= word);
        assert(split_at(s, sep).push(front).update(split_at(s, sep).len() as int, word)
            =~= split_at(s, sep).push(word));
        assert(seq![front].update(0, word) =~= seq![word]);
    }
}

/// Words joined with blanks are split into the same words.
proof fn lemma_split_joined_words(words: Seq<Seq<char>>)
    requires
        are_words(words),
        words.len() > 0,
    ensures
        split_at(joined(words, seq![' ']), Separator::Space) == words,
    decreases words.len(),
{
    if words.len() == 1 {
        assert(is_word(words[0]));
        lemma_split_word(Seq::empty(), words[0]);
        assert(seq![words[0]] =~= words);
    } else {
        let front = words.drop_last();
        assert forall|i: int| 0 <= i < front.len() implies is_word(#[trigger] front[i]) by {
            assert(is_word(words[i]));
        }
        lemma_split_joined_words(front);
        let text = joined(front, seq![' ']);
        assert(is_word(words[words.len() - 1]));
        lemma_split_word(text, words.last());
        assert(text + seq![' '] + words.last() =~= text.push(' ') + words.last());
        assert(front.push(words.last()) =~= words);
    }
}

/// The non-empty ones among words are words, and none of them is empty.
proof fn lemma_non_empty_words(list: Seq<Seq<char>>)
    requires
        are_words(list),
    ensures
        are_words(non_empty(list)),
        forall|i: int| 0 <= i < non_empty(list).len() ==> (#[trigger] non_empty(list)[i]).len() > 0,
    decreases list.len(),
{
    reveal(Seq::filter);
    if list.len() > 0 {
        let front = list.drop_last();
        assert forall|i: int| 0 <= i < front.len() implies is_word(#[trigger] front[i]) by {
            assert(is_word(list[i]));
        }
        lemma_non_empty_words(front);
        lemma_non_empty_push(front, list.last());
        assert(front.push(list.last()) =~= list);
        assert(is_word(list[list.len() - 1]));
        let kept = non_empty(list);
        assert forall|i: int| 0 <= i < kept.len() implies is_word(#[trigger] kept[i]) by {
            if i < non_empty(front).len() {
                assert(is_word(non_empty(front)[i]));
            }
        }
    }
}

/// Keeping the non-empty ones among texts that are not empty keeps all of them.
proof fn lemma_all_non_empty(list: Seq<Seq<char>>)
    requires
        forall|i: int| 0 <= i < list.len() ==> (#[trigger] list[i]).len() > 0,
    ensures
        non_empty(list) == list,
    decreases list.len(),
{
    reveal(Seq::filter);
    if list.len() > 0 {
        let front = list.drop_last();
        assert forall|i: int| 0 <= i < front.len() implies (#[trigger] front[i]).len() > 0 by {
            assert(list[i].len() > 0);
        }
        lemma_all_non_empty(front);
        lemma_non_empty_push(front, list.last());
        assert(list[list.len() - 1].len() > 0);
        assert(front.push(list.last()) =~= list);
    } else {
        assert(non_empty(list) =~= list);
    }
}

/// Normalising white space twice is normalising it once.
pub proof fn law_cleaned_idempotent(s: Seq<char>)
    ensures
        cleaned(cleaned(s)) == cleaned(s),
{
    let pieces = split_at(s, Separator::Space);
    let words = non_empty(pieces);
    lemma_pieces_are_words(s);
    lemma_non_empty_words(pieces);
    if words.len() > 0 {
        lemma_split_joined_words(words);
        lemma_all_non_empty(words);
    } else {
        reveal(Seq::filter);
        let none: Seq<Seq<char>> = seq![Seq::empty()];
        assert(cleaned(s) =~= Seq::empty());
        assert(split_at(cleaned(s), Separator::Space) =~= none);
        assert(none.drop_last() =~= Seq::empty());
        assert(non_empty(none.drop_last()) =~= Seq::empty());
        lemma_non_empty_push(none.drop_last(), Seq::empty());
        assert(none =~= none.drop_last().push(Seq::empty()));
        assert(non_empty(none) =~= Seq::empty());
    }
}

/// The words of a text have no blank in front of them, behind them or in a row
/// between them: normalising white space is the same as splitting at white space,
/// leaving out what is empty, and joining with single blanks.
pub proof fn law_cleaned_words(s: Seq<char>)
    ensures
        cleaned(s).len() > 0 ==> split_at(cleaned(s), Separator::Space) == non_empty(
            split_at(s, Separator::Space),
        ),
        starts_solid(cleaned(s)),
        ends_solid(cleaned(s)),
{
    let pieces = split_at(s, Separator::Space);
    let words = non_empty(pieces);
    lemma_pieces_are_words(s);
    lemma_non_empty_words(pieces);
    if words.len() > 0 {
        lemma_split_joined_words(words);
        lemma_joined_solid(words);
    }
}

/// Joined words start and end with a word.
proof fn lemma_joined_solid(words: Seq<Seq<char>>)
    requires
        words.len() > 0,
        are_words(words),
        forall|i: int| 0 <= i < words.len() ==> (#[trigger] words[i]).len() > 0,
    ensures
        joined(words, seq![' ']).len() > 0,
        starts_solid(joined(words, seq![' '])),
        ends_solid(joined(words, seq![' '])),
    decreases words.len(),
{
    let last = words[words.len() - 1];
    assert(is_word(last) && last.len() > 0);
    assert(!is_space(last[last.len() - 1]));
    if words.len() == 1 {
        assert(!is_space(last[0]));
    } else {
        let front = words.drop_last();
        assert forall|i: int| 0 <= i < front.len() implies is_word(#[trigger] front[i])
            && front[i].len() > 0 by {
            assert(is_word(words[i]) && words[i].len() > 0);
        }
        lemma_joined_solid(front);
        let text = joined(front, seq![' ']);
        assert((text + seq![' '] + last)[0] == text[0]);
        assert((text + seq![' '] + last).last() == last[last.len() - 1]);
    }
}

/// The index found is that of the first occurrence of the character.
pub proof fn lemma_index_from(s: Seq<char>, c: char, i: int)
    requires
        0 <= i <= s.len(),
    ensures
        i <= index_from(s, c, i) <= s.len(),
        index_from(s, c, i) < s.len() ==> s[index_from(s, c, i)] == c,
        forall|j: int| i <= j < index_from(s, c, i) ==> s[j] != c,
    decreases s.len() - i,
{
    if i < s.len() && s[i] != c {
        lemma_index_from(s, c, i + 1);
    }
}

/// What stands before the first occurrence of a character does not hold it, and is
/// all of a text that does not.
pub proof fn law_before(s: Seq<char>, c: char)
    ensures
        !before(s, c).contains(c),
        !s.contains(c) ==> before(s, c) == s,
{
    lemma_index_from(s, c, 0);
    let k = index_from(s, c, 0);
    assert forall|j: int| 0 <= j < before(s, c).len() implies before(s, c)[j] != c by {
        assert(before(s, c)[j] == s[j]);
    }
    if !s.contains(c) {
        if k < s.len() {
            assert(s.contains(s[k]));
        }
        assert(s.take(k) =~= s);
    }
}

/// A character that is put behind a text that does not hold it, and whatever
/// follows it, come after what stands before that character.
pub proof fn law_before_append(s: Seq<char>, c: char, rest: Seq<char>)
    requires
        !s.contains(c),
    ensures
        before(s.push(c) + rest, c) == s,
{
    let t = s.push(c) + rest;
    lemma_index_from(t, c, 0);
    let k = index_from(t, c, 0);
    assert(t[s.len() as int] == c);
    if k < s.len() {
        assert(t[k] == s[k]);
        assert(s.contains(s[k]));
    }
    assert(t.take(k) =~= s);
}

/// White space is what Unicode calls so.
pub proof fn law_white_space(c: char)
    ensures
        is_space(c) <==> c == '\t' || c == '\n' || c == '\u{b}' || c == '\u{c}' || c == '\r' || c
            == ' ' || c == '\u{85}' || c == '\u{a0}' || c == '\u{1680}' || '\u{2000}' <= c
            <= '\u{200a}' || c == '\u{2028}' || c == '\u{2029}' || c == '\u{202f}' || c
            == '\u{205f}' || c == '\u{3000}',
{
}

/// Whether a text is white space all through.
pub open spec fn is_blank(s: Seq<char>) -> bool {
    forall|i: int| 0 <= i < s.len() ==> is_space(#[trigger] s[i])
}

/// What is removed at the start is white space.
proof fn lemma_trim_start_rest(s: Seq<char>)
    ensures
        trim_start(s).len() <= s.len(),
        trim_start(s) == s.skip(s.len() - trim_start(s).len()),
        is_blank(s.take(s.len() - trim_start(s).len())),
    decreases s.len(),
{
    if s.len() > 0 && is_space(s[0]) {
        let t = s.drop_first();
        lemma_trim_start_rest(t);
        let n = s.len() - trim_start(s).len();
        assert(t.skip(n - 1) =~= s.skip(n));
        assert forall|i: int| 0 <= i < n implies is_space(#[trigger] s.take(n)[i]) by {
            if i > 0 {
                assert(t.take(n - 1)[i - 1] == s[i]);
            }
        }
    } else {
        assert(s.skip(0) =~= s);
    }
}

/// What is removed at the end is white space.
proof fn lemma_trim_end_rest(s: Seq<char>)
    ensures
        trim_end(s).len() <= s.len(),
        trim_end(s) == s.take(trim_end(s).len() as int),
        is_blank(s.skip(trim_end(s).len() as int)),
    decreases s.len(),
{
    if s.len() > 0 && is_space(s.last()) {
        let t = s.drop_last();
        lemma_trim_end_rest(t);
        let n = trim_end(s).len() as int;
        assert(t.take(n) =~= s.take(n));
        assert forall|i: int| 0 <= i < s.len() - n implies is_space(#[trigger] s.skip(n)[i]) by {
            if i < t.len() - n {
                assert(t.skip(n)[i] == s[n + i]);
            }
        }
    } else {
        assert(s.take(s.len() as int) =~= s);
    }
}

/// Trimming takes away white space at the two ends and nothing else.
pub proof fn law_trimmed_is_the_middle(s: Seq<char>)
    ensures
        exists|a: Seq<char>, b: Seq<char>|
            is_blank(a) && is_blank(b) && s == #[trigger] (a + trimmed(s) + b),
        trimmed(s).len() == 0 <==> is_blank(s),
{
    let t = trim_start(s);
    let a = s.take(s.len() - t.len());
    let b = t.skip(trimmed(s).len() as int);
    lemma_trim_start_rest(s);
    lemma_trim_end_rest(t);
    law_trimmed_ends(s);
    assert(s =~= a + trimmed(s) + b);
    if trimmed(s).len() == 0 {
        assert forall|i: int| 0 <= i < s.len() implies is_space(#[trigger] s[i]) by {
            if i < a.len() {
                assert(a[i] == s[i]);
            } else {
                assert(b[i - a.len()] == s[i]);
            }
        }
    } else {
        assert(s[a.len() as int] == trimmed(s)[0]);
        assert(!is_space(s[a.len() as int]));
    }
}

/// A text is trimmed to what stands between white space and does not start or end with it.
pub proof fn law_trimmed_of_padded(a: Seq<char>, s: Seq<char>, b: Seq<char>)
    requires
        is_blank(a),
        is_blank(b),
        starts_solid(s),
        ends_solid(s),
    ensures
        trimmed(a + s + b) == s,
    decreases a.len() + b.len(),
{
    let whole = a + s + b;
    if s.len() == 0 {
        assert forall|i: int| 0 <= i < whole.len() implies is_space(#[trigger] whole[i]) by {
            if i < a.len() {
                assert(is_space(a[i]));
            } else {
                assert(is_space(b[i - a.len()]));
            }
        }
        law_trimmed_is_the_middle(whole);
        assert(trimmed(whole) =~= s);
    } else if a.len() > 0 {
        let rest = a.drop_first();
        assert(is_space(a[0]));
        assert forall|i: int| 0 <= i < rest.len() implies is_space(#[trigger] rest[i]) by {
            assert(is_space(a[i + 1]));
        }
        assert(whole.drop_first() =~= rest + s + b);
        law_trimmed_of_padded(rest, s, b);
    } else if b.len() > 0 {
        let rest = b.drop_last();
        assert(is_space(b[b.len() - 1]));
        assert forall|i: int| 0 <= i < rest.len() implies is_space(#[trigger] rest[i]) by {
            assert(is_space(b[i]));
        }
        assert(whole.drop_last() =~= a + s + rest);
        assert(whole[0] == s[0]);
        assert((a + s + rest)[0] == s[0]);
        law_trimmed_of_padded(a, s, rest);
    } else {
        assert(whole =~= s);
    }
}

/// Without a separator, texts are joined by writing one behind the other.
pub proof fn law_joined_without_separator(list: Seq<Seq<char>>)
    ensures
        joined(list, Seq::empty()) == list.flatten(),
    decreases list.len(),
{
    list.lemma_flatten_and_flatten_alt_are_equivalent();
    if list.len() == 1 {
        list.lemma_flatten_one_element();
    } else if list.len() > 1 {
        let front = list.drop_last();
        law_joined_without_separator(front);
        front.lemma_flatten_and_flatten_alt_are_equivalent();
        assert(joined(front, Seq::empty()) + Seq::empty() + list.last() =~= joined(
            front,
            Seq::empty(),
        ) + list.last());
    }
}

/// A text that is shortened is a start of the text, as long as wanted or as the text.
pub proof fn law_first_chars(s: Seq<char>, n: nat)
    ensures
        first_chars(s, n).is_prefix_of(s),
        s.len() <= n ==> first_chars(s, n) == s,
        s.len() >= n ==> first_chars(s, n).len() == n,
{
    if n < s.len() {
        assert(s.take(n as int) =~= s.subrange(0, n as int));
    } else {
        assert(s =~= s.subrange(0, s.len() as int));
    }
}

/// What stands behind the first occurrence of a character.
pub proof fn law_after(a: Seq<char>, c: char, b: Seq<char>)
    requires
        !a.contains(c),
    ensures
        after(a.push(c) + b, c) == b,
        after(a, c) == Seq::<char>::empty(),
{
    let s = a.push(c) + b;
    lemma_index_from(s, c, 0);
    let k = index_from(s, c, 0);
    assert(s[a.len() as int] == c);
    if k < a.len() {
        assert(s[k] == a[k]);
        assert(a.contains(a[k]));
    }
    assert(s.skip(k + 1) =~= b);
    lemma_index_from(a, c, 0);
    if index_from(a, c, 0) < a.len() {
        assert(a.contains(a[index_from(a, c, 0)]));
    }
}

/// The rest of a text without a pattern depends on the rest alone.
proof fn lemma_without_from_skip(s: Seq<char>, p: Seq<char>, i: int)
    requires
        p.len() > 0,
        0 <= i <= s.len(),
    ensures
        without_from(s, p, i) == without(s.skip(i), p),
    decreases s.len() - i,
{
    let t = s.skip(i);
    lemma_find_least(s, p, i);
    lemma_find_least(t, p, 0);
    assert forall|j: int| 0 <= j implies occurs_at(t, p, j) == #[trigger] occurs_at(s, p, i + j) by {
        if j + p.len() <= t.len() {
            assert(t.subrange(j, j + p.len()) =~= s.subrange(i + j, i + j + p.len()));
        }
    }
    match find_from(s, p, i) {
        Some(k) => {
            assert(occurs_at(s, p, i + (k - i)));
            assert(occurs_at(t, p, k - i));
            match find_from(t, p, 0) {
                Some(m) => {
                    assert(occurs_at(s, p, i + m));
                    assert(m == k - i);
                    lemma_without_from_skip(s, p, k + p.len());
                    lemma_without_from_skip(t, p, m + p.len());
                    assert(t.skip(m + p.len()) =~= s.skip(k + p.len()));
                    assert(t.subrange(0, m) =~= s.subrange(i, k));
                },
                None => {},
            }
        },
        None => {
            match find_from(t, p, 0) {
                Some(m) => {
                    assert(occurs_at(s, p, i + m));
                },
                None => {
                    assert(t.skip(0) =~= t);
                },
            }
        },
    }
}

/// Removing a pattern takes out its first occurrence and those in what follows it; a text
/// that does not hold it stays as it is.
pub proof fn law_without(a: Seq<char>, p: Seq<char>, b: Seq<char>)
    requires
        p.len() > 0,
    ensures
        (forall|j: int| 0 <= j < a.len() ==> !occurs_at(a + p + b, p, j)) ==> without(a + p + b, p)
            == a + without(b, p),
        (forall|j: int| !occurs_at(a, p, j)) ==> without(a, p) == a,
{
    let s = a + p + b;
    if forall|j: int| 0 <= j < a.len() ==> !occurs_at(s, p, j) {
        lemma_find_least(s, p, 0);
        assert(s.subrange(a.len() as int, (a.len() + p.len()) as int) =~= p);
        assert(occurs_at(s, p, a.len() as int));
        assert(find_from(s, p, 0) == Some(a.len() as int));
        lemma_without_from_skip(s, p, (a.len() + p.len()) as int);
        assert(s.skip((a.len() + p.len()) as int) =~= b);
        assert(s.subrange(0, a.len() as int) =~= a);
    }
    if forall|j: int| !occurs_at(a, p, j) {
        lemma_find_least(a, p, 0);
        assert(a.skip(0) =~= a);
    }
}

/// A text contains a pattern exactly where it is made of something, the pattern and
/// something else.
pub proof fn law_includes(s: Seq<char>, p: Seq<char>)
    ensures
        includes(s, p) <==> exists|a: Seq<char>, b: Seq<char>| s == #[trigger] (a + p + b),
{
    if includes(s, p) {
        let i = choose|i: int| occurs_at(s, p, i);
        let a = s.take(i);
        let b = s.skip(i + p.len());
        assert(s =~= a + p + b) by {
            assert forall|j: int| 0 <= j < s.len() implies s[j] == (a + p + b)[j] by {
                if i <= j < i + p.len() {
                    assert(s.subrange(i, i + p.len())[j - i] == s[j]);
                }
            }
        }
    }
    if exists|a: Seq<char>, b: Seq<char>| s == #[trigger] (a + p + b) {
        let (a, b) = choose|a: Seq<char>, b: Seq<char>| s == #[trigger] (a + p + b);
        assert(s.subrange(a.len() as int, (a.len() + p.len()) as int) =~= p);
        assert(occurs_at(s, p, a.len() as int));
    }
}

/// The pieces of a text hold no separator.
pub proof fn law_pieces_hold_no_separator(s: Seq<char>, sep: Separator, k: int, c: char)
    requires
        0 <= k < split_at(s, sep).len(),
        split_at(s, sep)[k].contains(c),
    ensures
        match sep {
            Separator::Char(d) => c != d,
            Separator::Space => !is_space(c),
            Separator::NonLetter => is_letter(c),
        },
    decreases s.len(),
{
    if s.len() > 0 {
        let before = split_at(s.drop_last(), sep);
        let now = split_at(s, sep);
        lemma_split_some(s.drop_last(), sep);
        let j = choose|j: int| 0 <= j < now[k].len() && now[k][j] == c;
        if divides(sep, s.last()) {
            if k < before.len() {
                law_pieces_hold_no_separator(s.drop_last(), sep, k, c);
            }
        } else if k < before.len() - 1 {
            law_pieces_hold_no_separator(s.drop_last(), sep, k, c);
        } else if j < before[k].len() {
            assert(before[k][j] == c);
            assert(before[k].contains(c));
            law_pieces_hold_no_separator(s.drop_last(), sep, k, c);
        }
    }
}

/// Texts are joined with the separator between each two of them.
pub proof fn law_joined(list: Seq<Seq<char>>, t: Seq<char>, sep: Seq<char>)
    ensures
        joined(Seq::empty(), sep) == Seq::<char>::empty(),
        joined(seq![t], sep) == t,
        list.len() > 0 ==> joined(list.push(t), sep) == joined(list, sep) + sep + t,
{
    if list.len() > 0 {
        assert(list.push(t).drop_last() =~= list);
    }
}

/// The lowercase and uppercase forms of an ASCII text are made letter by letter, and those
/// of any other text are those of the standard library.
pub proof fn law_case(s: Seq<char>, i: int)
    requires
        0 <= i < s.len(),
    ensures
        is_ascii_chars(s) ==> {
            &&& lower(s).len() == s.len() && upper(s).len() == s.len()
            &&& 'A' <= s[i] <= 'Z' ==> lower(s)[i] as u32 == s[i] as u32 + 32
            &&& 'a' <= s[i] <= 'z' ==> upper(s)[i] as u32 == s[i] as u32 - 32
            &&& !('A' <= s[i] <= 'Z') ==> lower(s)[i] == s[i]
            &&& !('a' <= s[i] <= 'z') ==> upper(s)[i] == s[i]
        },
        !is_ascii_chars(s) ==> lower(s) == lowercase(s) && upper(s) == uppercase(s),
        folded(s).len() == s.len(),
        'A' <= s[i] <= 'Z' ==> folded(s)[i] as u32 == s[i] as u32 + 32,
        !('A' <= s[i] <= 'Z') ==> folded(s)[i] == s[i],
{
    let c = s[i] as u32;
    if 65 <= c <= 90 {
        let d: u32 = (c + 32) as u32;
        assert(d as char as u32 == d);
    }
    if 97 <= c <= 122 {
        let d: u32 = (c - 32) as u32;
        assert(d as char as u32 == d);
    }
}

/// Letters and digits are the ASCII ones, and among the ASCII characters only the digits
/// count as numbers.
pub proof fn law_letters_and_digits(c: char)
    ensures
        is_letter(c) <==> 'a' <= c <= 'z' || 'A' <= c <= 'Z',
        is_digit(c) <==> '0' <= c <= '9',
        (c as u32) < 128 ==> numeric_char(c) == is_digit(c),
        (c as u32) >= 128 ==> numeric_char(c) == unicode_numeric(c),
{
}

/// White space is normalised by joining all words of a text with single blanks; nothing is
/// left of a text exactly where it is blank.
pub proof fn law_cleaned(s: Seq<char>)
    ensures
        cleaned(s) == joined(non_empty(split_at(s, Separator::Space)), " "@),
        is_blank(s) ==> cleaned(s).len() == 0,
        !is_blank(s) ==> cleaned(s).len() > 0,
{
    reveal_strlit(" ");
    assert(" "@ =~= seq![' ']);
    lemma_words_of_text(s);
    let pieces = split_at(s, Separator::Space);
    let words = non_empty(pieces);
    if words.len() > 0 {
        pieces.lemma_filter_pred(|t: Seq<char>| t.len() > 0, words.len() - 1);
    }
}

/// A text has words exactly where it is not blank.
proof fn lemma_words_of_text(s: Seq<char>)
    ensures
        is_blank(s) ==> non_empty(split_at(s, Separator::Space)).len() == 0,
        !is_blank(s) ==> non_empty(split_at(s, Separator::Space)).len() > 0,
        is_blank(s) ==> split_at(s, Separator::Space).last().len() == 0,
    decreases s.len(),
{
    let sep = Separator::Space;
    let none = Seq::<char>::empty();
    let nothing = Seq::<Seq<char>>::empty();
    reveal(Seq::filter);
    if s.len() == 0 {
        lemma_non_empty_push(nothing, none);
        assert(nothing.push(none) =~= seq![none]);
        assert(non_empty(nothing) =~= nothing);
    } else {
        let front = s.drop_last();
        let before = split_at(front, sep);
        lemma_words_of_text(front);
        lemma_split_some(front, sep);
        if is_space(s.last()) {
            lemma_non_empty_push(before, none);
            if is_blank(front) {
                assert forall|i: int| 0 <= i < s.len() implies is_space(#[trigger] s[i]) by {
                    if i < front.len() {
                        assert(is_space(front[i]));
                    }
                }
            } else if is_blank(s) {
                assert forall|i: int| 0 <= i < front.len() implies is_space(
                    #[trigger] front[i],
                ) by {
                    assert(is_space(s[i]));
                }
            }
        } else {
            let start = before.drop_last();
            let word = before.last().push(s.last());
            assert(split_at(s, sep) =~= start.push(word));
            lemma_non_empty_push(start, word);
            assert(!is_space(s[s.len() - 1]));
        }
    }
}

} // verus!
