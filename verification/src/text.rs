//! Text operations on character sequences.

use vstd::prelude::*;

use crate::number::digit;
use crate::unicode::{is_digit, is_letter, letter};

verus! {

/// Whether a character has the Unicode `White_Space` property.
pub open spec fn is_space(c: char) -> bool {
    let n = c as u32;
    ||| 0x09 <= n <= 0x0d
    ||| n == 0x20
    ||| n == 0x85
    ||| n == 0xa0
    ||| n == 0x1680
    ||| 0x2000 <= n <= 0x200a
    ||| n == 0x2028
    ||| n == 0x2029
    ||| n == 0x202f
    ||| n == 0x205f
    ||| n == 0x3000
}

/// The view of an optional text.
pub open spec fn optional(t: Option<String>) -> Option<Seq<char>> {
    match t {
        Some(t) => Some(t@),
        None => None,
    }
}

/// The views of a list of strings.
pub open spec fn texts(list: Seq<String>) -> Seq<Seq<char>> {
    list.map_values(|t: String| t@)
}

/// The views of a list of string slices.
pub open spec fn strs(list: Seq<&str>) -> Seq<Seq<char>> {
    list.map_values(|t: &str| t@)
}

/// A text without its leading white space.
pub open spec fn trim_start(s: Seq<char>) -> Seq<char>
    decreases s.len(),
{
    if s.len() > 0 && is_space(s[0]) {
        trim_start(s.drop_first())
    } else {
        s
    }
}

/// A text without its trailing white space.
pub open spec fn trim_end(s: Seq<char>) -> Seq<char>
    decreases s.len(),
{
    if s.len() > 0 && is_space(s.last()) {
        trim_end(s.drop_last())
    } else {
        s
    }
}

/// A text without leading and trailing white space.
pub open spec fn trimmed(s: Seq<char>) -> Seq<char> {
    trim_end(trim_start(s))
}

/// Whether a character is white space.
pub fn is_white_space(c: char) -> (result: bool)
    ensures
        result == is_space(c),
{
    let n: u32 = c as u32;
    (0x09 <= n && n <= 0x0d) || n == 0x20 || n == 0x85 || n == 0xa0 || n == 0x1680 || (0x2000 <= n
        && n <= 0x200a) || n == 0x2028 || n == 0x2029 || n == 0x202f || n == 0x205f || n == 0x3000
}

/// The characters of a text.
pub fn chars_of(s: &str) -> (result: Vec<char>)
    ensures
        result@ == s@,
{
    let mut result: Vec<char> = Vec::new();
    for c in it: s.chars()
        invariant
            it.seq() == s@,
            result@ == s@.take(it.index()),
    {
        proof {
            assert(s@.take(it.index() + 1) =~= s@.take(it.index()).push(c));
        }
        result.push(c);
    }
    assert(s@.take(s@.len() as int) =~= s@);
    result
}

/// The text made of the characters from one index up to another.
pub fn string_between(chars: &Vec<char>, from: usize, to: usize) -> (result: String)
    requires
        from <= to <= chars@.len(),
    ensures
        result@ == chars@.subrange(from as int, to as int),
{
    let mut result: String = String::new();
    let mut i: usize = from;
    while i < to
        invariant
            from <= i <= to <= chars@.len(),
            result@ =~= chars@.subrange(from as int, i as int),
        decreases to - i,
    {
        result.push(chars[i]);
        i += 1;
    }
    result
}

/// Removes leading and trailing white space.
pub fn trim(s: &str) -> (result: String)
    ensures
        result@ == trimmed(s@),
{
    let chars: Vec<char> = chars_of(s);
    let n: usize = chars.len();
    let mut lo: usize = 0;
    assert(s@.subrange(0, n as int) =~= s@);
    while lo < n && is_white_space(chars[lo])
        invariant
            chars@ == s@,
            n == s@.len(),
            lo <= n,
            trim_start(s@) == trim_start(s@.subrange(lo as int, n as int)),
        decreases n - lo,
    {
        assert(s@.subrange(lo as int, n as int).drop_first() =~= s@.subrange(lo + 1, n as int));
        lo += 1;
    }
    let mut hi: usize = n;
    while lo < hi && is_white_space(chars[hi - 1])
        invariant
            chars@ == s@,
            lo <= hi <= n == s@.len(),
            trimmed(s@) == trim_end(s@.subrange(lo as int, hi as int)),
        decreases hi - lo,
    {
        assert(s@.subrange(lo as int, hi as int).drop_last() =~= s@.subrange(lo as int, hi - 1));
        hi -= 1;
    }
    string_between(&chars, lo, hi)
}

/// Whether a pattern stands in a text at an index.
pub open spec fn occurs_at(s: Seq<char>, p: Seq<char>, i: int) -> bool {
    0 <= i && i + p.len() <= s.len() && s.subrange(i, i + p.len()) == p
}

/// Whether a text contains a pattern.
pub open spec fn includes(s: Seq<char>, p: Seq<char>) -> bool {
    exists|i: int| occurs_at(s, p, i)
}

/// The first index, at or after `i`, at which a pattern stands in a text.
pub open spec fn find_from(s: Seq<char>, p: Seq<char>, i: int) -> Option<int>
    decreases s.len() + 1 - i,
{
    if i < 0 || i + p.len() > s.len() {
        None
    } else if occurs_at(s, p, i) {
        Some(i)
    } else {
        find_from(s, p, i + 1)
    }
}

/// The first index found is the least at which the pattern stands.
pub proof fn lemma_find_least(s: Seq<char>, p: Seq<char>, i: int)
    requires
        0 <= i,
    ensures
        find_from(s, p, i) matches Some(k) ==> {
            &&& i <= k
            &&& occurs_at(s, p, k)
            &&& forall|j: int| i <= j < k ==> !occurs_at(s, p, j)
        },
        find_from(s, p, i) is None ==> forall|j: int| i <= j ==> !occurs_at(s, p, j),
    decreases s.len() + 1 - i,
{
    if i + p.len() > s.len() {
    } else if occurs_at(s, p, i) {
    } else {
        lemma_find_least(s, p, i + 1);
    }
}

/// Whether a pattern stands at an index of a character list.
pub fn matches_at(s: &Vec<char>, p: &Vec<char>, i: usize) -> (result: bool)
    ensures
        result == occurs_at(s@, p@, i as int),
{
    if i > s.len() || s.len() - i < p.len() {
        return false;
    }
    let n: usize = s.len();
    let mut k: usize = 0;
    while k < p.len()
        invariant
            n == s@.len(),
            i + p@.len() <= n,
            k <= p@.len(),
            forall|j: int| 0 <= j < k ==> s@[i + j] == p@[j],
        decreases p@.len() - k,
    {
        if s[i + k] != p[k] {
            assert(s@.subrange(i as int, i + p@.len())[k as int] != p@[k as int]);
            return false;
        }
        k += 1;
    }
    assert(s@.subrange(i as int, i + p@.len()) =~= p@);
    true
}

/// Looks for a pattern in a character list, from an index on.
pub fn find_chars(s: &Vec<char>, p: &Vec<char>, from: usize) -> (result: Option<usize>)
    ensures
        match result {
            Some(k) => find_from(s@, p@, from as int) == Some(k as int),
            None => find_from(s@, p@, from as int) is None,
        },
{
    let mut i: usize = from;
    while i <= s.len() && s.len() - i >= p.len()
        invariant
            from <= i,
            find_from(s@, p@, from as int) == find_from(s@, p@, i as int),
            i <= s@.len() + 1 || i == from,
        decreases s@.len() + 1 - i,
    {
        if matches_at(s, p, i) {
            return Some(i);
        }
        if i == s.len() {
            assert(find_from(s@, p@, i + 1) is None);
            return None;
        }
        i += 1;
    }
    None
}

/// Whether a text contains a pattern.
pub fn contains(s: &str, p: &str) -> (result: bool)
    ensures
        result == includes(s@, p@),
{
    let text: Vec<char> = chars_of(s);
    let pattern: Vec<char> = chars_of(p);
    proof {
        lemma_find_least(s@, p@, 0);
    }
    find_chars(&text, &pattern, 0).is_some()
}

/// Whether a text contains one of several patterns.
pub open spec fn includes_any(s: Seq<char>, patterns: Seq<Seq<char>>) -> bool {
    exists|k: int| 0 <= k < patterns.len() && includes(s, #[trigger] patterns[k])
}

/// Whether a text contains one of several patterns.
pub fn contains_any(s: &str, patterns: &[&str]) -> (result: bool)
    ensures
        result == includes_any(s@, strs(patterns@)),
{
    let mut k: usize = 0;
    while k < patterns.len()
        invariant
            k <= patterns@.len(),
            forall|j: int| 0 <= j < k ==> !includes(s@, #[trigger] strs(patterns@)[j]),
        decreases patterns@.len() - k,
    {
        if contains(s, patterns[k]) {
            assert(includes(s@, strs(patterns@)[k as int]));
            return true;
        }
        k += 1;
    }
    false
}

/// Whether two texts are the same.
pub fn same_text(a: &str, b: &str) -> (result: bool)
    ensures
        result == (a@ == b@),
{
    let x: Vec<char> = chars_of(a);
    let y: Vec<char> = chars_of(b);
    if x.len() != y.len() {
        return false;
    }
    let result: bool = matches_at(&x, &y, 0);
    assert(a@.subrange(0, a@.len() as int) =~= a@);
    result
}

/// Whether a text starts with a prefix.
pub fn starts_with(s: &str, p: &str) -> (result: bool)
    ensures
        result == p@.is_prefix_of(s@),
{
    let text: Vec<char> = chars_of(s);
    let pattern: Vec<char> = chars_of(p);
    let result: bool = matches_at(&text, &pattern, 0);
    proof {
        if result {
            assert(p@ =~= s@.subrange(0, p@.len() as int));
        }
    }
    result
}

/// Whether a text ends with a suffix.
pub fn ends_with(s: &str, p: &str) -> (result: bool)
    ensures
        result == p@.is_suffix_of(s@),
{
    let text: Vec<char> = chars_of(s);
    let pattern: Vec<char> = chars_of(p);
    if pattern.len() > text.len() {
        return false;
    }
    matches_at(&text, &pattern, text.len() - pattern.len())
}

/// What a text is divided at.
#[derive(Clone, Copy)]
pub enum Separator {
    /// One given character.
    Char(char),
    /// Any white space.
    Space,
    /// Any character that is no ASCII letter.
    NonLetter,
}

/// Whether a separator divides a text at a character.
pub open spec fn divides(sep: Separator, c: char) -> bool {
    match sep {
        Separator::Char(d) => c == d,
        Separator::Space => is_space(c),
        Separator::NonLetter => !is_letter(c),
    }
}

/// The pieces of a text between its separators, empty ones included.
pub open spec fn split_at(s: Seq<char>, sep: Separator) -> Seq<Seq<char>>
    decreases s.len(),
{
    if s.len() == 0 {
        seq![Seq::empty()]
    } else {
        let pieces = split_at(s.drop_last(), sep);
        if divides(sep, s.last()) {
            pieces.push(Seq::empty())
        } else {
            pieces.update(pieces.len() - 1, pieces.last().push(s.last()))
        }
    }
}

/// The non-empty ones among several texts.
pub open spec fn non_empty(list: Seq<Seq<char>>) -> Seq<Seq<char>> {
    list.filter(|t: Seq<char>| t.len() > 0)
}

/// Several texts in one, with a separator between each two.
pub open spec fn joined(list: Seq<Seq<char>>, sep: Seq<char>) -> Seq<char>
    decreases list.len(),
{
    if list.len() == 0 {
        Seq::empty()
    } else if list.len() == 1 {
        list[0]
    } else {
        joined(list.drop_last(), sep) + sep + list.last()
    }
}

/// The words of a text, in which white space is normalised to single blanks.
pub open spec fn cleaned(s: Seq<char>) -> Seq<char> {
    joined(non_empty(split_at(s, Separator::Space)), seq![' '])
}

/// A text without the run of one character at its end.
pub open spec fn trim_end_char(s: Seq<char>, c: char) -> Seq<char>
    decreases s.len(),
{
    if s.len() > 0 && s.last() == c {
        trim_end_char(s.drop_last(), c)
    } else {
        s
    }
}

/// The first index, at or after `i`, of a character; the length if there is none.
pub open spec fn index_from(s: Seq<char>, c: char, i: int) -> int
    decreases s.len() - i,
{
    if 0 <= i < s.len() && s[i] != c {
        index_from(s, c, i + 1)
    } else {
        i
    }
}

/// The text before the first occurrence of a character, or all of it.
pub open spec fn before(s: Seq<char>, c: char) -> Seq<char> {
    s.take(index_from(s, c, 0))
}

/// The text after the first occurrence of a character, or nothing.
pub open spec fn after(s: Seq<char>, c: char) -> Seq<char> {
    let k = index_from(s, c, 0);
    if k < s.len() {
        s.skip(k + 1)
    } else {
        Seq::empty()
    }
}

/// The text from an index on, without the occurrences of a pattern.
pub open spec fn without_from(s: Seq<char>, p: Seq<char>, i: int) -> Seq<char>
    decreases s.len() - i,
{
    if i < 0 || i > s.len() || p.len() == 0 {
        s.skip(i)
    } else {
        match find_from(s, p, i) {
            Some(k) => {
                proof {
                    lemma_find_least(s, p, i);
                }
                s.subrange(i, k) + without_from(s, p, k + p.len())
            },
            None => s.skip(i),
        }
    }
}

/// A text without the occurrences of a pattern.
pub open spec fn without(s: Seq<char>, p: Seq<char>) -> Seq<char> {
    without_from(s, p, 0)
}

/// At most the given number of characters from the start of a text.
pub open spec fn first_chars(s: Seq<char>, n: nat) -> Seq<char> {
    if n < s.len() {
        s.take(n as int)
    } else {
        s
    }
}

/// There is at least one piece.
pub proof fn lemma_split_some(s: Seq<char>, sep: Separator)
    ensures
        split_at(s, sep).len() >= 1,
    decreases s.len(),
{
    if s.len() > 0 {
        lemma_split_some(s.drop_last(), sep);
    }
}

/// Whether a separator divides a text at a character.
pub fn is_separator(sep: Separator, c: char) -> (result: bool)
    ensures
        result == divides(sep, c),
{
    match sep {
        Separator::Char(d) => c == d,
        Separator::Space => is_white_space(c),
        Separator::NonLetter => !letter(c),
    }
}

/// Divides a text at its separators.
pub fn split(s: &str, sep: Separator) -> (result: Vec<String>)
    ensures
        texts(result@) == split_at(s@, sep),
{
    let chars: Vec<char> = chars_of(s);
    let mut pieces: Vec<String> = Vec::new();
    let mut current: String = String::new();
    let mut i: usize = 0;
    assert(s@.take(0) =~= Seq::empty());
    assert(texts(pieces@).push(current@) =~= seq![Seq::empty()]);
    while i < chars.len()
        invariant
            chars@ == s@,
            i <= s@.len(),
            texts(pieces@).push(current@) == split_at(s@.take(i as int), sep),
        decreases s@.len() - i,
    {
        let c: char = chars[i];
        let ghost before_step = texts(pieces@).push(current@);
        assert(s@.take(i + 1).drop_last() =~= s@.take(i as int));
        if is_separator(sep, c) {
            pieces.push(current);
            current = String::new();
            assert(texts(pieces@) =~= before_step);
        } else {
            current.push(c);
            assert(texts(pieces@).push(current@) =~= before_step.update(
                before_step.len() - 1,
                before_step.last().push(c),
            ));
        }
        i += 1;
    }
    assert(s@.take(i as int) =~= s@);
    let ghost whole = texts(pieces@).push(current@);
    pieces.push(current);
    assert(texts(pieces@) =~= whole);
    pieces
}

/// Adding one more text at the end adds it if it is not empty.
pub proof fn lemma_non_empty_push(list: Seq<Seq<char>>, t: Seq<char>)
    ensures
        non_empty(list.push(t)) == (if t.len() > 0 {
            non_empty(list).push(t)
        } else {
            non_empty(list)
        }),
{
    reveal(Seq::filter);
    assert(list.push(t).drop_last() =~= list);
}

/// Keeps the non-empty texts.
pub fn keep_non_empty(list: Vec<String>) -> (result: Vec<String>)
    ensures
        texts(result@) == non_empty(texts(list@)),
{
    let mut result: Vec<String> = Vec::new();
    let mut i: usize = 0;
    proof {
        reveal(Seq::filter);
    }
    assert(texts(list@).take(0) =~= Seq::empty());
    assert(texts(result@) =~= non_empty(texts(list@).take(0)));
    while i < list.len()
        invariant
            i <= list@.len(),
            texts(result@) == non_empty(texts(list@).take(i as int)),
        decreases list@.len() - i,
    {
        let ghost kept = texts(result@);
        proof {
            lemma_non_empty_push(texts(list@).take(i as int), list@[i as int]@);
            assert(texts(list@).take(i + 1) =~= texts(list@).take(i as int).push(list@[i as int]@));
        }
        if !list[i].as_str().is_empty() {
            result.push(list[i].clone());
            assert(texts(result@) =~= kept.push(list@[i as int]@));
        }
        i += 1;
    }
    assert(texts(list@).take(i as int) =~= texts(list@));
    result
}

/// Joins several texts.
pub fn join(list: &Vec<String>, sep: &str) -> (result: String)
    ensures
        result@ == joined(texts(list@), sep@),
{
    let mut result: String = String::new();
    let mut i: usize = 0;
    assert(texts(list@).take(0) =~= Seq::empty());
    while i < list.len()
        invariant
            i <= list@.len(),
            result@ == joined(texts(list@).take(i as int), sep@),
        decreases list@.len() - i,
    {
        assert(texts(list@).take(i + 1).drop_last() =~= texts(list@).take(i as int));
        if i > 0 {
            result.append(sep);
        }
        result.append(list[i].as_str());
        i += 1;
    }
    assert(texts(list@).take(i as int) =~= texts(list@));
    result
}

/// Normalises white space: words separated by single blanks.
pub fn clean(s: &str) -> (result: String)
    ensures
        result@ == cleaned(s@),
{
    let words: Vec<String> = keep_non_empty(split(s, Separator::Space));
    proof {
        reveal_strlit(" ");
        assert(" "@ =~= seq![' ']);
    }
    join(&words, " ")
}

/// Removes the run of one character at the end of a text.
pub fn trim_end_matches(s: &str, c: char) -> (result: String)
    ensures
        result@ == trim_end_char(s@, c),
{
    let chars: Vec<char> = chars_of(s);
    let mut hi: usize = chars.len();
    assert(s@.subrange(0, hi as int) =~= s@);
    while 0 < hi && chars[hi - 1] == c
        invariant
            chars@ == s@,
            hi <= s@.len(),
            trim_end_char(s@, c) == trim_end_char(s@.subrange(0, hi as int), c),
        decreases hi,
    {
        assert(s@.subrange(0, hi as int).drop_last() =~= s@.subrange(0, hi - 1));
        hi -= 1;
    }
    string_between(&chars, 0, hi)
}

/// The first index of a character; the length if there is none.
pub fn index_of(chars: &Vec<char>, c: char) -> (result: usize)
    ensures
        result <= chars@.len(),
        result == index_from(chars@, c, 0),
{
    let mut i: usize = 0;
    while i < chars.len() && chars[i] != c
        invariant
            i <= chars@.len(),
            index_from(chars@, c, 0) == index_from(chars@, c, i as int),
        decreases chars@.len() - i,
    {
        i += 1;
    }
    i
}

/// The text before the first occurrence of a character, or all of it.
pub fn text_before(s: &str, c: char) -> (result: String)
    ensures
        result@ == before(s@, c),
{
    let chars: Vec<char> = chars_of(s);
    let k: usize = index_of(&chars, c);
    let result: String = string_between(&chars, 0, k);
    assert(s@.subrange(0, k as int) =~= s@.take(k as int));
    result
}

/// The text after the first occurrence of a character, or nothing.
pub fn text_after(s: &str, c: char) -> (result: String)
    ensures
        result@ == after(s@, c),
{
    let chars: Vec<char> = chars_of(s);
    let n: usize = chars.len();
    let k: usize = index_of(&chars, c);
    if k < n {
        let result: String = string_between(&chars, k + 1, n);
        assert(s@.subrange(k + 1, n as int) =~= s@.skip(k + 1));
        result
    } else {
        String::new()
    }
}

/// Removes the occurrences of a pattern.
pub fn remove_all(s: &str, p: &str) -> (result: String)
    requires
        p@.len() > 0,
    ensures
        result@ == without(s@, p@),
{
    let chars: Vec<char> = chars_of(s);
    let pattern: Vec<char> = chars_of(p);
    let n: usize = chars.len();
    let mut result: String = String::new();
    let mut i: usize = 0;
    assert(without(s@, p@) =~= result@ + without_from(s@, p@, 0));
    loop
        invariant
            chars@ == s@,
            pattern@ == p@,
            p@.len() > 0,
            n == s@.len(),
            i <= n,
            without(s@, p@) == result@ + without_from(s@, p@, i as int),
        decreases n - i,
    {
        proof {
            lemma_find_least(s@, p@, i as int);
        }
        match find_chars(&chars, &pattern, i) {
            Some(k) => {
                let piece: String = string_between(&chars, i, k);
                let ghost done = result@;
                result.append(piece.as_str());
                assert((done + piece@) + without_from(s@, p@, k + p@.len()) =~= done + (piece@
                    + without_from(s@, p@, k + p@.len())));
                i = k + pattern.len();
            },
            None => {
                let piece: String = string_between(&chars, i, n);
                assert(piece@ =~= s@.skip(i as int));
                result.append(piece.as_str());
                return result;
            },
        }
    }
}

/// Keeps at most the given number of characters.
pub fn take_chars(s: &str, n: usize) -> (result: String)
    ensures
        result@ == first_chars(s@, n as nat),
{
    let chars: Vec<char> = chars_of(s);
    let m: usize = if n < chars.len() {
        n
    } else {
        chars.len()
    };
    let result: String = string_between(&chars, 0, m);
    assert(s@.subrange(0, m as int) =~= first_chars(s@, n as nat));
    result
}

/// Whether a full stop stands in a text at an index: a point that is no decimal point.
pub open spec fn full_stop_at(s: Seq<char>, i: int) -> bool {
    &&& 0 <= i < s.len()
    &&& s[i] == '.'
    &&& !(0 < i && i + 1 < s.len() && is_digit(s[i - 1]) && is_digit(s[i + 1]))
}

/// The first index, at or after `i`, of a full stop; the length if there is none.
pub open spec fn sentence_end(s: Seq<char>, i: int) -> int
    decreases s.len() - i,
{
    if 0 <= i < s.len() && !full_stop_at(s, i) {
        sentence_end(s, i + 1)
    } else {
        i
    }
}

/// The index found is that of the first full stop.
pub proof fn lemma_sentence_end(s: Seq<char>, i: int)
    requires
        0 <= i <= s.len(),
    ensures
        i <= sentence_end(s, i) <= s.len(),
        sentence_end(s, i) < s.len() ==> s[sentence_end(s, i)] == '.',
    decreases s.len() - i,
{
    if i < s.len() && !full_stop_at(s, i) {
        lemma_sentence_end(s, i + 1);
    }
}

/// The sentences of a text from an index on: what stands between its full stops.
pub open spec fn sentences_from(s: Seq<char>, i: int) -> Seq<Seq<char>>
    decreases s.len() - i,
{
    if i < 0 || i > s.len() {
        Seq::empty()
    } else {
        proof {
            lemma_sentence_end(s, i);
        }
        let end = sentence_end(s, i);
        if end < s.len() {
            seq![s.subrange(i, end)] + sentences_from(s, end + 1)
        } else {
            seq![s.subrange(i, end)]
        }
    }
}

/// Divides a text at its full stops.
pub fn sentences(s: &str) -> (result: Vec<String>)
    ensures
        texts(result@) == sentences_from(s@, 0),
{
    let chars: Vec<char> = chars_of(s);
    let n: usize = chars.len();
    let mut list: Vec<String> = Vec::new();
    let mut start: usize = 0;
    assert(texts(list@) + sentences_from(s@, 0) =~= sentences_from(s@, 0));
    loop
        invariant
            chars@ == s@,
            n == s@.len(),
            start <= n,
            texts(list@) + sentences_from(s@, start as int) == sentences_from(s@, 0),
        decreases n - start,
    {
        let mut end: usize = start;
        while end < n && !is_full_stop(&chars, end)
            invariant
                chars@ == s@,
                n == s@.len(),
                start <= end <= n,
                sentence_end(s@, start as int) == sentence_end(s@, end as int),
            decreases n - end,
        {
            end += 1;
        }
        let ghost done = texts(list@);
        let piece: String = string_between(&chars, start, end);
        let ghost t = piece@;
        list.push(piece);
        assert(texts(list@) =~= done.push(t));
        if end == n {
            assert(done.push(t) =~= done + seq![t]);
            return list;
        }
        assert(done.push(t) + sentences_from(s@, end + 1) =~= done + (seq![t] + sentences_from(
            s@,
            end + 1,
        )));
        start = end + 1;
    }
}

/// Whether a full stop stands at an index of a character list.
pub fn is_full_stop(chars: &Vec<char>, i: usize) -> (result: bool)
    requires
        i < chars@.len(),
    ensures
        result == full_stop_at(chars@, i as int),
{
    let n: usize = chars.len();
    chars[i] == '.' && !(0 < i && i < n - 1 && digit(chars[i - 1]) && digit(chars[i + 1]))
}

} // verus!
