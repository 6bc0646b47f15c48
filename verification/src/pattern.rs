//! Regular expressions, as the `regex` crate matches them.

use vstd::prelude::*;

use crate::text::optional;

verus! {

/// The groups of the leftmost match of a regular expression in a text, the whole
/// match first; `None` where there is no match or the pattern does not compile.
pub uninterp spec fn regex_groups(pattern: Seq<char>, text: Seq<char>) -> Option<
    Seq<Option<Seq<char>>>,
>;

/// Whether a character has a meaning of its own in a regular expression.
pub open spec fn is_meta(c: char) -> bool {
    seq![
        '\\',
        '.',
        '+',
        '*',
        '?',
        '(',
        ')',
        '|',
        '[',
        ']',
        '{',
        '}',
        '^',
        '$',
        '#',
        '&',
        '-',
        '~',
    ].contains(c)
}

/// The pattern that matches a text literally: a backslash stands before each
/// character that has a meaning of its own.
pub open spec fn regex_literal(text: Seq<char>) -> Seq<char>
    decreases text.len(),
{
    if text.len() == 0 {
        Seq::empty()
    } else if is_meta(text.last()) {
        regex_literal(text.drop_last()).push('\\').push(text.last())
    } else {
        regex_literal(text.drop_last()).push(text.last())
    }
}

/// The views of several optional texts.
pub open spec fn optionals(list: Seq<Option<String>>) -> Seq<Option<Seq<char>>> {
    list.map_values(|t: Option<String>| optional(t))
}

/// `regex::Regex::new` and `Regex::captures`: the groups of the leftmost match
/// are a function of the pattern and the text, and the whole match, the first
/// group, is always present.
#[verifier::external_body]
pub(crate) fn captures(pattern: &str, text: &str) -> (result: Option<Vec<Option<String>>>)
    ensures
        match result {
            Some(groups) => {
                &&& regex_groups(pattern@, text@) == Some(optionals(groups@))
                &&& groups@.len() >= 1
                &&& groups@[0] is Some
            },
            None => regex_groups(pattern@, text@) is None,
        },
{
    let found = regex::Regex::new(pattern).ok()?;
    let groups = found.captures(text)?;
    Some(groups.iter().map(|g| g.map(|m| m.as_str().to_string())).collect())
}

/// `regex::escape`: the text with a backslash before each of the eighteen characters
/// that have a meaning of their own in a regular expression.
#[verifier::external_body]
pub(crate) fn escape(text: &str) -> (result: String)
    ensures
        result@ == regex_literal(text@),
{
    regex::escape(text)
}

/// A group of a match; `None` where there is no match or no such group in it.
pub open spec fn group_of(groups: Option<Seq<Option<Seq<char>>>>, k: int) -> Option<Seq<char>> {
    match groups {
        Some(list) => if 0 <= k < list.len() {
            list[k]
        } else {
            None
        },
        None => None,
    }
}

/// A group of a match.
pub fn group(groups: &Option<Vec<Option<String>>>, k: usize) -> (result: Option<String>)
    ensures
        optional(result) == group_of(
            match *groups {
                Some(list) => Some(optionals(list@)),
                None => None,
            },
            k as int,
        ),
{
    match groups {
        Some(list) => if k < list.len() {
            match &list[k] {
                Some(t) => Some(t.clone()),
                None => None,
            }
        } else {
            None
        },
        None => None,
    }
}

/// A group of a match is the one at its index.
pub proof fn law_groups(list: Seq<Option<Seq<char>>>, k: int)
    ensures
        0 <= k < list.len() ==> group_of(Some(list), k) == list[k],
        k < 0 || k >= list.len() ==> group_of(Some(list), k) is None,
        group_of(None, k) is None,
{
}

/// Letters, digits and blanks stand for themselves in a pattern, and characters with a
/// meaning of their own behind a backslash.
pub proof fn law_literal_patterns(s: Seq<char>, c: char)
    ensures
        regex_literal(Seq::empty()) == Seq::<char>::empty(),
        'a' <= c <= 'z' || 'A' <= c <= 'Z' || '0' <= c <= '9' || c == ' ' ==> regex_literal(
            s.push(c),
        ) == regex_literal(s).push(c),
        c == '.' || c == '+' || c == '*' || c == '?' || c == '(' || c == ')' || c == '[' || c == ']'
            || c == '|' || c == '\\' ==> regex_literal(s.push(c)) == regex_literal(s).push('\\').push(c),
{
    assert(s.push(c).drop_last() =~= s);
    let metas = seq![
        '\\',
        '.',
        '+',
        '*',
        '?',
        '(',
        ')',
        '|',
        '[',
        ']',
        '{',
        '}',
        '^',
        '$',
        '#',
        '&',
        '-',
        '~',
    ];
    assert(metas[0] == '\\' && metas[1] == '.' && metas[2] == '+' && metas[3] == '*' && metas[4]
        == '?' && metas[5] == '(' && metas[6] == ')' && metas[7] == '|' && metas[8] == '['
        && metas[9] == ']');
}

} // verus!
