//! Course URLs.

use vstd::prelude::*;
use vstd::utf8::is_ascii_chars;

use crate::text::{
    before, chars_of, contains, contains_any, ends_with, includes, includes_any, keep_non_empty,
    non_empty, occurs_at, split, split_at, starts_with, strs, text_before, texts, trim,
    trim_end_char, trim_end_matches, trimmed, Separator,
};
use crate::text_laws::{law_before, law_before_append, law_trimmed_ends, law_trimmed_solid};
use crate::unicode::{lower, to_lower, upper};

verus! {

/// The site whose courses are collected.
pub const BASE: &'static str = "https://www.coventry.ac.uk";

/// The query parameter that names an intake year.
pub const TERM_QUERY: &'static str = "?term=";

/// How many segments the URL of a course page has at least behind its scheme: the domain,
/// `course-structure`, the level, the faculty and the slug.
pub const STRUCTURE_DEPTH: usize = 5;

/// How many segments the legacy URL of a course page has at least: the scheme, the
/// domain, `courses`, the level and the slug.
pub const LEGACY_SEGMENTS: usize = 5;

/// The path parts under which course pages live.
pub open spec fn structure_paths() -> Seq<Seq<char>> {
    seq![
        "/course-structure/ug/"@,
        "/course-structure/pg/"@,
        "/course-structure/research/"@,
    ]
}

/// The path parts of the legacy URLs of course pages.
pub open spec fn legacy_paths() -> Seq<Seq<char>> {
    seq!["/courses/undergraduate/"@, "/courses/postgraduate/"@, "/courses/research/"@]
}

/// The ends of category index pages.
pub open spec fn index_ends() -> Seq<Seq<char>> {
    seq![
        "/course-structure/ug/"@,
        "/course-structure/pg/"@,
        "/course-structure/"@,
        "/courses/undergraduate/"@,
        "/courses/postgraduate/"@,
        "/courses/"@,
    ]
}

/// Whether a text ends with one of several suffixes.
pub open spec fn ends_with_any(s: Seq<char>, suffixes: Seq<Seq<char>>) -> bool {
    exists|k: int| 0 <= k < suffixes.len() && (#[trigger] suffixes[k]).is_suffix_of(s)
}

/// The non-empty segments of a path.
pub open spec fn segments(path: Seq<char>) -> Seq<Seq<char>> {
    non_empty(split_at(trim_end_char(path, '/'), Separator::Char('/')))
}

/// The segments behind the scheme of a URL, if it has one.
pub open spec fn behind_scheme(list: Seq<Seq<char>>) -> Seq<Seq<char>> {
    if list.len() > 0 && list[0].last() == ':' {
        list.drop_first()
    } else {
        list
    }
}

/// How many segments a URL has behind its scheme and before its query.
pub open spec fn depth(url: Seq<char>) -> nat {
    behind_scheme(segments(before(url, '?'))).len()
}

/// Whether a lowercase URL is that of a course detail page: on the site, no category
/// index page, and deep enough under a course path to name a course.
pub open spec fn course_url_lower(url: Seq<char>) -> bool {
    &&& includes(url, "coventry.ac.uk"@)
    &&& !ends_with_any(url, index_ends())
    &&& {
        ||| includes_any(url, structure_paths()) && depth(url) >= STRUCTURE_DEPTH
        ||| includes_any(url, legacy_paths()) && segments(before(url, '?')).len()
            >= LEGACY_SEGMENTS
    }
}

/// Whether a URL is that of a course detail page, in any case.
pub open spec fn course_url(url: Seq<char>) -> bool {
    course_url_lower(lower(url))
}

/// The last segment of a URL's path: what tells courses apart, whatever the intake
/// year that the query names.
pub open spec fn slug(url: Seq<char>) -> Seq<char> {
    let path = before(url, '?');
    if segments(path).len() > 0 {
        segments(path).last()
    } else {
        path
    }
}

/// A link as a full URL, where it is given by its path.
pub open spec fn full_url(href: Seq<char>) -> Seq<char> {
    let link = trimmed(href);
    if !"http"@.is_prefix_of(link) && "/"@.is_prefix_of(link) {
        BASE@ + link
    } else {
        link
    }
}

/// Whether a URL names an intake year.
pub open spec fn has_term(url: Seq<char>) -> bool {
    includes(url, TERM_QUERY@)
}

/// Whether a text ends with one of several suffixes.
fn ends_with_one(s: &str, suffixes: &[&str]) -> (result: bool)
    ensures
        result == ends_with_any(s@, strs(suffixes@)),
{
    let mut k: usize = 0;
    while k < suffixes.len()
        invariant
            k <= suffixes@.len(),
            forall|j: int|
                0 <= j < k ==> !(#[trigger] strs(suffixes@)[j]).is_suffix_of(s@),
        decreases suffixes@.len() - k,
    {
        if ends_with(s, suffixes[k]) {
            assert(strs(suffixes@)[k as int].is_suffix_of(s@));
            return true;
        }
        k += 1;
    }
    false
}

/// The non-empty segments of a path.
fn path_segments(path: &str) -> (result: Vec<String>)
    ensures
        texts(result@) == segments(path@),
{
    keep_non_empty(split(trim_end_matches(path, '/').as_str(), Separator::Char('/')))
}

/// How many segments a URL has before its query, and how many of them stand behind its
/// scheme.
fn path_depth(url: &str) -> (result: (usize, usize))
    ensures
        result.0 == segments(before(url@, '?')).len(),
        result.1 == depth(url@),
{
    let list: Vec<String> = path_segments(text_before(url, '?').as_str());
    let n: usize = list.len();
    let ghost all = texts(list@);
    assert(all.len() == n);
    if n == 0 {
        return (0, 0);
    }
    assert(all[0] == list@[0]@);
    let first: Vec<char> = chars_of(list[0].as_str());
    let m: usize = first.len();
    proof {
        lemma_segments_not_empty(before(url@, '?'));
    }
    if first[m - 1] == ':' {
        (n, n - 1)
    } else {
        (n, n)
    }
}

/// No segment is empty.
proof fn lemma_segments_not_empty(path: Seq<char>)
    ensures
        forall|i: int| 0 <= i < segments(path).len() ==> (#[trigger] segments(path)[i]).len() > 0,
{
    let pieces = split_at(trim_end_char(path, '/'), Separator::Char('/'));
    assert forall|i: int| 0 <= i < segments(path).len() implies (#[trigger] segments(
        path,
    )[i]).len() > 0 by {
        pieces.lemma_filter_pred(|t: Seq<char>| t.len() > 0, i);
    }
}

/// Returns true for the lowercase URL of a course detail page.
pub fn is_lower_course_url(url: &str) -> (result: bool)
    ensures
        result == course_url_lower(url@),
{
    let structure: [&str; 3] = [
        "/course-structure/ug/",
        "/course-structure/pg/",
        "/course-structure/research/",
    ];
    let legacy: [&str; 3] = [
        "/courses/undergraduate/",
        "/courses/postgraduate/",
        "/courses/research/",
    ];
    let ends: [&str; 6] = [
        "/course-structure/ug/",
        "/course-structure/pg/",
        "/course-structure/",
        "/courses/undergraduate/",
        "/courses/postgraduate/",
        "/courses/",
    ];
    assert(strs(structure@) =~= structure_paths());
    assert(strs(legacy@) =~= legacy_paths());
    assert(strs(ends@) =~= index_ends());
    if !contains(url, "coventry.ac.uk") || ends_with_one(url, &ends) {
        return false;
    }
    let (count, behind): (usize, usize) = path_depth(url);
    (contains_any(url, &structure) && behind >= STRUCTURE_DEPTH) || (contains_any(url, &legacy)
        && count >= LEGACY_SEGMENTS)
}

/// Returns true for individual course detail pages.
///
/// Matches both the current `/course-structure/{ug|pg|research}/{faculty}/{slug}/`
/// URL scheme and the legacy `/courses/{level}/` scheme.
pub fn is_course_url(url: &str) -> (result: bool)
    ensures
        result == course_url(url@),
{
    is_lower_course_url(to_lower(url).as_str())
}

/// Extracts a stable course slug from a URL, stripping query parameters.
///
/// `/course-structure/pg/bl/accounting-msc/?term=2025-26` has the slug
/// `accounting-msc`. It tells whether two URLs are those of one course under
/// different intake years.
pub fn course_slug(url: &str) -> (result: String)
    ensures
        result@ == slug(url@),
{
    let path: String = text_before(url, '?');
    let list: Vec<String> = path_segments(path.as_str());
    let n: usize = list.len();
    assert(texts(list@).len() == n);
    if n > 0 {
        assert(texts(list@)[n - 1] == list@[n - 1]@);
        list[n - 1].clone()
    } else {
        path
    }
}

/// Makes a link a full URL, where it is given by its path.
pub fn normalise_url(href: &str) -> (result: String)
    ensures
        result@ == full_url(href@),
{
    let link: String = trim(href);
    if !starts_with(link.as_str(), "http") && starts_with(link.as_str(), "/") {
        let mut url: String = BASE.to_string();
        url.append(link.as_str());
        url
    } else {
        link
    }
}

/// Whether a URL names an intake year.
pub fn names_term(url: &str) -> (result: bool)
    ensures
        result == has_term(url@),
{
    contains(url, TERM_QUERY)
}

/// The slug of a URL is that of its path: URLs that differ in the query only, such
/// as in the intake year, have one slug.
pub proof fn law_slug_ignores_query(path: Seq<char>, query: Seq<char>)
    requires
        !path.contains('?'),
    ensures
        slug(path.push('?') + query) == slug(path),
{
    law_before(path, '?');
    law_before_append(path, '?', query);
}

/// A full URL stays as it is.
pub proof fn law_full_url_idempotent(href: Seq<char>)
    ensures
        full_url(full_url(href)) == full_url(href),
{
    let link = trimmed(href);
    let url = full_url(href);
    law_trimmed_ends(href);
    reveal_strlit("http");
    reveal_strlit("/");
    reveal_strlit("https://www.coventry.ac.uk");
    if !"http"@.is_prefix_of(link) && "/"@.is_prefix_of(link) {
        assert(link.len() > 0);
        assert(url[0] == BASE@[0]);
        assert(url.last() == link.last());
        law_trimmed_solid(url);
        assert("http"@ =~= url.subrange(0, 4));
        assert("http"@.is_prefix_of(url));
    } else {
        law_trimmed_solid(link);
    }
}

/// A pattern that a text holds is held by a longer text that starts with it.
proof fn lemma_includes_prefix(s: Seq<char>, rest: Seq<char>, p: Seq<char>)
    requires
        includes(s, p),
    ensures
        includes(s + rest, p),
{
    let i = choose|i: int| occurs_at(s, p, i);
    assert((s + rest).subrange(i, i + p.len()) =~= s.subrange(i, i + p.len()));
    assert(occurs_at(s + rest, p, i));
}

/// One of several patterns that a text holds is held by a longer text that starts
/// with it.
proof fn lemma_includes_any_prefix(s: Seq<char>, rest: Seq<char>, patterns: Seq<Seq<char>>)
    requires
        includes_any(s, patterns),
    ensures
        includes_any(s + rest, patterns),
{
    let k = choose|k: int| 0 <= k < patterns.len() && includes(s, #[trigger] patterns[k]);
    lemma_includes_prefix(s, rest, patterns[k]);
}

/// A text that does not end with a slash is no category index page.
pub proof fn lemma_no_index_end(s: Seq<char>)
    requires
        s.len() > 0,
        s.last() != '/',
    ensures
        !ends_with_any(s, index_ends()),
{
    reveal_strlit("/course-structure/ug/");
    reveal_strlit("/course-structure/pg/");
    reveal_strlit("/course-structure/");
    reveal_strlit("/courses/undergraduate/");
    reveal_strlit("/courses/postgraduate/");
    reveal_strlit("/courses/");
    assert forall|k: int| 0 <= k < index_ends().len() implies !(#[trigger] index_ends()[k])
        .is_suffix_of(s) by {
        let end = index_ends()[k];
        assert(end.len() > 0 && end[end.len() - 1] == '/');
        if end.is_suffix_of(s) {
            let n = s.len() as int;
            assert(s.subrange(n - end.len(), n)[end.len() - 1] == s[n - 1]);
        }
    }
}

/// A lowercase URL without a query that is that of a course page stays one with a
/// query, such as one that names an intake year. Queries that end with a slash are
/// left out: a URL that ends like a category index page is taken for one.
pub proof fn law_query_keeps_course_url(url: Seq<char>, query: Seq<char>)
    requires
        course_url_lower(url),
        !url.contains('?'),
        query.len() > 0 ==> query.last() != '/',
    ensures
        course_url_lower(url.push('?') + query),
{
    let whole = url.push('?') + query;
    assert(whole =~= url + (seq!['?'] + query));
    lemma_includes_prefix(url, seq!['?'] + query, "coventry.ac.uk"@);
    if includes_any(url, structure_paths()) {
        lemma_includes_any_prefix(url, seq!['?'] + query, structure_paths());
    }
    if includes_any(url, legacy_paths()) {
        lemma_includes_any_prefix(url, seq!['?'] + query, legacy_paths());
    }
    law_before(url, '?');
    law_before_append(url, '?', query);
    assert(whole.last() == if query.len() > 0 {
        query.last()
    } else {
        '?'
    });
    lemma_no_index_end(whole);
}

/// An ASCII text and its uppercase form have the same lowercase form.
pub proof fn lemma_lower_of_upper(s: Seq<char>)
    requires
        is_ascii_chars(s),
    ensures
        is_ascii_chars(upper(s)),
        lower(upper(s)) == lower(s),
{
    assert forall|i: int| 0 <= i < s.len() implies '\0' <= #[trigger] upper(s)[i] <= '\u{7f}' by {
        assert('\0' <= s[i] <= '\u{7f}');
    }
    assert(lower(upper(s)) =~= lower(s));
}

/// A URL that is that of a course page stays one with a query that does not end with a
/// slash, wherever the lowercase form of the whole is made of those of its parts.
pub proof fn law_query_keeps_course_url_in_any_case(url: Seq<char>, query: Seq<char>)
    requires
        course_url(url),
        !lower(url).contains('?'),
        lower(url.push('?') + query) == lower(url).push('?') + lower(query),
        lower(query).len() > 0 ==> lower(query).last() != '/',
    ensures
        course_url(url.push('?') + query),
{
    law_query_keeps_course_url(lower(url), lower(query));
}

/// An ASCII URL that is that of a course page stays one with an ASCII query that does
/// not end with a slash, and in uppercase.
pub proof fn law_course_url_in_any_case(url: Seq<char>, query: Seq<char>)
    requires
        is_ascii_chars(url),
        is_ascii_chars(query),
        course_url(url),
        !url.contains('?'),
        query.len() > 0 ==> query.last() != '/',
    ensures
        course_url(url.push('?') + query),
        course_url(upper(url)),
{
    let whole = url.push('?') + query;
    lemma_lower_of_upper(url);
    assert(is_ascii_chars(whole)) by {
        assert forall|i: int| 0 <= i < whole.len() implies '\0' <= #[trigger] whole[i]
            <= '\u{7f}' by {
            if i < url.len() {
                assert(whole[i] == url[i]);
            } else if i > url.len() {
                assert(whole[i] == query[i - url.len() - 1]);
            }
        }
    }
    assert(lower(whole) =~= lower(url).push('?') + lower(query));
    assert forall|i: int| 0 <= i < lower(url).len() implies lower(url)[i] != '?' by {
        assert(url.contains(url[i]));
    }
    law_query_keeps_course_url_in_any_case(url, query);
}

} // verus!
