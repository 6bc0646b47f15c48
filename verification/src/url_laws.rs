//! Which URLs are those of courses, and where they are looked for.

use vstd::prelude::*;
use vstd::utf8::is_ascii_chars;

use crate::discovery::{
    fallback_result, fallback_urls, next_candidate, next_step, valid_urls, NextStep, Strategy,
};
use crate::fallback_laws::{is_plain, lemma_split_segment};
use crate::dom::PageView;
use crate::sitemap::{course_links, is_likely, law_all_course_links, search_pages, walk_order};
use crate::text::{
    before, includes, includes_any, lemma_non_empty_push, non_empty, occurs_at, split_at, trimmed,
    Separator,
};
use crate::text_laws::{law_before, law_before_append};
use crate::unicode::{ascii_lower, lower};
use crate::urls::{
    course_url, ends_with_any, full_url, has_term, index_ends, legacy_paths, lemma_no_index_end,
    segments, slug, structure_paths,
};

verus! {

/// A text holds one of three patterns exactly where it holds one of them.
proof fn lemma_three(s: Seq<char>, list: Seq<Seq<char>>)
    requires
        list.len() == 3,
    ensures
        includes_any(s, list) == (includes(s, list[0]) || includes(s, list[1]) || includes(
            s,
            list[2],
        )),
{
    if includes_any(s, list) {
        let k = choose|k: int| 0 <= k < list.len() && includes(s, #[trigger] list[k]);
        assert(k == 0 || k == 1 || k == 2);
    }
}

/// The ends of category index pages are the six known ones.
proof fn lemma_index_ends(s: Seq<char>)
    ensures
        ends_with_any(s, index_ends()) == ("/course-structure/ug/"@.is_suffix_of(s)
            || "/course-structure/pg/"@.is_suffix_of(s) || "/course-structure/"@.is_suffix_of(s)
            || "/courses/undergraduate/"@.is_suffix_of(s) || "/courses/postgraduate/"@.is_suffix_of(
            s,
        ) || "/courses/"@.is_suffix_of(s)),
{
    let all = index_ends();
    assert(all[0] == "/course-structure/ug/"@ && all[1] == "/course-structure/pg/"@ && all[2]
        == "/course-structure/"@ && all[3] == "/courses/undergraduate/"@ && all[4]
        == "/courses/postgraduate/"@ && all[5] == "/courses/"@);
    if ends_with_any(s, all) {
        let k = choose|k: int| 0 <= k < all.len() && (#[trigger] all[k]).is_suffix_of(s);
        assert(k == 0 || k == 1 || k == 2 || k == 3 || k == 4 || k == 5);
    }
}

/// A URL is that of a course exactly where it is on the site, ends like no category index,
/// and lies under one of the course paths: of the current scheme with at least five
/// segments behind the scheme, or of the legacy scheme with at least five segments in all.
pub proof fn law_course_urls(url: Seq<char>)
    ensures
        ({
            let l = lower(url);
            let parts = segments(before(l, '?'));
            let behind = if parts.len() > 0 && parts[0].last() == ':' {
                parts.len() - 1
            } else {
                parts.len() as int
            };
            let index = "/course-structure/ug/"@.is_suffix_of(l)
                || "/course-structure/pg/"@.is_suffix_of(l) || "/course-structure/"@.is_suffix_of(l)
                || "/courses/undergraduate/"@.is_suffix_of(l)
                || "/courses/postgraduate/"@.is_suffix_of(l) || "/courses/"@.is_suffix_of(l);
            let structure = includes(l, "/course-structure/ug/"@) || includes(
                l,
                "/course-structure/pg/"@,
            ) || includes(l, "/course-structure/research/"@);
            let legacy = includes(l, "/courses/undergraduate/"@) || includes(
                l,
                "/courses/postgraduate/"@,
            ) || includes(l, "/courses/research/"@);
            course_url(url) <==> includes(l, "coventry.ac.uk"@) && !index && ((structure && behind
                >= 5) || (legacy && parts.len() >= 5))
        }),
{
    let l = lower(url);
    lemma_three(l, structure_paths());
    lemma_three(l, legacy_paths());
    lemma_index_ends(l);
}

/// Slashes at the end add no segment.
proof fn lemma_trim_keeps_segments(path: Seq<char>)
    ensures
        non_empty(split_at(path, Separator::Char('/'))) == segments(path),
    decreases path.len(),
{
    if path.len() > 0 && path.last() == '/' {
        let front = path.drop_last();
        lemma_trim_keeps_segments(front);
        lemma_non_empty_push(split_at(front, Separator::Char('/')), Seq::empty());
    }
}

/// The segments of a path are what stands between its slashes, as far as it is not empty:
/// one more slash adds none, and one more name behind a slash adds that.
pub proof fn law_segments(path: Seq<char>, name: Seq<char>)
    requires
        !name.contains('/'),
        name.len() > 0,
    ensures
        segments(Seq::empty()).len() == 0,
        segments(name) == seq![name],
        segments(path.push('/')) == segments(path),
        segments(path.push('/') + name) == segments(path).push(name),
{
    let sep = Separator::Char('/');
    let none = Seq::<char>::empty();
    assert forall|i: int| 0 <= i < name.len() implies #[trigger] name[i] != '/' by {
        assert(name.contains(name[i]));
    }
    lemma_split_segment(path, name);
    lemma_trim_keeps_segments(none);
    lemma_trim_keeps_segments(name);
    lemma_trim_keeps_segments(path);
    lemma_trim_keeps_segments(path.push('/'));
    lemma_trim_keeps_segments(path.push('/') + name);
    lemma_non_empty_push(split_at(path, sep), name);
    lemma_non_empty_push(split_at(path, sep), none);
    assert(path.push('/').drop_last() =~= path);
    reveal(Seq::filter);
    let nothing = Seq::<Seq<char>>::empty();
    lemma_non_empty_push(nothing, name);
    lemma_non_empty_push(nothing, none);
    assert(non_empty(nothing) =~= nothing);
    assert(nothing.push(name) =~= seq![name]);
    assert(nothing.push(none) =~= seq![none]);
}

/// The slug of a URL is the last segment of its path, with or without a slash and a query
/// behind it.
pub proof fn law_slug_is_the_last_segment(path: Seq<char>, name: Seq<char>, query: Seq<char>)
    requires
        !path.contains('?'),
        !name.contains('?'),
        !name.contains('/'),
        name.len() > 0,
    ensures
        slug(path.push('/') + name) == name,
        slug((path.push('/') + name).push('/')) == name,
        slug((path.push('/') + name).push('?') + query) == name,
        slug((path.push('/') + name).push('/').push('?') + query) == name,
{
    let whole = path.push('/') + name;
    law_segments(path, name);
    law_segments(whole, name);
    assert forall|i: int| 0 <= i < whole.len() implies whole[i] != '?' by {
        if i < path.len() {
            assert(path.contains(path[i]));
        } else if i > path.len() {
            assert(name.contains(name[i - path.len() - 1]));
        }
    }
    assert(!whole.contains('?'));
    assert(!whole.push('/').contains('?'));
    law_before(whole, '?');
    law_before(whole.push('/'), '?');
    law_before_append(whole, '?', query);
    law_before_append(whole.push('/'), '?', query);
}

/// Whether a text can be the name of a faculty or of a course in a URL.
pub open spec fn is_url_name(s: Seq<char>) -> bool {
    s.len() > 0 && forall|i: int| 0 <= i < s.len() ==> is_plain(#[trigger] s[i])
}

/// The URL of a course page of the current scheme, without the slash at its end.
pub open spec fn page_url(level: Seq<char>, faculty: Seq<char>, name: Seq<char>) -> Seq<char> {
    "https://www.coventry.ac.uk/course-structure"@.push('/') + level.push('/') + faculty.push('/')
        + name
}

/// A name in a URL is lowercase and holds no slash and no question mark.
proof fn lemma_url_name(s: Seq<char>)
    requires
        is_url_name(s),
    ensures
        !s.contains('/'),
        !s.contains('?'),
        forall|i: int|
            0 <= i < s.len() ==> '\0' <= #[trigger] s[i] <= '\u{7f}' && ascii_lower(s[i]) == s[i],
{
    assert forall|i: int| 0 <= i < s.len() implies s[i] != '/' && s[i] != '?' by {
        assert(is_plain(s[i]));
    }
    assert forall|i: int| 0 <= i < s.len() implies '\0' <= #[trigger] s[i] <= '\u{7f}'
        && ascii_lower(s[i]) == s[i] by {
        assert(is_plain(s[i]));
    }
}

/// The segments of the address under which the courses lie.
proof fn lemma_base_url()
    ensures
        "https://www.coventry.ac.uk/course-structure"@.len() == 43,
        segments("https://www.coventry.ac.uk/course-structure"@) == seq![
            "https:"@,
            "www.coventry.ac.uk"@,
            "course-structure"@,
        ],
        forall|i: int|
            0 <= i < 43 ==> {
                let c = #[trigger] "https://www.coventry.ac.uk/course-structure"@[i];
                '\0' <= c <= '\u{7f}' && ascii_lower(c) == c && c != '?'
            },
        "https:"@.len() == 6 && "https:"@[5] == ':',
{
    let base = "https://www.coventry.ac.uk/course-structure"@;
    reveal_strlit("https://www.coventry.ac.uk/course-structure");
    reveal_strlit("https:");
    reveal_strlit("www.coventry.ac.uk");
    reveal_strlit("course-structure");
    let a = "https:"@.push('/');
    let b = a.push('/') + "www.coventry.ac.uk"@;
    assert(base =~= b.push('/') + "course-structure"@);
    assert(!"https:"@.contains('/'));
    assert(!"www.coventry.ac.uk"@.contains('/'));
    assert(!"course-structure"@.contains('/'));
    law_segments(Seq::empty(), "https:"@);
    law_segments("https:"@, "https:"@);
    law_segments(a, "www.coventry.ac.uk"@);
    law_segments(b, "course-structure"@);
    assert(segments(base) =~= seq!["https:"@, "www.coventry.ac.uk"@, "course-structure"@]);
}

/// Every page below a level, a faculty and a slug is that of a course.
#[verifier::rlimit(40)]
pub proof fn law_course_pages(level: Seq<char>, faculty: Seq<char>, name: Seq<char>)
    requires
        level == "ug"@ || level == "pg"@ || level == "research"@,
        is_url_name(faculty),
        is_url_name(name),
    ensures
        course_url(page_url(level, faculty, name)),
        slug(page_url(level, faculty, name)) == name,
{
    let base = "https://www.coventry.ac.uk/course-structure"@;
    let url = page_url(level, faculty, name);
    lemma_base_url();
    reveal_strlit("ug");
    reveal_strlit("pg");
    reveal_strlit("research");
    assert(is_url_name(level));
    lemma_url_name(level);
    lemma_url_name(faculty);
    lemma_url_name(name);
    let one = base.push('/') + level;
    let two = one.push('/') + faculty;
    assert(url =~= two.push('/') + name);
    law_segments(base, level);
    law_segments(one, faculty);
    law_segments(two, name);
    let parts = segments(url);
    assert(parts.len() == 6 && parts[0] == "https:"@);
    assert forall|i: int| 0 <= i < url.len() implies '\0' <= #[trigger] url[i] <= '\u{7f}'
        && ascii_lower(url[i]) == url[i] && url[i] != '?' by {
        let x = 44 + level.len();
        let y = x + 1 + faculty.len();
        if i < 43 {
            assert(url[i] == base[i]);
        } else if i == 43 {
        } else if i < x {
            assert(url[i] == level[i - 44]);
            assert(is_plain(level[i - 44]));
        } else if i == x {
        } else if i < y {
            assert(url[i] == faculty[i - x - 1]);
            assert(is_plain(faculty[i - x - 1]));
        } else if i == y {
        } else {
            assert(url[i] == name[i - y - 1]);
            assert(is_plain(name[i - y - 1]));
        }
    }
    assert(is_ascii_chars(url));
    assert(lower(url) =~= url);
    assert(!url.contains('?'));
    law_before(url, '?');
    law_course_urls(url);
    assert(url.last() == name[name.len() - 1] && is_plain(name[name.len() - 1]));
    lemma_no_index_end(url);
    lemma_index_ends(url);
    assert(url.take(43) =~= base);
    assert(url.subrange(44, (44 + level.len()) as int) =~= level);
    lemma_site_in_url(url);
    lemma_level_in_url(url, level);
}

/// A URL under that address names the site.
proof fn lemma_site_in_url(url: Seq<char>)
    requires
        url.len() >= 43,
        url.take(43) == "https://www.coventry.ac.uk/course-structure"@,
    ensures
        includes(url, "coventry.ac.uk"@),
{
    reveal_strlit("https://www.coventry.ac.uk/course-structure");
    reveal_strlit("coventry.ac.uk");
    assert(url.subrange(12, 26) =~= url.take(43).subrange(12, 26));
    assert(url.subrange(12, 26) =~= "coventry.ac.uk"@);
    assert(occurs_at(url, "coventry.ac.uk"@, 12));
}

/// A URL under that address and a level holds the path of the level.
proof fn lemma_level_in_url(url: Seq<char>, level: Seq<char>)
    requires
        level == "ug"@ || level == "pg"@ || level == "research"@,
        url.len() >= 45 + level.len(),
        url.take(43) == "https://www.coventry.ac.uk/course-structure"@,
        url[43] == '/',
        url.subrange(44, (44 + level.len()) as int) == level,
        url[(44 + level.len()) as int] == '/',
    ensures
        level == "ug"@ ==> includes(url, "/course-structure/ug/"@),
        level == "pg"@ ==> includes(url, "/course-structure/pg/"@),
        level == "research"@ ==> includes(url, "/course-structure/research/"@),
{
    let base = url.take(43);
    let tail = url.subrange(44, (44 + level.len()) as int);
    reveal_strlit("https://www.coventry.ac.uk/course-structure");
    reveal_strlit("ug");
    reveal_strlit("pg");
    reveal_strlit("research");
    reveal_strlit("/course-structure/ug/");
    reveal_strlit("/course-structure/pg/");
    reveal_strlit("/course-structure/research/");
    let end = (45 + level.len()) as int;
    let part = url.subrange(26, end);
    assert(part =~= base.subrange(26, 43) + seq!['/'] + tail + seq!['/']);
    if level == "ug"@ {
        assert(part =~= "/course-structure/ug/"@);
        assert(occurs_at(url, "/course-structure/ug/"@, 26));
    }
    if level == "pg"@ {
        assert(part =~= "/course-structure/pg/"@);
        assert(occurs_at(url, "/course-structure/pg/"@, 26));
    }
    if level == "research"@ {
        assert(part =~= "/course-structure/research/"@);
        assert(occurs_at(url, "/course-structure/research/"@, 26));
    }
}

/// A link that starts with a slash is one on the site; any other one is as it is but for
/// white space around it.
pub proof fn law_full_urls(href: Seq<char>)
    ensures
        trimmed(href).len() > 0 && trimmed(href)[0] == '/' ==> full_url(href)
            == "https://www.coventry.ac.uk"@ + trimmed(href),
        trimmed(href).len() == 0 || trimmed(href)[0] != '/' ==> full_url(href) == trimmed(href),
{
    let link = trimmed(href);
    reveal_strlit("http");
    reveal_strlit("/");
    if link.len() > 0 {
        assert(link.subrange(0, 1) =~= seq![link[0]]);
        assert("/"@ =~= seq!['/']);
        if "http"@.is_prefix_of(link) {
            assert("http"@[0] == link.subrange(0, 4)[0]);
        }
        if "/"@.is_prefix_of(link) {
            assert("/"@[0] == link.subrange(0, 1)[0]);
        }
    }
}

/// A URL names an intake year exactly where it holds the query `?term=`.
pub proof fn law_urls_with_a_term(url: Seq<char>)
    ensures
        has_term(url) == includes(url, "?term="@),
{
}

/// The sitemaps that come first are those whose URL speaks of courses or pages.
pub proof fn law_likely_sitemaps(url: Seq<char>)
    ensures
        is_likely(url) == (includes(url, "course"@) || includes(url, "page"@)),
{
}

/// A strategy that found something is used; one that failed or found nothing gives way to
/// the next: the sitemaps, the listing pages, the homepage, the known URLs, whatever
/// those give.
pub proof fn law_order_of_strategies(strategy: Strategy, n: nat)
    ensures
        n > 0 ==> next_step(strategy, Some(n)) == NextStep::Use,
        next_step(Strategy::Sitemap, None) == NextStep::Try(Strategy::Listing),
        next_step(Strategy::Listing, None) == NextStep::Try(Strategy::Homepage),
        next_step(Strategy::Homepage, None) == NextStep::Try(Strategy::Fallback),
        next_step(Strategy::Fallback, None) == NextStep::Use,
        next_step(strategy, Some(0nat)) == next_step(strategy, None),
{
}

/// Every known URL that answered is used.
pub proof fn law_answering_urls_are_used(exist: Seq<bool>, k: int)
    requires
        exist.len() <= fallback_urls().len(),
        0 <= k < exist.len(),
        exist[k],
    ensures
        valid_urls(exist).contains(fallback_urls()[k]),
    decreases exist.len(),
{
    let front = exist.drop_last();
    let kept = valid_urls(front);
    let all = valid_urls(exist);
    if k == exist.len() - 1 {
        assert(all[kept.len() as int] == fallback_urls()[k]);
    } else {
        law_answering_urls_are_used(front, k);
        let j = choose|j: int| 0 <= j < kept.len() && kept[j] == fallback_urls()[k];
        assert(all[j] == fallback_urls()[k]);
    }
}

/// As many known URLs are used as answered.
pub proof fn law_number_of_answering_urls(exist: Seq<bool>)
    ensures
        valid_urls(exist).len() == exist.filter(|b: bool| b).len(),
    decreases exist.len(),
{
    reveal(Seq::filter);
    if exist.len() > 0 {
        law_number_of_answering_urls(exist.drop_last());
    }
}

/// The known URLs are tried one after the other until enough of them answered; where none
/// did, the first ones are used unvalidated.
pub proof fn law_known_urls_are_tried(exist: Seq<bool>, limit: nat)
    requires
        exist.len() <= 5,
    ensures
        ({
            let answered = exist.filter(|b: bool| b).len();
            &&& next_candidate(exist, limit) is Some <==> answered < limit && exist.len() < 5
            &&& next_candidate(exist, limit) matches Some(url) ==> url
                == fallback_urls()[exist.len() as int]
            &&& answered > 0 ==> fallback_result(exist, limit) == valid_urls(exist)
            &&& answered == 0 && limit >= 5 ==> fallback_result(exist, limit) == fallback_urls()
            &&& answered == 0 && limit < 5 ==> fallback_result(exist, limit)
                == fallback_urls().take(limit as int)
        }),
        fallback_urls().len() == 5,
{
    law_number_of_answering_urls(exist);
}

/// The sitemaps that speak of courses or pages come first and the others behind them, each
/// in the order of the index.
pub proof fn law_order_of_sitemaps(urls: Seq<Seq<char>>)
    ensures
        walk_order(urls) == urls.filter(
            |u: Seq<char>| includes(u, "course"@) || includes(u, "page"@),
        ) + urls.filter(|u: Seq<char>| !(includes(u, "course"@) || includes(u, "page"@))),
{
    let likely = |u: Seq<char>| includes(u, "course"@) || includes(u, "page"@);
    let unlikely = |u: Seq<char>| !(includes(u, "course"@) || includes(u, "page"@));
    assert(likely =~= (|u: Seq<char>| is_likely(u)));
    assert(unlikely =~= (|u: Seq<char>| !is_likely(u)));
}

/// The links of a page are looked for in all its anchors with an address.
pub proof fn law_links_of_anchors(page: PageView, i: int, href: Seq<char>)
    requires
        0 <= i < page.select("a[href]"@).len(),
        page.select("a[href]"@)[i].href == Some(href),
        course_url(full_url(href)),
    ensures
        course_links(page).contains(full_url(href)),
{
    law_all_course_links(page, i);
}

/// The pages that list courses are tried in order: the search page, then the lists of
/// postgraduate and of all courses.
pub proof fn law_listing_pages()
    ensures
        search_pages() == seq![
            "https://www.coventry.ac.uk/search/?location=113&contentType=NewCoursePage"@,
            "https://www.coventry.ac.uk/study-at-coventry/postgraduate-study/az-course-list/"@,
            "https://www.coventry.ac.uk/study-at-coventry/az-course-list/"@,
        ],
{
}

/// A URL without a path is its own slug, but for its query.
pub proof fn law_slug_without_segments(url: Seq<char>)
    requires
        segments(before(url, '?')).len() == 0,
    ensures
        slug(url) == before(url, '?'),
{
}

} // verus!
