//! Collecting course URLs from sitemaps and listing pages.

use vstd::prelude::*;

use crate::dom::{element_views, parsed_page, Document, Dom, Element, ElementView, PageView};
use crate::order::{in_order, sort};
use crate::text::{
    before, chars_of, contains, find_chars, find_from, includes, lemma_find_least, occurs_at,
    same_text, string_between, strs, texts, trim, trimmed,
};
use crate::urls::{
    course_slug, course_url, full_url, has_term, is_course_url, names_term, normalise_url, slug,
};

verus! {

/// Top-level sitemap index, the canonical machine-readable course directory.
pub const SITEMAP_INDEX: &'static str = "https://www.coventry.ac.uk/sitemap_index.xml";

/// The trimmed `<loc>` values of an XML text from an index on, the empty ones left
/// out. A tag that is not closed is passed over.
pub open spec fn locs_from(xml: Seq<char>, i: int) -> Seq<Seq<char>>
    decreases xml.len() - i,
{
    if i < 0 || i > xml.len() {
        Seq::empty()
    } else {
        match find_from(xml, "<loc>"@, i) {
            Some(start) => {
                proof {
                    reveal_strlit("<loc>");
                    reveal_strlit("</loc>");
                    lemma_find_least(xml, "<loc>"@, i);
                    lemma_find_least(xml, "</loc>"@, start + 5);
                }
                match find_from(xml, "</loc>"@, start + 5) {
                    Some(end) => {
                        let loc = trimmed(xml.subrange(start + 5, end));
                        if loc.len() > 0 {
                            seq![loc] + locs_from(xml, end + 6)
                        } else {
                            locs_from(xml, end + 6)
                        }
                    },
                    None => locs_from(xml, start + 5),
                }
            },
            None => Seq::empty(),
        }
    }
}

/// Extracts all `<loc>` values from an XML text (sitemap format).
/// Uses plain text scanning, which malformed sitemaps do not stop.
pub fn extract_locs_from_xml(xml: &str) -> (result: Vec<String>)
    ensures
        texts(result@) == locs_from(xml@, 0),
{
    let chars: Vec<char> = chars_of(xml);
    let n: usize = chars.len();
    let open: Vec<char> = chars_of("<loc>");
    let close: Vec<char> = chars_of("</loc>");
    let mut locs: Vec<String> = Vec::new();
    let mut i: usize = 0;
    proof {
        reveal_strlit("<loc>");
        reveal_strlit("</loc>");
    }
    assert(texts(locs@) + locs_from(xml@, 0) =~= locs_from(xml@, 0));
    loop
        invariant
            chars@ == xml@,
            n == xml@.len(),
            i <= n,
            open@ == "<loc>"@,
            close@ == "</loc>"@,
            open@.len() == 5,
            close@.len() == 6,
            texts(locs@) + locs_from(xml@, i as int) == locs_from(xml@, 0),
        decreases n - i,
    {
        proof {
            lemma_find_least(xml@, open@, i as int);
        }
        let start: usize = match find_chars(&chars, &open, i) {
            Some(start) => start,
            None => {
                assert(texts(locs@) =~= locs_from(xml@, 0));
                return locs;
            },
        };
        proof {
            lemma_find_least(xml@, close@, start + 5);
        }
        match find_chars(&chars, &close, start + 5) {
            Some(end) => {
                let piece: String = string_between(&chars, start + 5, end);
                let loc: String = trim(piece.as_str());
                let ghost done = texts(locs@);
                if !loc.as_str().is_empty() {
                    let ghost t = loc@;
                    locs.push(loc);
                    assert(texts(locs@) =~= done.push(t));
                    assert(done.push(t) + locs_from(xml@, end + 6) =~= done + (seq![t] + locs_from(
                        xml@,
                        end + 6,
                    )));
                }
                i = end + 6;
            },
            None => {
                i = start + 5;
            },
        }
    }
}

/// Whether a sitemap is likely to hold course pages.
pub open spec fn is_likely(url: Seq<char>) -> bool {
    includes(url, "course"@) || includes(url, "page"@)
}

/// Sitemaps in the order in which they are walked: the likely ones first.
pub open spec fn walk_order(urls: Seq<Seq<char>>) -> Seq<Seq<char>> {
    urls.filter(|u: Seq<char>| is_likely(u)) + urls.filter(|u: Seq<char>| !is_likely(u))
}

/// Puts the sitemaps that are likely to hold course pages first, and keeps the order
/// among the others.
pub fn order_sitemaps(urls: &Vec<String>) -> (result: Vec<String>)
    ensures
        texts(result@) == walk_order(texts(urls@)),
{
    let ghost all = texts(urls@);
    let ghost likely = |u: Seq<char>| is_likely(u);
    let ghost unlikely = |u: Seq<char>| !is_likely(u);
    let mut first: Vec<String> = Vec::new();
    let mut rest: Vec<String> = Vec::new();
    let mut i: usize = 0;
    proof {
        reveal(Seq::filter);
        assert(all.take(0) =~= Seq::empty());
        assert(texts(first@) =~= all.take(0).filter(likely));
        assert(texts(rest@) =~= all.take(0).filter(unlikely));
    }
    while i < urls.len()
        invariant
            i <= urls@.len(),
            all == texts(urls@),
            likely == (|u: Seq<char>| is_likely(u)),
            unlikely == (|u: Seq<char>| !is_likely(u)),
            texts(first@) == all.take(i as int).filter(likely),
            texts(rest@) == all.take(i as int).filter(unlikely),
        decreases urls@.len() - i,
    {
        let ghost done_first = texts(first@);
        let ghost done_rest = texts(rest@);
        proof {
            reveal(Seq::filter);
            assert(all.take(i + 1).drop_last() =~= all.take(i as int));
        }
        let url: String = urls[i].clone();
        if contains(url.as_str(), "course") || contains(url.as_str(), "page") {
            first.push(url);
            assert(texts(first@) =~= done_first.push(all[i as int]));
        } else {
            rest.push(url);
            assert(texts(rest@) =~= done_rest.push(all[i as int]));
        }
        i += 1;
    }
    assert(all.take(i as int) =~= all);
    let ghost a = texts(first@);
    let ghost b = texts(rest@);
    first.append(&mut rest);
    assert(texts(first@) =~= a + b);
    first
}

/// The first index, at or after `i`, of a URL with a slug; the length if there is
/// none.
pub open spec fn slug_index(urls: Seq<Seq<char>>, s: Seq<char>, i: int) -> int
    decreases urls.len() - i,
{
    if 0 <= i < urls.len() && slug(urls[i]) != s {
        slug_index(urls, s, i + 1)
    } else {
        i
    }
}

/// Several URLs and one more, of which at most one has each slug. Of two URLs with
/// one slug the first stays; where `prefer_term` holds, unless only the second names
/// an intake year.
pub open spec fn taken(urls: Seq<Seq<char>>, url: Seq<char>, prefer_term: bool) -> Seq<Seq<char>> {
    let k = slug_index(urls, slug(url), 0);
    if k >= urls.len() {
        urls.push(url)
    } else if prefer_term && has_term(url) && !has_term(urls[k]) {
        urls.update(k, url)
    } else {
        urls
    }
}

/// Several URLs and the course URLs among others, from an index on, as long as there
/// are fewer than a limit.
pub open spec fn taken_from(
    urls: Seq<Seq<char>>,
    more: Seq<Seq<char>>,
    i: int,
    limit: nat,
    prefer_term: bool,
) -> Seq<Seq<char>>
    decreases more.len() - i,
{
    if i < 0 || i >= more.len() {
        urls
    } else if course_url(more[i]) {
        let next = taken(urls, more[i], prefer_term);
        if next.len() >= limit {
            next
        } else {
            taken_from(next, more, i + 1, limit, prefer_term)
        }
    } else {
        taken_from(urls, more, i + 1, limit, prefer_term)
    }
}

/// Whether no two URLs have one slug.
pub open spec fn distinct_slugs(urls: Seq<Seq<char>>) -> bool {
    forall|i: int, j: int|
        0 <= i < j < urls.len() ==> slug(#[trigger] urls[i]) != slug(#[trigger] urls[j])
}

/// Whether all URLs are those of course detail pages.
pub open spec fn all_courses(urls: Seq<Seq<char>>) -> bool {
    forall|i: int| 0 <= i < urls.len() ==> course_url(#[trigger] urls[i])
}

/// Whether a collection can take one more URL.
pub open spec fn has_room(urls: Seq<Seq<char>>, limit: nat) -> bool {
    urls.len() == 0 || urls.len() < limit
}

/// The larger of a limit and one.
pub open spec fn cap(limit: nat) -> nat {
    if limit > 1 {
        limit
    } else {
        1
    }
}

/// The index found is the first one with the slug.
proof fn lemma_slug_index(urls: Seq<Seq<char>>, s: Seq<char>, i: int)
    requires
        0 <= i <= urls.len(),
    ensures
        i <= slug_index(urls, s, i) <= urls.len(),
        slug_index(urls, s, i) < urls.len() ==> slug(urls[slug_index(urls, s, i)]) == s,
        forall|j: int|
            i <= j < slug_index(urls, s, i) ==> slug(#[trigger] urls[j]) != s,
    decreases urls.len() - i,
{
    if i < urls.len() && slug(urls[i]) != s {
        lemma_slug_index(urls, s, i + 1);
    }
}

/// Taking one more course URL keeps the slugs distinct and all URLs those of courses.
proof fn lemma_taken(urls: Seq<Seq<char>>, url: Seq<char>, prefer_term: bool)
    requires
        distinct_slugs(urls),
        all_courses(urls),
        course_url(url),
    ensures
        distinct_slugs(taken(urls, url, prefer_term)),
        all_courses(taken(urls, url, prefer_term)),
        urls.len() <= taken(urls, url, prefer_term).len() <= urls.len() + 1,
        taken(urls, url, prefer_term).len() > 0,
{
    lemma_slug_index(urls, slug(url), 0);
    let k = slug_index(urls, slug(url), 0);
    let next = taken(urls, url, prefer_term);
    assert forall|i: int, j: int| 0 <= i < j < next.len() implies slug(#[trigger] next[i]) != slug(
        #[trigger] next[j],
    ) by {
        if k >= urls.len() {
            assert(next[i] == urls[i]);
            if j < urls.len() {
                assert(next[j] == urls[j]);
            }
        } else {
            assert(slug(urls[i]) != slug(urls[j]));
            assert(slug(next[i]) == slug(urls[i]));
            assert(slug(next[j]) == slug(urls[j]));
        }
    }
    assert forall|i: int| 0 <= i < next.len() implies course_url(#[trigger] next[i]) by {
        if i < urls.len() && next[i] != url {
            assert(next[i] == urls[i]);
        }
    }
}

/// What is collected holds each course once, course pages only, and no more of them
/// than wanted.
pub proof fn law_collected_urls(
    urls: Seq<Seq<char>>,
    more: Seq<Seq<char>>,
    i: int,
    limit: nat,
    prefer_term: bool,
)
    requires
        distinct_slugs(urls),
        all_courses(urls),
        has_room(urls, limit),
        0 <= i,
    ensures
        distinct_slugs(taken_from(urls, more, i, limit, prefer_term)),
        all_courses(taken_from(urls, more, i, limit, prefer_term)),
        urls.len() <= taken_from(urls, more, i, limit, prefer_term).len() <= cap(limit),
    decreases more.len() - i,
{
    if i < more.len() {
        if course_url(more[i]) {
            lemma_taken(urls, more[i], prefer_term);
            let next = taken(urls, more[i], prefer_term);
            if next.len() < limit {
                law_collected_urls(next, more, i + 1, limit, prefer_term);
            }
        } else {
            law_collected_urls(urls, more, i + 1, limit, prefer_term);
        }
    }
}

/// Whether all URLs are among others.
pub open spec fn all_among(urls: Seq<Seq<char>>, others: Seq<Seq<char>>) -> bool {
    forall|i: int| 0 <= i < urls.len() ==> others.contains(#[trigger] urls[i])
}

/// Nothing is made up: every URL collected was collected before or is one of those that
/// were offered.
pub proof fn law_collected_urls_were_offered(
    urls: Seq<Seq<char>>,
    more: Seq<Seq<char>>,
    i: int,
    limit: nat,
    prefer_term: bool,
)
    requires
        0 <= i,
    ensures
        all_among(taken_from(urls, more, i, limit, prefer_term), urls + more),
    decreases more.len() - i,
{
    let whole = urls + more;
    assert forall|j: int| 0 <= j < urls.len() implies whole.contains(#[trigger] urls[j]) by {
        assert(whole[j] == urls[j]);
    }
    assert forall|j: int| 0 <= j < more.len() implies whole.contains(#[trigger] more[j]) by {
        assert(whole[urls.len() + j] == more[j]);
    }
    if i < more.len() {
        assert(whole.contains(more[i]));
        if course_url(more[i]) {
            let next = taken(urls, more[i], prefer_term);
            lemma_slug_index(urls, slug(more[i]), 0);
            assert forall|j: int| 0 <= j < next.len() implies whole.contains(
                #[trigger] next[j],
            ) by {
                if next[j] != more[i] {
                    assert(next[j] == urls[j]);
                }
            }
            if next.len() < limit {
                law_collected_urls_were_offered(next, more, i + 1, limit, prefer_term);
                lemma_among_both(
                    taken_from(next, more, i + 1, limit, prefer_term),
                    next,
                    more,
                    whole,
                );
            }
        } else {
            law_collected_urls_were_offered(urls, more, i + 1, limit, prefer_term);
        }
    }
}

/// URLs that are among two lists are among a third one that holds both.
proof fn lemma_among_both(
    urls: Seq<Seq<char>>,
    a: Seq<Seq<char>>,
    b: Seq<Seq<char>>,
    whole: Seq<Seq<char>>,
)
    requires
        all_among(urls, a + b),
        all_among(a, whole),
        all_among(b, whole),
    ensures
        all_among(urls, whole),
{
    assert forall|i: int| 0 <= i < urls.len() implies whole.contains(#[trigger] urls[i]) by {
        assert((a + b).contains(urls[i]));
        let k = choose|k: int| 0 <= k < (a + b).len() && (a + b)[k] == urls[i];
        if k < a.len() {
            assert(whole.contains(a[k]));
        } else {
            assert(whole.contains(b[k - a.len()]));
        }
    }
}

/// URLs that were collected among those listed so far, and among more, are all listed
/// then.
proof fn lemma_still_listed(
    found: Seq<Seq<char>>,
    listed: Seq<Seq<char>>,
    more: Seq<Seq<char>>,
    limit: nat,
    prefer_term: bool,
)
    requires
        all_among(found, listed),
    ensures
        all_among(taken_from(found, more, 0, limit, prefer_term), listed + more),
{
    let whole = listed + more;
    assert forall|i: int| 0 <= i < found.len() implies whole.contains(#[trigger] found[i]) by {
        assert(listed.contains(found[i]));
        let k = choose|k: int| 0 <= k < listed.len() && listed[k] == found[i];
        assert(whole[k] == found[i]);
    }
    assert forall|i: int| 0 <= i < more.len() implies whole.contains(#[trigger] more[i]) by {
        assert(whole[listed.len() + i] == more[i]);
    }
    law_collected_urls_were_offered(found, more, 0, limit, prefer_term);
    lemma_among_both(taken_from(found, more, 0, limit, prefer_term), found, more, whole);
}

/// Course URLs, at most one for each slug, in the order in which the slugs were
/// first seen.
pub struct SlugTable {
    urls: Vec<String>,
}

impl View for SlugTable {
    type V = Seq<Seq<char>>;

    closed spec fn view(&self) -> Seq<Seq<char>> {
        texts(self.urls@)
    }
}

impl SlugTable {
    /// Whether the table holds course URLs with distinct slugs only.
    pub open spec fn wf(&self) -> bool {
        distinct_slugs(self@) && all_courses(self@)
    }

    /// An empty table.
    pub fn new() -> (result: SlugTable)
        ensures
            result.wf(),
            result@ == Seq::<Seq<char>>::empty(),
    {
        let result: SlugTable = SlugTable { urls: Vec::new() };
        assert(result@ =~= Seq::empty());
        result
    }

    /// The number of URLs.
    pub fn len(&self) -> (result: usize)
        ensures
            result == self@.len(),
    {
        self.urls.len()
    }

    /// Takes one more URL.
    fn take(&mut self, url: &str, prefer_term: bool)
        requires
            old(self).wf(),
            course_url(url@),
        ensures
            final(self).wf(),
            final(self)@ == taken(old(self)@, url@, prefer_term),
    {
        let ghost before = self@;
        let s: String = course_slug(url);
        let mut k: usize = 0;
        while k < self.urls.len() && !same_text(
            course_slug(self.urls[k].as_str()).as_str(),
            s.as_str(),
        )
            invariant
                before == self@,
                before == texts(self.urls@),
                k <= self.urls@.len(),
                s@ == slug(url@),
                slug_index(before, s@, 0) == slug_index(before, s@, k as int),
            decreases self.urls@.len() - k,
        {
            assert(before[k as int] == self.urls@[k as int]@);
            k += 1;
        }
        proof {
            lemma_taken(before, url@, prefer_term);
            if k < before.len() {
                assert(before[k as int] == self.urls@[k as int]@);
            }
        }
        if k == self.urls.len() {
            self.urls.push(url.to_string());
            assert(self@ =~= before.push(url@));
        } else if prefer_term && names_term(url) && !names_term(self.urls[k].as_str()) {
            self.urls.set(k, url.to_string());
            assert(self@ =~= before.update(k as int, url@));
        }
    }

    /// Takes the course URLs among others, as long as there are fewer than a limit.
    pub fn take_all(&mut self, more: &Vec<String>, limit: usize, prefer_term: bool)
        requires
            old(self).wf(),
            has_room(old(self)@, limit as nat),
        ensures
            final(self).wf(),
            final(self)@ == taken_from(old(self)@, texts(more@), 0, limit as nat, prefer_term),
            final(self)@.len() <= cap(limit as nat),
    {
        let ghost start = self@;
        let ghost list = texts(more@);
        proof {
            law_collected_urls(start, list, 0, limit as nat, prefer_term);
        }
        let mut i: usize = 0;
        while i < more.len()
            invariant
                i <= more@.len(),
                list == texts(more@),
                start == old(self)@,
                self.wf(),
                taken_from(start, list, 0, limit as nat, prefer_term) == taken_from(
                    self@,
                    list,
                    i as int,
                    limit as nat,
                    prefer_term,
                ),
                taken_from(start, list, 0, limit as nat, prefer_term).len() <= cap(limit as nat),
            decreases more@.len() - i,
        {
            assert(list[i as int] == more@[i as int]@);
            let url: &str = more[i].as_str();
            if is_course_url(url) {
                self.take(url, prefer_term);
                if self.len() >= limit {
                    return;
                }
            }
            i += 1;
        }
    }

    /// The URLs in alphabetical order.
    pub fn into_sorted(self) -> (result: Vec<String>)
        ensures
            in_order(texts(result@)),
            texts(result@).to_multiset() == self@.to_multiset(),
    {
        sort(self.urls)
    }

    /// At most the given number of URLs, in alphabetical order.
    pub fn into_sorted_first(self, limit: usize) -> (result: Vec<String>)
        ensures
            in_order(texts(result@)),
            texts(result@).to_multiset() == (if limit < self@.len() {
                self@.take(limit as int)
            } else {
                self@
            }).to_multiset(),
    {
        let mut urls: Vec<String> = self.urls;
        if limit < urls.len() {
            let ghost all = texts(urls@);
            urls.truncate(limit);
            assert(texts(urls@) =~= all.take(limit as int));
        }
        sort(urls)
    }
}

/// Putting URLs in another order keeps them, their number, the slugs distinct, and all of
/// them those of courses.
proof fn lemma_reordered(urls: Seq<Seq<char>>, others: Seq<Seq<char>>)
    requires
        urls.to_multiset() == others.to_multiset(),
        distinct_slugs(urls),
        all_courses(urls),
    ensures
        others.len() == urls.len(),
        distinct_slugs(others),
        all_courses(others),
        all_among(others, urls),
{
    urls.to_multiset_ensures();
    others.to_multiset_ensures();
    assert(urls.no_duplicates()) by {
        assert forall|i: int, j: int|
            0 <= i < urls.len() && 0 <= j < urls.len() && i != j implies urls[i] != urls[j] by {
            if i < j {
                assert(slug(urls[i]) != slug(urls[j]));
            } else {
                assert(slug(urls[j]) != slug(urls[i]));
            }
        }
    }
    urls.lemma_multiset_has_no_duplicates();
    others.lemma_multiset_has_no_duplicates_conv();
    assert forall|i: int| 0 <= i < others.len() implies urls.contains(#[trigger] others[i]) by {
        assert(others.contains(others[i]));
        assert(others.to_multiset().count(others[i]) > 0);
    }
    assert forall|i: int| 0 <= i < others.len() implies course_url(#[trigger] others[i]) by {
        assert(urls.contains(others[i]));
    }
    assert forall|i: int, j: int| 0 <= i < j < others.len() implies slug(#[trigger] others[i])
        != slug(#[trigger] others[j]) by {
        assert(others.contains(others[i]) && others.contains(others[j]));
        assert(others.to_multiset().count(others[i]) > 0);
        assert(others.to_multiset().count(others[j]) > 0);
        assert(urls.contains(others[i]) && urls.contains(others[j]));
        let a = choose|a: int| 0 <= a < urls.len() && urls[a] == others[i];
        let b = choose|b: int| 0 <= b < urls.len() && urls[b] == others[j];
        assert(others[i] != others[j]);
        if a < b {
            assert(slug(urls[a]) != slug(urls[b]));
        } else {
            assert(slug(urls[b]) != slug(urls[a]));
        }
    }
}

/// URLs among others that are among a third list are among that list.
proof fn lemma_among_through(
    urls: Seq<Seq<char>>,
    others: Seq<Seq<char>>,
    source: Seq<Seq<char>>,
)
    requires
        all_among(urls, others),
        all_among(others, source),
    ensures
        all_among(urls, source),
{
    assert forall|i: int| 0 <= i < urls.len() implies source.contains(#[trigger] urls[i]) by {
        assert(others.contains(urls[i]));
        let k = choose|k: int| 0 <= k < others.len() && others[k] == urls[i];
        assert(source.contains(others[k]));
    }
}

/// A walk through the sitemaps that a sitemap index lists.
pub struct SitemapWalk {
    index: Vec<String>,
    table: SlugTable,
    limit: usize,
    listed: Ghost<Seq<Seq<char>>>,
}

impl SitemapWalk {
    /// The `<loc>` values of the index.
    pub closed spec fn index(&self) -> Seq<Seq<char>> {
        texts(self.index@)
    }

    /// The course URLs found so far.
    pub closed spec fn found(&self) -> Seq<Seq<char>> {
        self.table@
    }

    /// The `<loc>` values of the child sitemaps that were visited.
    pub closed spec fn listed(&self) -> Seq<Seq<char>> {
        self.listed@
    }

    /// How many courses are wanted.
    pub closed spec fn limit(&self) -> nat {
        self.limit as nat
    }

    /// Whether the URLs found are those of different courses, all of them listed by a
    /// sitemap that was visited, and no more than wanted.
    pub open spec fn wf(&self) -> bool {
        &&& distinct_slugs(self.found())
        &&& all_courses(self.found())
        &&& all_among(self.found(), self.listed())
        &&& self.found().len() <= cap(self.limit())
    }

    /// Starts with the text of the sitemap index.
    pub fn start(index_xml: &str, limit: usize) -> (result: SitemapWalk)
        ensures
            result.wf(),
            result.index() == locs_from(index_xml@, 0),
            result.found() == Seq::<Seq<char>>::empty(),
            result.listed() == Seq::<Seq<char>>::empty(),
            result.limit() == limit,
    {
        SitemapWalk {
            index: extract_locs_from_xml(index_xml),
            table: SlugTable::new(),
            limit,
            listed: Ghost(Seq::empty()),
        }
    }

    /// The child sitemaps, in the order in which they are visited.
    pub fn children(&self) -> (result: Vec<String>)
        ensures
            texts(result@) == walk_order(self.index()),
    {
        order_sitemaps(&self.index)
    }

    /// Whether no more sitemaps have to be visited.
    pub fn is_full(&self) -> (result: bool)
        ensures
            result == !has_room(self.found(), self.limit()),
    {
        self.table.len() > 0 && self.table.len() >= self.limit
    }

    /// Collects the course URLs of a child sitemap, one for each course, those that
    /// name an intake year preferred.
    pub fn visit(&mut self, xml: &str)
        requires
            old(self).wf(),
            has_room(old(self).found(), old(self).limit()),
        ensures
            final(self).wf(),
            final(self).index() == old(self).index(),
            final(self).limit() == old(self).limit(),
            final(self).listed() == old(self).listed() + locs_from(xml@, 0),
            final(self).found() == taken_from(
                old(self).found(),
                locs_from(xml@, 0),
                0,
                old(self).limit(),
                true,
            ),
    {
        let locs: Vec<String> = extract_locs_from_xml(xml);
        proof {
            lemma_still_listed(self.found(), self.listed(), texts(locs@), self.limit(), true);
        }
        self.table.take_all(&locs, self.limit, true);
        self.listed = Ghost(self.listed@ + texts(locs@));
    }

    /// The URLs found, in alphabetical order. If no child sitemap held a course, the
    /// course URLs among those that the index itself lists.
    pub fn finish(self) -> (result: Vec<String>)
        requires
            self.wf(),
        ensures
            in_order(texts(result@)),
            texts(result@).to_multiset() == (if self.found().len() == 0 {
                taken_from(self.found(), self.index(), 0, self.limit(), false)
            } else {
                self.found()
            }).to_multiset(),
            distinct_slugs(texts(result@)),
            all_courses(texts(result@)),
            texts(result@).len() <= cap(self.limit()),
            all_among(
                texts(result@),
                if self.found().len() == 0 {
                    self.index()
                } else {
                    self.listed()
                },
            ),
    {
        let mut table: SlugTable = self.table;
        let ghost source = if table@.len() == 0 {
            self.index()
        } else {
            self.listed()
        };
        if table.len() == 0 {
            let ghost none = table@;
            table.take_all(&self.index, self.limit, false);
            proof {
                law_collected_urls_were_offered(none, source, 0, self.limit(), false);
                assert(none + source =~= source);
            }
        }
        let ghost found = table@;
        assert(all_among(found, source));
        let result: Vec<String> = table.into_sorted();
        proof {
            lemma_reordered(found, texts(result@));
            lemma_among_through(texts(result@), found, source);
        }
        result
    }
}

/// The selector of the links of a page.
pub const LINK_SELECTOR: &'static str = "a[href]";

/// Several links and the full URL of one more element, if it leads to a course page
/// and is not among them.
pub open spec fn with_link(links: Seq<Seq<char>>, element: ElementView) -> Seq<Seq<char>> {
    match element.href {
        Some(href) => if course_url(full_url(href)) && !links.contains(full_url(href)) {
            links.push(full_url(href))
        } else {
            links
        },
        None => links,
    }
}

/// Several links and those of several elements.
pub open spec fn with_links(links: Seq<Seq<char>>, elements: Seq<ElementView>) -> Seq<Seq<char>>
    decreases elements.len(),
{
    if elements.len() == 0 {
        links
    } else {
        with_link(with_links(links, elements.drop_last()), elements.last())
    }
}

/// The links to course pages on a page, each once.
pub open spec fn course_links(page: PageView) -> Seq<Seq<char>> {
    with_links(Seq::empty(), page.select(LINK_SELECTOR@))
}

/// Whether a text is among several ones.
fn is_among(list: &Vec<String>, t: &str) -> (result: bool)
    ensures
        result == texts(list@).contains(t@),
{
    let mut i: usize = 0;
    while i < list.len()
        invariant
            i <= list@.len(),
            forall|j: int| 0 <= j < i ==> #[trigger] texts(list@)[j] != t@,
        decreases list@.len() - i,
    {
        if same_text(list[i].as_str(), t) {
            assert(texts(list@)[i as int] == t@);
            return true;
        }
        i += 1;
    }
    false
}

/// Adds the links of several elements.
fn add_links(links: &mut Vec<String>, elements: &Vec<Element>)
    ensures
        texts(final(links)@) == with_links(texts(old(links)@), element_views(elements@)),
{
    let ghost start = texts(links@);
    let ghost all = element_views(elements@);
    let mut i: usize = 0;
    assert(all.take(0) =~= Seq::empty());
    while i < elements.len()
        invariant
            i <= elements@.len(),
            all == element_views(elements@),
            texts(links@) == with_links(start, all.take(i as int)),
        decreases elements@.len() - i,
    {
        assert(all.take(i + 1).drop_last() =~= all.take(i as int));
        assert(all.take(i + 1).last() == elements@[i as int]@);
        match &elements[i].href {
            Some(href) => {
                let url: String = normalise_url(href.as_str());
                if is_course_url(url.as_str()) && !is_among(links, url.as_str()) {
                    let ghost done = texts(links@);
                    let ghost t = url@;
                    links.push(url);
                    assert(texts(links@) =~= done.push(t));
                }
            },
            None => {},
        }
        i += 1;
    }
    assert(all.take(i as int) =~= all);
}

/// Collects the links to course pages on a page.
pub fn page_course_links<D: Dom>(doc: &D) -> (result: Vec<String>)
    ensures
        texts(result@) == course_links(doc.page()),
{
    let mut links: Vec<String> = Vec::new();
    assert(texts(links@) =~= Seq::empty());
    add_links(&mut links, &doc.select(LINK_SELECTOR));
    links
}

/// Extracts the links of an HTML text that lead to course pages.
pub fn extract_course_links_from_html(html: &str) -> (result: Vec<String>)
    ensures
        texts(result@) == course_links(parsed_page(html@)),
{
    page_course_links(&Document::parse(html))
}

/// The pages that list courses, tried when the sitemaps yield nothing.
pub open spec fn search_pages() -> Seq<Seq<char>> {
    seq![
        "https://www.coventry.ac.uk/search/?location=113&contentType=NewCoursePage"@,
        "https://www.coventry.ac.uk/study-at-coventry/postgraduate-study/az-course-list/"@,
        "https://www.coventry.ac.uk/study-at-coventry/az-course-list/"@,
    ]
}

/// The pages that list courses, in the order in which they are visited.
pub fn listing_pages() -> (result: [&'static str; 3])
    ensures
        strs(result@) == search_pages(),
{
    let result: [&'static str; 3] = [
        "https://www.coventry.ac.uk/search/?location=113&contentType=NewCoursePage",
        "https://www.coventry.ac.uk/study-at-coventry/postgraduate-study/az-course-list/",
        "https://www.coventry.ac.uk/study-at-coventry/az-course-list/",
    ];
    assert(strs(result@) =~= search_pages());
    result
}

/// A walk through pages that link to courses.
pub struct ListingWalk {
    table: SlugTable,
    limit: usize,
    linked: Ghost<Seq<Seq<char>>>,
}

impl ListingWalk {
    /// The course URLs found so far.
    pub closed spec fn found(&self) -> Seq<Seq<char>> {
        self.table@
    }

    /// The links to courses on the pages that were visited.
    pub closed spec fn linked(&self) -> Seq<Seq<char>> {
        self.linked@
    }

    /// How many courses are wanted.
    pub closed spec fn limit(&self) -> nat {
        self.limit as nat
    }

    /// Whether the URLs found are those of different courses, all of them linked from a
    /// page that was visited, and no more than wanted.
    pub open spec fn wf(&self) -> bool {
        &&& distinct_slugs(self.found())
        &&& all_courses(self.found())
        &&& all_among(self.found(), self.linked())
        &&& self.found().len() <= cap(self.limit())
    }

    /// Starts with nothing found.
    pub fn start(limit: usize) -> (result: ListingWalk)
        ensures
            result.wf(),
            result.found() == Seq::<Seq<char>>::empty(),
            result.linked() == Seq::<Seq<char>>::empty(),
            result.limit() == limit,
    {
        ListingWalk { table: SlugTable::new(), limit, linked: Ghost(Seq::empty()) }
    }

    /// Whether enough courses are found.
    pub fn has_enough(&self) -> (result: bool)
        ensures
            result == (self.found().len() >= self.limit()),
    {
        self.table.len() >= self.limit
    }

    /// Collects the course URLs among several links, one for each course.
    pub fn visit_links(&mut self, links: &Vec<String>)
        requires
            old(self).wf(),
            has_room(old(self).found(), old(self).limit()),
        ensures
            final(self).wf(),
            final(self).limit() == old(self).limit(),
            final(self).linked() == old(self).linked() + texts(links@),
            final(self).found() == taken_from(
                old(self).found(),
                texts(links@),
                0,
                old(self).limit(),
                false,
            ),
    {
        proof {
            lemma_still_listed(self.found(), self.linked(), texts(links@), self.limit(), false);
        }
        self.table.take_all(links, self.limit, false);
        self.linked = Ghost(self.linked@ + texts(links@));
    }

    /// Collects the course URLs that the HTML text of a page links to.
    pub fn visit(&mut self, html: &str)
        requires
            old(self).wf(),
            has_room(old(self).found(), old(self).limit()),
        ensures
            final(self).wf(),
            final(self).limit() == old(self).limit(),
            final(self).linked() == old(self).linked() + course_links(parsed_page(html@)),
            final(self).found() == taken_from(
                old(self).found(),
                course_links(parsed_page(html@)),
                0,
                old(self).limit(),
                false,
            ),
    {
        let links: Vec<String> = extract_course_links_from_html(html);
        self.visit_links(&links);
    }

    /// The URLs found, no more than wanted, in alphabetical order.
    pub fn finish(self) -> (result: Vec<String>)
        requires
            self.wf(),
        ensures
            in_order(texts(result@)),
            texts(result@).to_multiset() == (if self.limit() < self.found().len() {
                self.found().take(self.limit() as int)
            } else {
                self.found()
            }).to_multiset(),
            distinct_slugs(texts(result@)),
            all_courses(texts(result@)),
            texts(result@).len() <= self.limit(),
            all_among(texts(result@), self.linked()),
    {
        let ghost found = self.table@;
        let limit: usize = self.limit;
        let ghost kept = if limit < found.len() {
            found.take(limit as int)
        } else {
            found
        };
        let result: Vec<String> = self.table.into_sorted_first(limit);
        proof {
            lemma_reordered(kept, texts(result@));
            lemma_among_through(texts(result@), kept, self.linked());
        }
        result
    }
}

/// A course does not appear twice under several intake years: no two of the URLs
/// collected differ in the query only.
pub proof fn law_no_course_twice(urls: Seq<Seq<char>>, i: int, j: int)
    requires
        distinct_slugs(urls),
        0 <= i < urls.len(),
        0 <= j < urls.len(),
        i != j,
    ensures
        before(urls[i], '?') != before(urls[j], '?'),
{
    if i < j {
        assert(slug(urls[i]) != slug(urls[j]));
    } else {
        assert(slug(urls[j]) != slug(urls[i]));
    }
}

/// A URL that names an intake year is preferred: once two URLs of a course were seen,
/// the one that is kept names a year if either does. Without the preference the URL
/// that was seen first is kept.
pub proof fn law_intake_year_preferred(urls: Seq<Seq<char>>, url: Seq<char>, k: int)
    requires
        distinct_slugs(urls),
        0 <= k < urls.len(),
        slug(urls[k]) == slug(url),
    ensures
        taken(urls, url, true).len() == urls.len(),
        slug(taken(urls, url, true)[k]) == slug(url),
        has_term(taken(urls, url, true)[k]) == (has_term(urls[k]) || has_term(url)),
        taken(urls, url, false) == urls,
{
    lemma_slug_index(urls, slug(url), 0);
    let m = slug_index(urls, slug(url), 0);
    if m < k {
        assert(slug(urls[m]) != slug(urls[k]));
    }
}

/// One more URL, of a course that was not seen before, comes last.
pub proof fn law_new_course_added(urls: Seq<Seq<char>>, url: Seq<char>, prefer_term: bool)
    requires
        forall|i: int| 0 <= i < urls.len() ==> slug(#[trigger] urls[i]) != slug(url),
    ensures
        taken(urls, url, prefer_term) == urls.push(url),
{
    lemma_slug_index(urls, slug(url), 0);
    let k = slug_index(urls, slug(url), 0);
    if k < urls.len() {
        assert(slug(urls[k]) != slug(url));
    }
}

/// Whether a URL with a slug is among several ones, where asked for one that names an
/// intake year.
pub open spec fn covers(urls: Seq<Seq<char>>, s: Seq<char>, with_term: bool) -> bool {
    exists|k: int|
        0 <= k < urls.len() && slug(#[trigger] urls[k]) == s && (with_term ==> has_term(urls[k]))
}

/// Taking one more URL covers its course, and still covers what was covered.
proof fn lemma_taken_covers(
    urls: Seq<Seq<char>>,
    url: Seq<char>,
    prefer_term: bool,
    s: Seq<char>,
    with_term: bool,
)
    ensures
        covers(taken(urls, url, prefer_term), slug(url), prefer_term && has_term(url)),
        covers(urls, s, with_term) ==> covers(taken(urls, url, prefer_term), s, with_term),
{
    let next = taken(urls, url, prefer_term);
    let m = slug_index(urls, slug(url), 0);
    lemma_slug_index(urls, slug(url), 0);
    if m < urls.len() {
        assert(slug(next[m]) == slug(url));
    } else {
        assert(next[urls.len() as int] == url);
    }
    if covers(urls, s, with_term) {
        let k = choose|k: int|
            0 <= k < urls.len() && slug(#[trigger] urls[k]) == s && (with_term ==> has_term(
                urls[k],
            ));
        assert(slug(next[k]) == s);
        assert(with_term ==> has_term(next[k]));
    }
}

/// Taking more URLs still covers what was covered.
proof fn lemma_taken_from_covers(
    urls: Seq<Seq<char>>,
    more: Seq<Seq<char>>,
    i: int,
    limit: nat,
    prefer_term: bool,
    s: Seq<char>,
    with_term: bool,
)
    requires
        0 <= i,
        covers(urls, s, with_term),
    ensures
        covers(taken_from(urls, more, i, limit, prefer_term), s, with_term),
    decreases more.len() - i,
{
    if i < more.len() {
        if course_url(more[i]) {
            let next = taken(urls, more[i], prefer_term);
            lemma_taken_covers(urls, more[i], prefer_term, s, with_term);
            if next.len() < limit {
                lemma_taken_from_covers(next, more, i + 1, limit, prefer_term, s, with_term);
            }
        } else {
            lemma_taken_from_covers(urls, more, i + 1, limit, prefer_term, s, with_term);
        }
    }
}

/// No course is missed: as long as fewer courses were found than wanted, each course
/// URL that was offered has its course among those found, with an intake year where
/// that URL names one and years are preferred.
pub proof fn law_no_course_missed(
    urls: Seq<Seq<char>>,
    more: Seq<Seq<char>>,
    i: int,
    limit: nat,
    prefer_term: bool,
    j: int,
)
    requires
        0 <= i <= j < more.len(),
        course_url(more[j]),
        taken_from(urls, more, i, limit, prefer_term).len() < limit,
    ensures
        covers(
            taken_from(urls, more, i, limit, prefer_term),
            slug(more[j]),
            prefer_term && has_term(more[j]),
        ),
    decreases more.len() - i,
{
    if course_url(more[i]) {
        let next = taken(urls, more[i], prefer_term);
        let with_term = prefer_term && has_term(more[i]);
        if i == j {
            lemma_taken_covers(urls, more[i], prefer_term, slug(more[i]), with_term);
            if next.len() < limit {
                lemma_taken_from_covers(
                    next,
                    more,
                    i + 1,
                    limit,
                    prefer_term,
                    slug(more[i]),
                    with_term,
                );
            }
        } else {
            law_no_course_missed(next, more, i + 1, limit, prefer_term, j);
        }
    } else {
        law_no_course_missed(urls, more, i + 1, limit, prefer_term, j);
    }
}

/// The likely sitemaps and the others, taken together, are all of them.
proof fn lemma_walk_order_multiset(urls: Seq<Seq<char>>)
    ensures
        walk_order(urls).to_multiset() == urls.to_multiset(),
    decreases urls.len(),
{
    reveal(Seq::filter);
    let likely = |u: Seq<char>| is_likely(u);
    let unlikely = |u: Seq<char>| !is_likely(u);
    if urls.len() > 0 {
        let front = urls.drop_last();
        let last = urls.last();
        lemma_walk_order_multiset(front);
        let a = front.filter(likely);
        let b = front.filter(unlikely);
        assert(urls =~= front.push(last));
        vstd::seq_lib::lemma_multiset_commutative(a, b);
        vstd::seq_lib::lemma_multiset_commutative(urls.filter(likely), urls.filter(unlikely));
        a.to_multiset_ensures();
        b.to_multiset_ensures();
        front.to_multiset_ensures();
        assert(urls.to_multiset() == front.to_multiset().insert(last));
        if is_likely(last) {
            assert(urls.filter(likely) =~= a.push(last));
            assert(urls.filter(unlikely) =~= b);
            assert(a.to_multiset().insert(last).add(b.to_multiset()) =~= a.to_multiset().add(
                b.to_multiset(),
            ).insert(last));
        } else {
            assert(urls.filter(likely) =~= a);
            assert(urls.filter(unlikely) =~= b.push(last));
            assert(a.to_multiset().add(b.to_multiset().insert(last)) =~= a.to_multiset().add(
                b.to_multiset(),
            ).insert(last));
        }
    } else {
        assert(walk_order(urls) =~= urls);
    }
}

/// Every sitemap of the index is walked, as often as it is listed, and the likely ones
/// come before the others.
pub proof fn law_walk_order(urls: Seq<Seq<char>>)
    ensures
        walk_order(urls).to_multiset() == urls.to_multiset(),
        forall|i: int, j: int|
            0 <= i < j < walk_order(urls).len() && is_likely(#[trigger] walk_order(urls)[j])
                ==> is_likely(#[trigger] walk_order(urls)[i]),
{
    lemma_walk_order_multiset(urls);
    let likely = |u: Seq<char>| is_likely(u);
    let unlikely = |u: Seq<char>| !is_likely(u);
    let a = urls.filter(likely);
    let b = urls.filter(unlikely);
    let all = walk_order(urls);
    assert(all == a + b);
    assert forall|i: int, j: int|
        0 <= i < j < all.len() && is_likely(#[trigger] all[j]) implies is_likely(
        #[trigger] all[i],
    ) by {
        if j >= a.len() {
            urls.lemma_filter_pred(unlikely, j - a.len());
            assert(all[j] == b[j - a.len()]);
        } else {
            urls.lemma_filter_pred(likely, i);
            assert(all[i] == a[i]);
        }
    }
}

/// A pattern stands in the second of two joined texts where it stands in that text.
proof fn lemma_occurs_behind(a: Seq<char>, b: Seq<char>, p: Seq<char>, i: int)
    requires
        0 <= i,
    ensures
        occurs_at(a + b, p, a.len() + i) == occurs_at(b, p, i),
{
    if i + p.len() <= b.len() {
        assert((a + b).subrange(a.len() + i, a.len() + i + p.len()) =~= b.subrange(
            i,
            i + p.len(),
        ));
    }
}

/// A pattern is found in the second of two joined texts where it is found in that
/// text.
proof fn lemma_find_behind(a: Seq<char>, b: Seq<char>, p: Seq<char>, i: int)
    requires
        0 <= i,
    ensures
        find_from(a + b, p, a.len() + i) == match find_from(b, p, i) {
            Some(k) => Some(a.len() + k),
            None => None::<int>,
        },
    decreases b.len() + 1 - i,
{
    lemma_occurs_behind(a, b, p, i);
    if i + p.len() <= b.len() && !occurs_at(b, p, i) {
        lemma_find_behind(a, b, p, i + 1);
    }
}

/// The `<loc>` values behind a text are those of what follows it.
proof fn lemma_locs_behind(a: Seq<char>, b: Seq<char>, i: int)
    requires
        0 <= i,
    ensures
        locs_from(a + b, a.len() + i) == locs_from(b, i),
    decreases b.len() - i,
{
    if i <= b.len() {
        reveal_strlit("<loc>");
        reveal_strlit("</loc>");
        lemma_find_behind(a, b, "<loc>"@, i);
        lemma_find_least(b, "<loc>"@, i);
        match find_from(b, "<loc>"@, i) {
            Some(start) => {
                lemma_find_behind(a, b, "</loc>"@, start + 5);
                lemma_find_least(b, "</loc>"@, start + 5);
                match find_from(b, "</loc>"@, start + 5) {
                    Some(end) => {
                        assert((a + b).subrange(a.len() + start + 5, a.len() + end)
                            =~= b.subrange(start + 5, end));
                        lemma_locs_behind(a, b, end + 6);
                    },
                    None => {
                        lemma_locs_behind(a, b, start + 5);
                    },
                }
            },
            None => {},
        }
    }
}

/// A URL as a sitemap lists it.
pub open spec fn loc_tag(url: Seq<char>) -> Seq<char> {
    "<loc>"@ + url + "</loc>"@
}

/// Several URLs as a sitemap lists them.
pub open spec fn sitemap_text(urls: Seq<Seq<char>>) -> Seq<char>
    decreases urls.len(),
{
    if urls.len() == 0 {
        Seq::empty()
    } else {
        loc_tag(urls[0]) + sitemap_text(urls.drop_first())
    }
}

/// The first tag of a text gives its URL, and the rest what follows it.
proof fn lemma_first_loc(url: Seq<char>, rest: Seq<char>)
    requires
        url.len() > 0,
        trimmed(url) == url,
        !url.contains('<'),
    ensures
        locs_from(loc_tag(url) + rest, 0) == seq![url] + locs_from(rest, 0),
{
    reveal_strlit("<loc>");
    reveal_strlit("</loc>");
    let xml = loc_tag(url) + rest;
    let n = url.len() as int;
    assert(xml.subrange(0, 5) =~= "<loc>"@);
    assert(occurs_at(xml, "<loc>"@, 0));
    lemma_find_least(xml, "<loc>"@, 0);
    assert(find_from(xml, "<loc>"@, 0) == Some(0int));
    assert(xml.subrange(n + 5, n + 11) =~= "</loc>"@);
    assert(occurs_at(xml, "</loc>"@, n + 5));
    lemma_find_least(xml, "</loc>"@, 5);
    let end = find_from(xml, "</loc>"@, 5)->0;
    if end < n + 5 {
        assert(xml.subrange(end, end + 6)[0] == "</loc>"@[0]);
        assert(xml[end] == url[end - 5]);
        assert(url.contains(url[end - 5]));
    }
    assert(end == n + 5);
    assert(xml.subrange(5, end) =~= url);
    assert(loc_tag(url).len() == n + 11);
    lemma_locs_behind(loc_tag(url), rest, 0);
}

/// What a sitemap lists is read back: the URLs of its `<loc>` tags, in order.
pub proof fn law_sitemap_read_back(urls: Seq<Seq<char>>)
    requires
        forall|i: int|
            0 <= i < urls.len() ==> (#[trigger] urls[i]).len() > 0 && trimmed(urls[i]) == urls[i]
                && !urls[i].contains('<'),
    ensures
        locs_from(sitemap_text(urls), 0) == urls,
    decreases urls.len(),
{
    reveal_strlit("<loc>");
    if urls.len() == 0 {
        assert(locs_from(sitemap_text(urls), 0) =~= urls);
    } else {
        let rest = urls.drop_first();
        assert forall|i: int| 0 <= i < rest.len() implies (#[trigger] rest[i]).len() > 0
            && trimmed(rest[i]) == rest[i] && !rest[i].contains('<') by {
            assert(rest[i] == urls[i + 1]);
        }
        law_sitemap_read_back(rest);
        lemma_first_loc(urls[0], sitemap_text(rest));
        assert(seq![urls[0]] + rest =~= urls);
    }
}

/// Adding links keeps those that were there, and adds those of course pages.
proof fn lemma_with_links(links: Seq<Seq<char>>, elements: Seq<ElementView>, url: Seq<char>)
    requires
        all_courses(links),
        links.no_duplicates(),
    ensures
        all_courses(with_links(links, elements)),
        with_links(links, elements).no_duplicates(),
        links.contains(url) ==> with_links(links, elements).contains(url),
        forall|i: int|
            0 <= i < elements.len() && (#[trigger] elements[i]).href is Some && full_url(
                elements[i].href->0,
            ) == url && course_url(url) ==> with_links(links, elements).contains(url),
    decreases elements.len(),
{
    if elements.len() > 0 {
        let front = elements.drop_last();
        let before_last = with_links(links, front);
        let now = with_links(links, elements);
        lemma_with_links(links, front, url);
        match elements.last().href {
            Some(href) => {
                let more = full_url(href);
                if course_url(more) && !before_last.contains(more) {
                    assert(now == before_last.push(more));
                    assert(now[before_last.len() as int] == more);
                    if before_last.contains(url) {
                        let k = choose|k: int|
                            0 <= k < before_last.len() && before_last[k] == url;
                        assert(now[k] == url);
                    }
                    assert forall|i: int| 0 <= i < now.len() implies course_url(
                        #[trigger] now[i],
                    ) by {
                        if i < before_last.len() {
                            assert(course_url(before_last[i]));
                        }
                    }
                }
            },
            None => {},
        }
        assert forall|i: int|
            0 <= i < elements.len() && (#[trigger] elements[i]).href is Some && full_url(
                elements[i].href->0,
            ) == url && course_url(url) implies now.contains(url) by {
            if i < front.len() {
                assert(front[i] == elements[i]);
            }
        }
    }
}

/// All links of a page that lead to a course page are collected, in whatever case they
/// are written, each once, and no others.
pub proof fn law_all_course_links(page: PageView, i: int)
    requires
        0 <= i < page.select(LINK_SELECTOR@).len(),
    ensures
        all_courses(course_links(page)),
        course_links(page).no_duplicates(),
        page.select(LINK_SELECTOR@)[i].href matches Some(href) ==> (course_url(full_url(href))
            ==> course_links(page).contains(full_url(href))),
{
    let elements = page.select(LINK_SELECTOR@);
    match elements[i].href {
        Some(href) => {
            lemma_with_links(Seq::empty(), elements, full_url(href));
        },
        None => {
            lemma_with_links(Seq::empty(), elements, Seq::empty());
        },
    }
}

/// The links of elements are theirs.
proof fn lemma_links_of_elements(elements: Seq<ElementView>, j: int)
    requires
        0 <= j < with_links(Seq::empty(), elements).len(),
    ensures
        exists|i: int|
            0 <= i < elements.len() && leads_to(
                #[trigger] elements[i],
                with_links(Seq::empty(), elements)[j],
            ),
    decreases elements.len(),
{
    let front = elements.drop_last();
    let before_last = with_links(Seq::empty(), front);
    let url = with_links(Seq::empty(), elements)[j];
    if j < before_last.len() {
        lemma_links_of_elements(front, j);
        let i = choose|i: int| 0 <= i < front.len() && leads_to(#[trigger] front[i], url);
        assert(leads_to(elements[i], url));
    } else {
        assert(leads_to(elements[elements.len() - 1], url));
    }
}

/// Whether the link of an element leads to a URL.
pub open spec fn leads_to(element: ElementView, url: Seq<char>) -> bool {
    element.href matches Some(href) && full_url(href) == url
}

/// Every link that is collected from a page is the link of an element of that page.
pub proof fn law_course_links_are_links(page: PageView, j: int)
    requires
        0 <= j < course_links(page).len(),
    ensures
        exists|i: int|
            0 <= i < page.select(LINK_SELECTOR@).len() && leads_to(
                #[trigger] page.select(LINK_SELECTOR@)[i],
                course_links(page)[j],
            ),
{
    lemma_links_of_elements(page.select(LINK_SELECTOR@), j);
}

/// Of two URLs of one course the first one stays, unless years are preferred and only the
/// second one names one: then that takes its place.
pub proof fn law_which_url_stays(urls: Seq<Seq<char>>, url: Seq<char>, k: int)
    requires
        distinct_slugs(urls),
        0 <= k < urls.len(),
        slug(urls[k]) == slug(url),
    ensures
        has_term(url) && !has_term(urls[k]) ==> taken(urls, url, true) == urls.update(k, url),
        has_term(urls[k]) || !has_term(url) ==> taken(urls, url, true) == urls,
        taken(urls, url, false) == urls,
{
    lemma_slug_index(urls, slug(url), 0);
    let m = slug_index(urls, slug(url), 0);
    if m < k {
        assert(slug(urls[m]) != slug(urls[k]));
    }
}

/// URLs that are no courses are passed over, and the others taken one by one until there are
/// as many as wanted.
pub proof fn law_urls_are_taken_in_order(
    urls: Seq<Seq<char>>,
    url: Seq<char>,
    more: Seq<Seq<char>>,
    limit: nat,
    prefer_term: bool,
)
    ensures
        taken_from(urls, Seq::empty(), 0, limit, prefer_term) == urls,
        !course_url(url) ==> taken_from(urls, seq![url] + more, 0, limit, prefer_term)
            == taken_from(urls, more, 0, limit, prefer_term),
        course_url(url) ==> ({
            let next = taken(urls, url, prefer_term);
            &&& next.len() >= limit ==> taken_from(urls, seq![url] + more, 0, limit, prefer_term)
                == next
            &&& next.len() < limit ==> taken_from(urls, seq![url] + more, 0, limit, prefer_term)
                == taken_from(next, more, 0, limit, prefer_term)
        }),
{
    let whole = seq![url] + more;
    let next = taken(urls, url, prefer_term);
    lemma_taken_shift(urls, url, more, 0, limit, prefer_term);
    lemma_taken_shift(next, url, more, 0, limit, prefer_term);
    assert(whole[0] == url);
}

/// One more URL in front shifts the others by one.
proof fn lemma_taken_shift(
    urls: Seq<Seq<char>>,
    url: Seq<char>,
    more: Seq<Seq<char>>,
    i: int,
    limit: nat,
    prefer_term: bool,
)
    requires
        0 <= i,
    ensures
        taken_from(urls, seq![url] + more, i + 1, limit, prefer_term) == taken_from(
            urls,
            more,
            i,
            limit,
            prefer_term,
        ),
    decreases more.len() - i,
{
    if i < more.len() {
        assert((seq![url] + more)[i + 1] == more[i]);
        lemma_taken_shift(urls, url, more, i + 1, limit, prefer_term);
        lemma_taken_shift(taken(urls, more[i], prefer_term), url, more, i + 1, limit, prefer_term);
    }
}

/// Whatever stands before the first `<loc>` tag is passed over; the tag gives the text up to
/// its end, trimmed, unless that is empty; and what follows is read likewise.
pub proof fn law_locs_between_other_text(a: Seq<char>, inner: Seq<char>, rest: Seq<char>)
    requires
        ({
            let xml = a + "<loc>"@ + inner + "</loc>"@ + rest;
            &&& forall|j: int| 0 <= j < a.len() ==> !occurs_at(xml, "<loc>"@, j)
            &&& forall|j: int|
                a.len() + 5 <= j < a.len() + 5 + inner.len() ==> !occurs_at(xml, "</loc>"@, j)
        }),
    ensures
        locs_from(a + "<loc>"@ + inner + "</loc>"@ + rest, 0) == (if trimmed(inner).len() > 0 {
            seq![trimmed(inner)]
        } else {
            Seq::empty()
        }) + locs_from(rest, 0),
{
    let xml = a + "<loc>"@ + inner + "</loc>"@ + rest;
    let head = a + "<loc>"@ + inner + "</loc>"@;
    reveal_strlit("<loc>");
    reveal_strlit("</loc>");
    let n = a.len() as int;
    let m = n + 5 + inner.len();
    assert(xml.subrange(n, n + 5) =~= "<loc>"@);
    assert(occurs_at(xml, "<loc>"@, n));
    lemma_find_least(xml, "<loc>"@, 0);
    assert(find_from(xml, "<loc>"@, 0) == Some(n));
    assert(xml.subrange(m, m + 6) =~= "</loc>"@);
    assert(occurs_at(xml, "</loc>"@, m));
    lemma_find_least(xml, "</loc>"@, n + 5);
    assert(find_from(xml, "</loc>"@, n + 5) == Some(m));
    assert(xml.subrange(n + 5, m) =~= inner);
    assert(head.len() == m + 6);
    assert(xml =~= head + rest);
    lemma_locs_behind(head, rest, 0);
    assert(Seq::<Seq<char>>::empty() + locs_from(rest, 0) =~= locs_from(rest, 0));
}

/// A text without a `<loc>` tag lists nothing.
pub proof fn law_no_loc_no_url(xml: Seq<char>)
    requires
        !includes(xml, "<loc>"@),
    ensures
        locs_from(xml, 0).len() == 0,
{
    lemma_find_least(xml, "<loc>"@, 0);
}

} // verus!
