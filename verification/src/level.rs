//! The study level of a course.

use vstd::prelude::*;
use vstd::utf8::is_ascii_chars;

use crate::dom::{element_views, Dom, Element, ElementView, PageView};
use crate::page::{plain, plain_text};
use crate::text::{contains, includes, includes_any, optional, strs};
use crate::unicode::{lower, to_lower, upper};
use crate::urls::{course_url, legacy_paths, lemma_lower_of_upper, structure_paths};

verus! {

/// The selector of a page's keywords and description.
pub const META_SELECTOR: &'static str = "meta[name='keywords'], meta[name='description']";

/// The study level that the path of a lowercase URL names.
pub open spec fn url_level(url: Seq<char>) -> Option<Seq<char>> {
    if includes(url, "/course-structure/ug/"@) || includes(url, "/courses/undergraduate/"@) {
        Some("Undergraduate"@)
    } else if includes(url, "/course-structure/pg/"@) || includes(
        url,
        "/courses/postgraduate/"@,
    ) {
        Some("Postgraduate"@)
    } else if includes(url, "/course-structure/research/"@) || includes(
        url,
        "/courses/research/"@,
    ) {
        Some("Research"@)
    } else {
        None
    }
}

/// Derives the study level from the path of a URL.
pub fn study_level_from_url(url: &str) -> (result: Option<String>)
    ensures
        optional(result) == url_level(lower(url@)),
{
    let url: String = to_lower(url);
    let url: &str = url.as_str();
    if contains(url, "/course-structure/ug/") || contains(url, "/courses/undergraduate/") {
        Some("Undergraduate".to_string())
    } else if contains(url, "/course-structure/pg/") || contains(url, "/courses/postgraduate/") {
        Some("Postgraduate".to_string())
    } else if contains(url, "/course-structure/research/") || contains(url, "/courses/research/") {
        Some("Research".to_string())
    } else {
        None
    }
}

/// The selectors of the items of a breadcrumb trail.
pub open spec fn breadcrumb_selectors() -> Seq<Seq<char>> {
    seq![
        "nav[aria-label='breadcrumb'] li"@,
        ".breadcrumb li"@,
        "ol.breadcrumb li"@,
        ".c-breadcrumb__item"@,
    ]
}

/// The study level that a lowercase breadcrumb names.
pub open spec fn breadcrumb_level(t: Seq<char>) -> Option<Seq<char>> {
    if includes(t, "undergraduate"@) {
        Some("Undergraduate"@)
    } else if includes(t, "postgraduate"@) {
        Some("Postgraduate"@)
    } else if includes(t, "research"@) {
        Some("Research"@)
    } else {
        None
    }
}

/// The study level that a lowercase page description suggests.
pub open spec fn meta_level(t: Seq<char>) -> Option<Seq<char>> {
    if includes(t, "undergraduate"@) {
        Some("Undergraduate"@)
    } else if includes(t, "postgraduate"@) || includes(t, "masters"@) || includes(t, "msc"@)
        || includes(t, "mba"@) {
        Some("Postgraduate"@)
    } else if includes(t, "phd"@) || includes(t, "doctorate"@) {
        Some("Research"@)
    } else {
        None
    }
}

/// The first level that one of several breadcrumbs names, from an index on.
pub open spec fn breadcrumb_from(list: Seq<ElementView>, i: int) -> Option<Seq<char>>
    decreases list.len() - i,
{
    if i < 0 || i >= list.len() {
        None
    } else if breadcrumb_level(lower(plain(list[i]))) is Some {
        breadcrumb_level(lower(plain(list[i])))
    } else {
        breadcrumb_from(list, i + 1)
    }
}

/// The first level that a breadcrumb of a page names, by selector from an index on.
pub open spec fn breadcrumb_on(page: PageView, selectors: Seq<Seq<char>>, i: int) -> Option<
    Seq<char>,
>
    decreases selectors.len() - i,
{
    if i < 0 || i >= selectors.len() {
        None
    } else if breadcrumb_from(page.select(selectors[i]), 0) is Some {
        breadcrumb_from(page.select(selectors[i]), 0)
    } else {
        breadcrumb_on(page, selectors, i + 1)
    }
}

/// The level that one description suggests.
pub open spec fn meta_value(e: ElementView) -> Option<Seq<char>> {
    match e.content {
        Some(content) => meta_level(lower(content)),
        None => None,
    }
}

/// The first level that one of several descriptions suggests, from an index on.
pub open spec fn meta_from(list: Seq<ElementView>, i: int) -> Option<Seq<char>>
    decreases list.len() - i,
{
    if i < 0 || i >= list.len() {
        None
    } else if meta_value(list[i]) is Some {
        meta_value(list[i])
    } else {
        meta_from(list, i + 1)
    }
}

/// The study level that a page names: in its breadcrumbs, or else in its keywords
/// and description.
pub open spec fn content_level(page: PageView) -> Option<Seq<char>> {
    if breadcrumb_on(page, breadcrumb_selectors(), 0) is Some {
        breadcrumb_on(page, breadcrumb_selectors(), 0)
    } else {
        meta_from(page.select(META_SELECTOR@), 0)
    }
}

/// The study level that a lowercase breadcrumb names.
pub fn level_of_breadcrumb(t: &str) -> (result: Option<String>)
    ensures
        optional(result) == breadcrumb_level(t@),
{
    if contains(t, "undergraduate") {
        Some("Undergraduate".to_string())
    } else if contains(t, "postgraduate") {
        Some("Postgraduate".to_string())
    } else if contains(t, "research") {
        Some("Research".to_string())
    } else {
        None
    }
}

/// The study level that a lowercase page description suggests.
pub fn level_of_meta(t: &str) -> (result: Option<String>)
    ensures
        optional(result) == meta_level(t@),
{
    if contains(t, "undergraduate") {
        Some("Undergraduate".to_string())
    } else if contains(t, "postgraduate") || contains(t, "masters") || contains(t, "msc")
        || contains(t, "mba") {
        Some("Postgraduate".to_string())
    } else if contains(t, "phd") || contains(t, "doctorate") {
        Some("Research".to_string())
    } else {
        None
    }
}

/// The first level that one of several breadcrumbs names.
fn first_breadcrumb_level(list: &Vec<Element>) -> (result: Option<String>)
    ensures
        optional(result) == breadcrumb_from(element_views(list@), 0),
{
    let mut i: usize = 0;
    while i < list.len()
        invariant
            i <= list@.len(),
            breadcrumb_from(element_views(list@), 0) == breadcrumb_from(
                element_views(list@),
                i as int,
            ),
        decreases list@.len() - i,
    {
        assert(element_views(list@)[i as int] == list@[i as int]@);
        let level: Option<String> = level_of_breadcrumb(
            to_lower(plain_text(&list[i]).as_str()).as_str(),
        );
        if level.is_some() {
            return level;
        }
        i += 1;
    }
    None
}

/// The first level that one of several descriptions suggests.
fn first_meta_level(list: &Vec<Element>) -> (result: Option<String>)
    ensures
        optional(result) == meta_from(element_views(list@), 0),
{
    let mut i: usize = 0;
    while i < list.len()
        invariant
            i <= list@.len(),
            meta_from(element_views(list@), 0) == meta_from(element_views(list@), i as int),
        decreases list@.len() - i,
    {
        assert(element_views(list@)[i as int] == list@[i as int]@);
        match &list[i].content {
            Some(content) => {
                let level: Option<String> = level_of_meta(to_lower(content.as_str()).as_str());
                if level.is_some() {
                    return level;
                }
            },
            None => {},
        }
        i += 1;
    }
    None
}

/// Derives the study level from page content when the URL does not make it clear.
pub fn study_level_from_content<D: Dom>(doc: &D) -> (result: Option<String>)
    ensures
        optional(result) == content_level(doc.page()),
{
    let selectors: [&str; 4] = [
        "nav[aria-label='breadcrumb'] li",
        ".breadcrumb li",
        "ol.breadcrumb li",
        ".c-breadcrumb__item",
    ];
    assert(strs(selectors@) =~= breadcrumb_selectors());
    let mut i: usize = 0;
    while i < 4
        invariant
            i <= 4,
            strs(selectors@) == breadcrumb_selectors(),
            breadcrumb_on(doc.page(), breadcrumb_selectors(), 0) == breadcrumb_on(
                doc.page(),
                breadcrumb_selectors(),
                i as int,
            ),
        decreases 4 - i,
    {
        assert(strs(selectors@)[i as int] == selectors@[i as int]@);
        let level: Option<String> = first_breadcrumb_level(&doc.select(selectors[i]));
        if level.is_some() {
            return level;
        }
        i += 1;
    }
    first_meta_level(&doc.select(META_SELECTOR))
}

/// Every course URL names a study level, so that it is known without a fetch.
pub proof fn law_course_url_names_level(url: Seq<char>)
    requires
        course_url(url),
    ensures
        url_level(lower(url)) is Some,
{
    let l = lower(url);
    if includes_any(l, structure_paths()) {
        let k = choose|k: int|
            0 <= k < structure_paths().len() && includes(l, #[trigger] structure_paths()[k]);
        assert(k == 0 || k == 1 || k == 2);
    }
    if includes_any(l, legacy_paths()) {
        let k = choose|k: int|
            0 <= k < legacy_paths().len() && includes(l, #[trigger] legacy_paths()[k]);
        assert(k == 0 || k == 1 || k == 2);
    }
}

/// Every ASCII URL names the same study level in uppercase, or none in either case.
pub proof fn law_level_in_any_case(url: Seq<char>)
    requires
        is_ascii_chars(url),
    ensures
        url_level(lower(upper(url))) == url_level(lower(url)),
{
    lemma_lower_of_upper(url);
}

} // verus!
