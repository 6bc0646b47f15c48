//! Extracting the record of a course from its page.

use vstd::prelude::*;

use crate::dom::{parsed_page, Document, Dom, PageView};
use crate::fields::is_na;
use crate::layer1::{filled_from_json_ld, layer1_json_ld};
use crate::layer2::{filled_from_page, layer2_selectors};
use crate::level::{content_level, study_level_from_content, study_level_from_url, url_level};
use crate::schema::{filled_among, CourseData, CourseView, NA};
use crate::text::strs;
use crate::unicode::lower;

verus! {

/// How many of the six critical fields have to be missing for a page to be rendered.
pub const RENDER_THRESHOLD: usize = 3;

/// The record of a course of which only the URL is known: empty, but for the study
/// level that the URL names.
pub open spec fn record_of_url(url: Seq<char>) -> CourseView {
    let v = CourseView::empty(url);
    match url_level(lower(url)) {
        Some(level) => CourseView { study_level: level, ..v },
        None => v,
    }
}

/// A record with the study level that a page names, if it had none.
pub open spec fn with_content_level(page: PageView, v: CourseView) -> CourseView {
    if v.study_level == NA@ {
        match content_level(page) {
            Some(level) => CourseView { study_level: level, ..v },
            None => v,
        }
    } else {
        v
    }
}

/// A record after a page was read: its JSON-LD data first, then the study level that
/// it names, then its elements and text.
pub open spec fn extracted_from_page(page: PageView, v: CourseView) -> CourseView {
    filled_from_page(page, with_content_level(page, filled_from_json_ld(page, v)))
}

/// The record of a course, given its page if that could be fetched.
pub open spec fn course_record(url: Seq<char>, page: Option<PageView>) -> CourseView {
    match page {
        Some(page) => extracted_from_page(page, record_of_url(url)),
        None => record_of_url(url),
    }
}

/// The critical fields of a record.
pub open spec fn critical_fields(v: CourseView) -> Seq<Seq<char>> {
    seq![
        v.program_course_name,
        v.study_level,
        v.course_duration,
        v.yearly_tuition_fee,
        v.all_intakes_available,
        v.campus,
    ]
}

/// Whether enough critical fields are missing to justify rendering the page.
pub open spec fn lacks_critical_fields(v: CourseView) -> bool {
    critical_fields(v).len() - filled_among(critical_fields(v)) >= RENDER_THRESHOLD
}

/// Fills a record from a page.
pub fn extract_page<D: Dom>(doc: &D, data: &mut CourseData)
    ensures
        final(data)@ == extracted_from_page(doc.page(), old(data)@),
{
    layer1_json_ld(doc, data);
    if is_na(&data.study_level) {
        match study_level_from_content(doc) {
            Some(level) => {
                data.study_level = level;
            },
            None => {},
        }
    }
    layer2_selectors(doc, data);
}

/// The record of a course of which only the URL is known.
pub fn start_course(url: &str) -> (result: CourseData)
    ensures
        result@ == record_of_url(url@),
{
    let mut data: CourseData = CourseData::new_empty(url);
    match study_level_from_url(url) {
        Some(level) => {
            data.study_level = level;
        },
        None => {},
    }
    data
}

/// Extracts the record of a course from the HTML text of its page, or from its URL
/// alone where the page could not be fetched.
pub fn extract_course(url: &str, html: Option<&str>) -> (result: CourseData)
    ensures
        result@ == course_record(
            url@,
            match html {
                Some(html) => Some(parsed_page(html@)),
                None => None,
            },
        ),
{
    let mut data: CourseData = start_course(url);
    match html {
        Some(html) => {
            let doc: Document = Document::parse(html);
            extract_page(&doc, &mut data);
        },
        None => {},
    }
    data
}

/// Fills the fields of a record that are still `NA` from a page that a browser has
/// rendered.
pub fn apply_rendered_page(html: &str, data: &mut CourseData)
    ensures
        final(data)@ == filled_from_page(parsed_page(html@), old(data)@),
{
    let doc: Document = Document::parse(html);
    layer2_selectors(&doc, data);
}

/// Returns `true` when enough critical fields are still `NA` to justify rendering
/// the page.
pub fn needs_js_render(data: &CourseData) -> (result: bool)
    ensures
        result == lacks_critical_fields(data@),
{
    let fields: [&String; 6] = [
        &data.program_course_name,
        &data.study_level,
        &data.course_duration,
        &data.yearly_tuition_fee,
        &data.all_intakes_available,
        &data.campus,
    ];
    let ghost all = critical_fields(data@);
    let mut missing: usize = 0;
    let mut i: usize = 0;
    proof {
        reveal(Seq::filter);
        assert(all.take(0) =~= Seq::empty());
    }
    while i < 6
        invariant
            i <= 6,
            all == critical_fields(data@),
            forall|j: int| 0 <= j < 6 ==> #[trigger] fields@[j]@ == all[j],
            missing <= i,
            missing == i - filled_among(all.take(i as int)),
        decreases 6 - i,
    {
        proof {
            reveal(Seq::filter);
            assert(all.take(i + 1).drop_last() =~= all.take(i as int));
            assert(fields@[i as int]@ == all[i as int]);
        }
        if is_na(fields[i]) {
            missing += 1;
        }
        i += 1;
    }
    assert(all.take(i as int) =~= all);
    missing >= RENDER_THRESHOLD
}

/// The places where a Chrome or Chromium executable is looked for, in order.
pub open spec fn chrome_paths() -> Seq<Seq<char>> {
    seq![
        r"C:\Program Files\Google\Chrome\Application\chrome.exe"@,
        r"C:\Program Files (x86)\Google\Chrome\Application\chrome.exe"@,
        "/usr/bin/google-chrome"@,
        "/usr/bin/chromium-browser"@,
        "/usr/bin/chromium"@,
        "/Applications/Google Chrome.app/Contents/MacOS/Google Chrome"@,
    ]
}

/// The places where a Chrome or Chromium executable is looked for, in order.
pub fn chrome_candidates() -> (result: [&'static str; 6])
    ensures
        strs(result@) == chrome_paths(),
{
    let result: [&'static str; 6] = [
        r"C:\Program Files\Google\Chrome\Application\chrome.exe",
        r"C:\Program Files (x86)\Google\Chrome\Application\chrome.exe",
        "/usr/bin/google-chrome",
        "/usr/bin/chromium-browser",
        "/usr/bin/chromium",
        "/Applications/Google Chrome.app/Contents/MacOS/Google Chrome",
    ];
    assert(strs(result@) =~= chrome_paths());
    result
}

/// Picks the executable to use, given which of the candidates exist.
pub fn find_chrome(present: &[bool; 6]) -> (result: Option<&'static str>)
    ensures
        match result {
            Some(path) => exists|k: int|
                0 <= k < 6 && present@[k] && path@ == #[trigger] chrome_paths()[k] && forall|j: int|
                    0 <= j < k ==> !#[trigger] present@[j],
            None => forall|j: int| 0 <= j < 6 ==> !#[trigger] present@[j],
        },
{
    let candidates: [&'static str; 6] = chrome_candidates();
    let mut i: usize = 0;
    while i < 6
        invariant
            i <= 6,
            strs(candidates@) == chrome_paths(),
            forall|j: int| 0 <= j < i ==> !#[trigger] present@[j],
        decreases 6 - i,
    {
        if present[i] {
            assert(strs(candidates@)[i as int] == candidates@[i as int]@);
            return Some(candidates[i]);
        }
        i += 1;
    }
    None
}

} // verus!
