//! Where the parts of a record come from, and what is reported of it.

use vstd::prelude::*;

use crate::dom::{ElementView, PageView};
use crate::duration::amount_text;
use crate::extractor::{
    chrome_paths, course_record, critical_fields, lacks_critical_fields, record_of_url, with_content_level,
};
use crate::layer1::filled_from_json_ld;
use crate::layer2::filled_from_page;
use crate::level::{
    breadcrumb_from, breadcrumb_on, breadcrumb_selectors, content_level, meta_from, url_level,
};
use crate::number::decimal;
use crate::record_laws::lemma_filled_take;
use crate::schema::{filled_among, CourseData, CourseView};
use crate::summary::{course_line, course_lines, filled_total};
use crate::text::includes;
use crate::text_laws::law_joined_without_separator;
use crate::unicode::lower;

verus! {

/// A URL names the level that its path names: undergraduate, postgraduate or research, in
/// that order, under the paths of both schemes.
pub proof fn law_level_of_url(url: Seq<char>)
    ensures
        ({
            let l = lower(url);
            let ug = includes(l, "/course-structure/ug/"@) || includes(
                l,
                "/courses/undergraduate/"@,
            );
            let pg = includes(l, "/course-structure/pg/"@) || includes(
                l,
                "/courses/postgraduate/"@,
            );
            let research = includes(l, "/course-structure/research/"@) || includes(
                l,
                "/courses/research/"@,
            );
            &&& ug ==> url_level(l) == Some("Undergraduate"@)
            &&& pg && !ug ==> url_level(l) == Some("Postgraduate"@)
            &&& research && !ug && !pg ==> url_level(l) == Some("Research"@)
            &&& !ug && !pg && !research ==> url_level(l) is None
        }),
{
}

/// The level that a breadcrumb names.
pub open spec fn crumb(e: ElementView, level: Seq<char>) -> bool {
    let t = lower(e.text.flatten());
    ||| includes(t, "undergraduate"@) && level == "Undergraduate"@
    ||| !includes(t, "undergraduate"@) && includes(t, "postgraduate"@) && level == "Postgraduate"@
    ||| !includes(t, "undergraduate"@) && !includes(t, "postgraduate"@) && includes(t, "research"@)
        && level == "Research"@
}

/// Whether an element names no level.
pub open spec fn no_crumb(e: ElementView) -> bool {
    let t = lower(e.text.flatten());
    !includes(t, "undergraduate"@) && !includes(t, "postgraduate"@) && !includes(t, "research"@)
}

/// The first breadcrumb of a list that names a level gives it.
proof fn lemma_crumb_from(list: Seq<ElementView>, from: int, i: int, level: Seq<char>)
    requires
        0 <= from <= i <= list.len(),
        forall|j: int| from <= j < i ==> no_crumb(#[trigger] list[j]),
        i < list.len() ==> crumb(list[i], level),
    ensures
        i < list.len() ==> breadcrumb_from(list, from) == Some(level),
        i == list.len() ==> breadcrumb_from(list, from) is None,
    decreases i - from,
{
    if from < list.len() {
        law_joined_without_separator(list[from].text);
        if from < i {
            assert(no_crumb(list[from]));
            lemma_crumb_from(list, from + 1, i, level);
        }
    }
}

/// Whether no element that a selector selects names a level.
pub open spec fn no_crumbs(page: PageView, selector: Seq<char>) -> bool {
    forall|j: int|
        0 <= j < page.select(selector).len() ==> no_crumb(#[trigger] page.select(selector)[j])
}

/// The first breadcrumb of a page that names a level gives it.
proof fn lemma_crumb_on(
    page: PageView,
    selectors: Seq<Seq<char>>,
    from: int,
    r: int,
    i: int,
    level: Seq<char>,
)
    requires
        0 <= from <= r <= selectors.len(),
        forall|q: int| from <= q < r ==> no_crumbs(page, #[trigger] selectors[q]),
        r < selectors.len() ==> {
            &&& 0 <= i < page.select(selectors[r]).len()
            &&& crumb(page.select(selectors[r])[i], level)
            &&& forall|j: int| 0 <= j < i ==> no_crumb(#[trigger] page.select(selectors[r])[j])
        },
    ensures
        r < selectors.len() ==> breadcrumb_on(page, selectors, from) == Some(level),
        r == selectors.len() ==> breadcrumb_on(page, selectors, from) is None,
    decreases r - from,
{
    if from < r {
        assert(no_crumbs(page, selectors[from]));
        let list = page.select(selectors[from]);
        lemma_crumb_from(list, 0, list.len() as int, level);
        lemma_crumb_on(page, selectors, from + 1, r, i, level);
    } else if r < selectors.len() {
        lemma_crumb_from(page.select(selectors[r]), 0, i, level);
    }
}

/// The level that the keywords or the description of a page suggest.
pub open spec fn hint(e: ElementView, level: Seq<char>) -> bool {
    e.content matches Some(content) && {
        let t = lower(content);
        let pg = includes(t, "postgraduate"@) || includes(t, "masters"@) || includes(t, "msc"@)
            || includes(t, "mba"@);
        ||| includes(t, "undergraduate"@) && level == "Undergraduate"@
        ||| !includes(t, "undergraduate"@) && pg && level == "Postgraduate"@
        ||| !includes(t, "undergraduate"@) && !pg && (includes(t, "phd"@) || includes(
            t,
            "doctorate"@,
        )) && level == "Research"@
    }
}

/// Whether an element suggests no level.
pub open spec fn no_hint(e: ElementView) -> bool {
    e.content matches Some(content) ==> {
        let t = lower(content);
        !(includes(t, "undergraduate"@) || includes(t, "postgraduate"@) || includes(t, "masters"@)
            || includes(t, "msc"@) || includes(t, "mba"@) || includes(t, "phd"@) || includes(
            t,
            "doctorate"@,
        ))
    }
}

/// The first description of a list that suggests a level gives it.
proof fn lemma_hint_from(list: Seq<ElementView>, from: int, i: int, level: Seq<char>)
    requires
        0 <= from <= i <= list.len(),
        forall|j: int| from <= j < i ==> no_hint(#[trigger] list[j]),
        i < list.len() ==> hint(list[i], level),
    ensures
        i < list.len() ==> meta_from(list, from) == Some(level),
        i == list.len() ==> meta_from(list, from) is None,
    decreases i - from,
{
    if from < i {
        assert(no_hint(list[from]));
        lemma_hint_from(list, from + 1, i, level);
    }
}

/// The level that a page names is that of the first breadcrumb that names one.
pub proof fn law_level_of_breadcrumbs(
    page: PageView,
    selectors: Seq<Seq<char>>,
    r: int,
    i: int,
    level: Seq<char>,
)
    requires
        selectors == seq![
            "nav[aria-label='breadcrumb'] li"@,
            ".breadcrumb li"@,
            "ol.breadcrumb li"@,
            ".c-breadcrumb__item"@,
        ],
        0 <= r < 4,
        0 <= i < page.select(selectors[r]).len(),
        crumb(page.select(selectors[r])[i], level),
        forall|j: int| 0 <= j < i ==> no_crumb(#[trigger] page.select(selectors[r])[j]),
        forall|q: int| 0 <= q < r ==> no_crumbs(page, #[trigger] selectors[q]),
    ensures
        content_level(page) == Some(level),
{
    assert(selectors =~= breadcrumb_selectors());
    lemma_crumb_on(page, selectors, 0, r, i, level);
}

/// Where no breadcrumb names a level, it is that of the first keywords or description that
/// suggest one, if any do.
pub proof fn law_level_of_description(
    page: PageView,
    list: Seq<ElementView>,
    i: int,
    level: Seq<char>,
)
    requires
        no_crumbs(page, "nav[aria-label='breadcrumb'] li"@),
        no_crumbs(page, ".breadcrumb li"@),
        no_crumbs(page, "ol.breadcrumb li"@),
        no_crumbs(page, ".c-breadcrumb__item"@),
        list == page.select("meta[name='keywords'], meta[name='description']"@),
        0 <= i <= list.len(),
        forall|j: int| 0 <= j < i ==> no_hint(#[trigger] list[j]),
        i < list.len() ==> hint(list[i], level),
    ensures
        i < list.len() ==> content_level(page) == Some(level),
        i == list.len() ==> content_level(page) is None,
{
    let all = breadcrumb_selectors();
    assert forall|q: int| 0 <= q < 4 implies no_crumbs(page, #[trigger] all[q]) by {
        assert(q == 0 || q == 1 || q == 2 || q == 3);
    }
    lemma_crumb_on(page, all, 0, 4, 0, level);
    lemma_hint_from(list, 0, i, level);
}

/// A record starts with what is known of every course, the URL, and the level that the URL
/// names; every other field is "NA".
pub proof fn law_record_of_url(url: Seq<char>)
    ensures
        ({
            let v = record_of_url(url);
            &&& v.university_name == "Coventry University"@
            &&& v.country == "United Kingdom"@
            &&& v.address == "Priory Street, Coventry, CV1 5FB, United Kingdom"@
            &&& v.course_website_url == url
            &&& url_level(lower(url)) matches Some(level) ==> v.study_level == level
            &&& url_level(lower(url)) is None ==> v.study_level == "NA"@
            &&& v.program_course_name == "NA"@ && v.campus == "NA"@ && v.course_duration == "NA"@
            &&& v.all_intakes_available == "NA"@ && v.mandatory_documents_required == "NA"@
            &&& v.yearly_tuition_fee == "NA"@ && v.scholarship_availability == "NA"@
            &&& v.gre_gmat_mandatory_min_score == "NA"@
            &&& v.indian_regional_institution_restrictions == "NA"@
            &&& v.class_12_boards_accepted == "NA"@ && v.gap_year_max_accepted == "NA"@
            &&& v.mandatory_work_exp == "NA"@ && v.max_backlogs == "NA"@
            &&& v.ug_academic_min_gpa == "NA"@ && v.twelfth_pass_min_cgpa == "NA"@
            &&& v.min_ielts == "NA"@ && v.min_pte == "NA"@ && v.min_toefl == "NA"@
            &&& v.min_duolingo == "NA"@ && v.kaplan_test_of_english == "NA"@
            &&& v.english_waiver_class12 == "NA"@ && v.english_waiver_moi == "NA"@
        }),
{
}

/// The record of a page that was fetched is filled from its structured data first, then the
/// study level from its breadcrumbs or description if that is still "NA", then from its
/// elements and text. Without a page it is that of the URL.
pub proof fn law_layers_in_order(url: Seq<char>, page: PageView)
    ensures
        ({
            let a = filled_from_json_ld(page, record_of_url(url));
            let b = with_content_level(page, a);
            &&& course_record(url, Some(page)) == filled_from_page(page, b)
            &&& a.study_level != "NA"@ ==> b == a
            &&& a.study_level == "NA"@ ==> b == (CourseView {
                study_level: match content_level(page) {
                    Some(level) => level,
                    None => "NA"@,
                },
                ..a
            })
        }),
        course_record(url, None) == record_of_url(url),
{
}

/// One for a field that is "NA", none for any other.
pub open spec fn missing(field: Seq<char>) -> int {
    if field == "NA"@ {
        1
    } else {
        0
    }
}

/// A page is rendered exactly where at least three of the name, the study level, the
/// duration, the fee, the intakes and the campus are missing.
pub proof fn law_pages_to_render(v: CourseView)
    ensures
        lacks_critical_fields(v) <==> missing(v.program_course_name) + missing(v.study_level)
            + missing(v.course_duration) + missing(v.yearly_tuition_fee) + missing(
            v.all_intakes_available,
        ) + missing(v.campus) >= 3,
{
    let all = critical_fields(v);
    assert(all.take(0) =~= Seq::empty());
    reveal(Seq::filter);
    lemma_filled_take(all, 0);
    lemma_filled_take(all, 1);
    lemma_filled_take(all, 2);
    lemma_filled_take(all, 3);
    lemma_filled_take(all, 4);
    lemma_filled_take(all, 5);
    assert(all.take(6) =~= all);
}

/// A record is worth keeping exactly where its course name is not "NA".
pub proof fn law_valid_records(v: CourseView)
    ensures
        v.valid() <==> v.program_course_name != "NA"@,
{
}

/// Each text that is not "NA" counts once among several ones.
pub proof fn law_filled_texts(list: Seq<Seq<char>>, t: Seq<char>)
    ensures
        filled_among(Seq::empty()) == 0,
        filled_among(list.push(t)) == filled_among(list) + 1 - missing(t),
{
    reveal(Seq::filter);
    assert(list.push(t).drop_last() =~= list);
}

/// The number of filled fields counts all twenty-seven fields of the record.
pub proof fn law_filled_fields(v: CourseView)
    ensures
        v.filled() == filled_among(
            seq![
                v.program_course_name,
                v.university_name,
                v.course_website_url,
                v.campus,
                v.country,
                v.address,
                v.study_level,
                v.course_duration,
                v.all_intakes_available,
                v.mandatory_documents_required,
                v.yearly_tuition_fee,
                v.scholarship_availability,
                v.gre_gmat_mandatory_min_score,
                v.indian_regional_institution_restrictions,
                v.class_12_boards_accepted,
                v.gap_year_max_accepted,
                v.mandatory_work_exp,
                v.max_backlogs,
                v.ug_academic_min_gpa,
                v.twelfth_pass_min_cgpa,
                v.min_ielts,
                v.min_pte,
                v.min_toefl,
                v.min_duolingo,
                v.kaplan_test_of_english,
                v.english_waiver_class12,
                v.english_waiver_moi,
            ],
        ),
        v.fields().len() == 27,
{
    assert(v.fields() =~= seq![
        v.program_course_name,
        v.university_name,
        v.course_website_url,
        v.campus,
        v.country,
        v.address,
        v.study_level,
        v.course_duration,
        v.all_intakes_available,
        v.mandatory_documents_required,
        v.yearly_tuition_fee,
        v.scholarship_availability,
        v.gre_gmat_mandatory_min_score,
        v.indian_regional_institution_restrictions,
        v.class_12_boards_accepted,
        v.gap_year_max_accepted,
        v.mandatory_work_exp,
        v.max_backlogs,
        v.ug_academic_min_gpa,
        v.twelfth_pass_min_cgpa,
        v.min_ielts,
        v.min_pte,
        v.min_toefl,
        v.min_duolingo,
        v.kaplan_test_of_english,
        v.english_waiver_class12,
        v.english_waiver_moi,
    ]);
}

/// A record is reported by the course name and the number of filled fields out of
/// twenty-seven.
pub proof fn law_line_of_a_course(course: CourseView)
    ensures
        course_line(course) == course.program_course_name + " ("@ + decimal(course.filled())
            + "/27)"@,
{
    reveal_strlit("/");
    reveal_strlit(")");
    reveal_strlit("/27)");
    assert(CourseData::FIELD_COUNT == 27);
    reveal_with_fuel(decimal, 3);
    assert(decimal(27) =~= seq!['2', '7']);
    assert(course.program_course_name + " ("@ + decimal(course.filled()) + "/"@ + decimal(27) + ")"@
        =~= course.program_course_name + " ("@ + decimal(course.filled()) + "/27)"@);
}

/// The fields filled over several records are those of each.
pub proof fn law_totals_add_up(a: Seq<CourseView>, b: Seq<CourseView>, course: CourseView)
    ensures
        filled_total(a + b) == filled_total(a) + filled_total(b),
        filled_total(seq![course]) == course.filled(),
    decreases b.len(),
{
    if b.len() == 0 {
        assert(a + b =~= a);
    } else {
        law_totals_add_up(a, b.drop_last(), course);
        assert((a + b).drop_last() =~= a + b.drop_last());
    }
    reveal_with_fuel(filled_total, 2);
    assert(seq![course].drop_last() =~= Seq::empty());
}

/// The records are reported one after the other, with commas between them.
pub proof fn law_lines_of_courses(courses: Seq<CourseView>, course: CourseView)
    ensures
        course_lines(seq![course]) == course_line(course),
        courses.len() > 0 ==> course_lines(courses.push(course)) == course_lines(courses) + ", "@
            + course_line(course),
{
    let one = seq![course].map_values(|c: CourseView| course_line(c));
    assert(one.len() == 1 && one[0] == course_line(course));
    let more = courses.push(course).map_values(|c: CourseView| course_line(c));
    assert(more.drop_last() =~= courses.map_values(|c: CourseView| course_line(c)));
}

/// An amount of one is written in the singular, any other in the plural.
pub proof fn law_amounts_in_words(n: nat, label: Seq<char>)
    ensures
        n == 1 ==> amount_text(n, label) == "1 "@ + label,
        n != 1 ==> amount_text(n, label) == decimal(n) + " "@ + label + "s"@,
{
    reveal_strlit("1 ");
    reveal_strlit(" ");
    reveal_strlit("s");
    if n == 1 {
        assert(decimal(1) =~= seq!['1']);
        assert(amount_text(n, label) =~= "1 "@ + label);
    } else {
        assert(amount_text(n, label) =~= decimal(n) + " "@ + label + "s"@);
    }
}

/// Chrome is looked for where Windows, Linux and macOS keep it, in that order.
pub proof fn law_places_of_chrome(k: int)
    ensures
        chrome_paths().len() == 6,
        k == 0 ==> chrome_paths()[k] == r"C:\Program Files\Google\Chrome\Application\chrome.exe"@,
        k == 1 ==> chrome_paths()[k]
            == r"C:\Program Files (x86)\Google\Chrome\Application\chrome.exe"@,
        k == 2 ==> chrome_paths()[k] == "/usr/bin/google-chrome"@,
        k == 3 ==> chrome_paths()[k] == "/usr/bin/chromium-browser"@,
        k == 4 ==> chrome_paths()[k] == "/usr/bin/chromium"@,
        k == 5 ==> chrome_paths()[k]
            == "/Applications/Google Chrome.app/Contents/MacOS/Google Chrome"@,
{
}

} // verus!
