//! Layer 2: filling a record from the elements and the text of a page.

use vstd::prelude::*;

use crate::dom::{element_views, Dom, Element, ElementView, PageView};
use crate::english::{
    free_or_none, has_english_score, holds_english_score, keep_free, number_is_score,
    number_score_at,
};
use crate::english_laws::{lemma_joined_holds_none, lemma_trimmed_holds_none};
use crate::fields::{fill, fill_other, is_na, set_if_na, set_other_if_na};
use crate::intakes::{current_intakes, keep_current_intakes};
use crate::number::digit;
use crate::page::{
    first_text, first_text_from, labeled, main_content_text, main_text, plain, plain_text,
    section_from, text_from_selectors, value_or_none,
};
use crate::pattern::{captures, group, group_of, regex_groups};
use crate::schema::{CourseData, CourseView};
use crate::scores::{
    extract_test_score, fold, groups_view, mentions_test, names_test, test_score, Groups, ScoreKind,
};
use crate::text::{
    chars_of, contains, contains_any, includes, includes_any, join, joined, matches_at, occurs_at,
    optional, remove_all, sentences, sentences_from, strs, texts, trim, trimmed, without,
};
use crate::unicode::{folded, is_digit, is_letter, letter, lower, to_lower, to_upper, upper};

verus! {

/// A fee anywhere in a text.
pub const FEE_PATTERN: &'static str = r"£\s*[\d,]+(?:\s*per\s+year)?|GBP\s*[\d,]+";

/// A number of years of experience.
pub const EXPERIENCE_PATTERN: &'static str = r"(?i)\d+\s+years?['\s]+(?:of\s+)?(?:relevant\s+)?(?:professional\s+)?experience";

/// A gap year, the number that follows it in the sentence, and the rest of the sentence.
pub const GAP_YEAR_PATTERN: &'static str = r"(?i)gap year[^.]*?(\d+)((?:\.\d|[^.])*)";

/// What a sentence says about institutions in India.
pub const INDIA_PATTERN: &'static str = r"(?i)(?:india[^\.\n]*?(?:university|institution|college|board)[^\.\n]*\.)";

/// The selector of links to funding pages.
pub const SCHOLARSHIP_LINKS: &'static str = "a[href*='scholarship'], a[href*='bursary'], a[href*='funding']";

/// What is recorded where a page mentions scholarships.
pub const SCHOLARSHIPS_AVAILABLE: &'static str = "Scholarships available (see course page)";

/// What is recorded where study in English may waive a test.
pub const WAIVER_MOI: &'static str = "May be waived if previous study was conducted in English — see course page";

/// What is recorded where a school grade in English may waive a test.
pub const WAIVER_CLASS12: &'static str = "English at GCSE grade C/4 or equivalent may satisfy the requirement";

/// What is recorded where a gap year is mentioned without a number.
pub const GAP_YEAR_PERMITTED: &'static str = "Permitted — see entry requirements";

/// The selectors of a course title.
pub open spec fn name_selectors() -> Seq<Seq<char>> {
    seq![
        "h1.course-title"@,
        ".course-header h1"@,
        ".c-course-header__title"@,
        ".course-hero__title"@,
        "h1"@,
    ]
}

/// The selectors of the study level.
pub open spec fn level_selectors() -> Seq<Seq<char>> {
    seq![
        "nav[aria-label='breadcrumb'] li:nth-child(2)"@,
        ".breadcrumb li:nth-child(2)"@,
        "ol.breadcrumb li:nth-child(2)"@,
        ".c-breadcrumb__item:nth-child(2)"@,
        "[data-study-level]"@,
        ".course-level"@,
        ".study-level"@,
    ]
}

/// The labels of the duration.
pub open spec fn duration_labels() -> Seq<Seq<char>> {
    seq![
        "Duration"@,
        "Course length"@,
        "Length"@,
        "Study mode"@,
    ]
}

/// The labels of the tuition fee, the international fee first.
pub open spec fn fee_labels() -> Seq<Seq<char>> {
    seq![
        "International fee"@,
        "International tuition fee"@,
        "Tuition fees"@,
        "Annual tuition fee"@,
        "Fees"@,
        "Fee"@,
        "Tuition fee"@,
    ]
}

/// The selectors of the values of a key-info strip.
pub open spec fn fee_selectors() -> Seq<Seq<char>> {
    seq![
        ".c-key-info__value"@,
        ".key-info__value"@,
        ".course-detail__value"@,
        ".keyinfo__value"@,
    ]
}

/// The labels of the start dates.
pub open spec fn intake_labels() -> Seq<Seq<char>> {
    seq![
        "Start date"@,
        "Start dates"@,
        "Entry point"@,
        "Entry"@,
        "Intake"@,
        "When can I start"@,
    ]
}

/// The labels of the campus.
pub open spec fn campus_labels() -> Seq<Seq<char>> {
    seq![
        "Campus"@,
        "Location"@,
        "Study location"@,
        "Where"@,
    ]
}

/// The selectors of the entry requirements.
pub open spec fn document_selectors() -> Seq<Seq<char>> {
    seq![
        "#entry-requirements"@,
        "[data-tab='entry-requirements']"@,
        "#tab-entry-requirements"@,
        ".entry-requirements__content"@,
        ".entry-requirements"@,
        ".requirements-section"@,
        ".c-entry-requirements"@,
    ]
}

/// How the words of a sentence on documents begin.
pub open spec fn document_words() -> Seq<Seq<char>> {
    seq![
        "transcript"@,
        "statement"@,
        "letter"@,
        "reference"@,
        "recommendation"@,
        "certificate"@,
        "passport"@,
        "curriculum vitae"@,
        "resume"@,
        "résumé"@,
        "portfolio"@,
        "research proposal"@,
        "essay"@,
        "writing sample"@,
        "application form"@,
        "photograph"@,
        "identification"@,
        "proof of"@,
        "document"@,
        "submit"@,
        "upload"@,
        "motivation"@,
        "research plan"@,
        "evidence of"@,
        "copy of"@,
        "copies"@,
    ]
}

/// The short names of documents.
pub open spec fn short_document_names() -> Seq<Seq<char>> {
    seq!["cv"@, "cvs"@]
}

/// The selectors of the section that names school qualifications.
pub open spec fn class12_selectors() -> Seq<Seq<char>> {
    seq![
        "#entry-requirements"@,
        ".entry-requirements"@,
        ".entry-requirements__content"@,
        "#tab-entry-requirements"@,
    ]
}

/// The words of a sentence on school qualifications.
pub open spec fn class12_words() -> Seq<Seq<char>> {
    seq![
        "a-level"@,
        "a level"@,
        "ib diploma"@,
        "international baccalaureate"@,
        "btec"@,
        "gcse"@,
        "12th"@,
        "high school"@,
        "secondary school"@,
        "qualification"@,
        "grade"@,
    ]
}

/// The labels of the degree requirement.
pub open spec fn degree_labels() -> Seq<Seq<char>> {
    seq![
        "Degree classification"@,
        "Minimum grade"@,
        "GPA"@,
        "Academic requirement"@,
        "Honours degree"@,
    ]
}

/// The labels of the school grade requirement.
pub open spec fn twelfth_labels() -> Seq<Seq<char>> {
    seq![
        "A-level"@,
        "A level"@,
        "GCSE"@,
        "12th"@,
        "Twelfth"@,
        "High school grade"@,
    ]
}

/// The labels of the work experience requirement.
pub open spec fn experience_labels() -> Seq<Seq<char>> {
    seq![
        "Work experience"@,
        "Professional experience"@,
        "Industry experience"@,
        "Relevant experience"@,
    ]
}

/// The labels of the backlog limit.
pub open spec fn backlog_labels() -> Seq<Seq<char>> {
    seq![
        "Backlog"@,
        "Backlogs"@,
        "Arrears"@,
        "Standing arrears"@,
    ]
}

/// The selectors of a scholarship section.
pub open spec fn scholarship_selectors() -> Seq<Seq<char>> {
    seq![
        ".scholarships"@,
        "#scholarships"@,
        "[data-section='scholarships']"@,
        ".funding-section"@,
        ".c-scholarships"@,
        "#funding"@,
    ]
}

/// The phrases on study in English.
pub open spec fn moi_words() -> Seq<Seq<char>> {
    seq![
        "medium of instruction"@,
        "english-taught"@,
        "taught in english"@,
        "english taught"@,
        "exempt if"@,
    ]
}

/// The phrases on a school grade in English.
pub open spec fn gcse_english_words() -> Seq<Seq<char>> {
    seq![
        "english at gcse"@,
        "english language gcse"@,
        "grade c in english"@,
        "grade 4 in english"@,
        "english gcse"@,
    ]
}

/// The names of IELTS.
pub open spec fn ielts_names() -> Seq<Seq<char>> {
    seq![
        "IELTS"@,
    ]
}

/// The names of PTE Academic.
pub open spec fn pte_names() -> Seq<Seq<char>> {
    seq![
        "PTE Academic"@,
        "PTE"@,
    ]
}

/// The names of TOEFL.
pub open spec fn toefl_names() -> Seq<Seq<char>> {
    seq![
        "TOEFL iBT"@,
        "TOEFL"@,
    ]
}

/// The names of the Duolingo English Test.
pub open spec fn duolingo_names() -> Seq<Seq<char>> {
    seq![
        "Duolingo English Test"@,
        "Duolingo"@,
        "DET"@,
    ]
}

/// The names of the Kaplan test.
pub open spec fn kaplan_names() -> Seq<Seq<char>> {
    seq![
        "Kaplan Test of English"@,
        "Kaplan"@,
    ]
}

/// The names of the graduate admission tests.
pub open spec fn admission_names() -> Seq<Seq<char>> {
    seq![
        "GRE"@,
        "GMAT"@,
    ]
}

/// The course duration that a page gives.
pub open spec fn duration_value(page: PageView) -> Option<Seq<char>> {
    value_or_none(page, duration_labels())
}

/// Reads the course duration that a page gives.
fn read_duration<D: Dom>(doc: &D) -> (result: Option<String>)
    ensures
        optional(result) == duration_value(doc.page()),
{
    let list: [&str; 4] = [
        "Duration",
        "Course length",
        "Length",
        "Study mode",
    ];
    assert(strs(list@) =~= duration_labels());
    labeled(doc, &list)
}

/// The campus that a page gives.
pub open spec fn campus_value(page: PageView) -> Option<Seq<char>> {
    value_or_none(page, campus_labels())
}

/// Reads the campus that a page gives.
fn read_campus<D: Dom>(doc: &D) -> (result: Option<String>)
    ensures
        optional(result) == campus_value(doc.page()),
{
    let list: [&str; 4] = [
        "Campus",
        "Location",
        "Study location",
        "Where",
    ];
    assert(strs(list@) =~= campus_labels());
    labeled(doc, &list)
}

/// The degree requirement that a page gives.
pub open spec fn degree_value(page: PageView) -> Option<Seq<char>> {
    value_or_none(page, degree_labels())
}

/// Reads the degree requirement that a page gives.
fn read_degree<D: Dom>(doc: &D) -> (result: Option<String>)
    ensures
        optional(result) == degree_value(doc.page()),
{
    let list: [&str; 5] = [
        "Degree classification",
        "Minimum grade",
        "GPA",
        "Academic requirement",
        "Honours degree",
    ];
    assert(strs(list@) =~= degree_labels());
    labeled(doc, &list)
}

/// The school grade requirement that a page gives.
pub open spec fn twelfth_value(page: PageView) -> Option<Seq<char>> {
    value_or_none(page, twelfth_labels())
}

/// Reads the school grade requirement that a page gives.
fn read_twelfth<D: Dom>(doc: &D) -> (result: Option<String>)
    ensures
        optional(result) == twelfth_value(doc.page()),
{
    let list: [&str; 6] = [
        "A-level",
        "A level",
        "GCSE",
        "12th",
        "Twelfth",
        "High school grade",
    ];
    assert(strs(list@) =~= twelfth_labels());
    labeled(doc, &list)
}

/// The backlog limit that a page gives.
pub open spec fn backlog_value(page: PageView) -> Option<Seq<char>> {
    value_or_none(page, backlog_labels())
}

/// Reads the backlog limit that a page gives.
fn read_backlog<D: Dom>(doc: &D) -> (result: Option<String>)
    ensures
        optional(result) == backlog_value(doc.page()),
{
    let list: [&str; 4] = [
        "Backlog",
        "Backlogs",
        "Arrears",
        "Standing arrears",
    ];
    assert(strs(list@) =~= backlog_labels());
    labeled(doc, &list)
}

/// The course name that a page shows.
pub open spec fn name_value(page: PageView) -> Option<Seq<char>> {
    first_text_from(page, name_selectors(), 0)
}

/// Reads the course name that a page shows.
fn read_name<D: Dom>(doc: &D) -> (result: Option<String>)
    ensures
        optional(result) == name_value(doc.page()),
{
    let list: [&str; 5] = [
        "h1.course-title",
        ".course-header h1",
        ".c-course-header__title",
        ".course-hero__title",
        "h1",
    ];
    assert(strs(list@) =~= name_selectors());
    first_text(doc, &list)
}

/// The study level that a page shows.
pub open spec fn level_value(page: PageView) -> Option<Seq<char>> {
    first_text_from(page, level_selectors(), 0)
}

/// Reads the study level that a page shows.
fn read_level<D: Dom>(doc: &D) -> (result: Option<String>)
    ensures
        optional(result) == level_value(doc.page()),
{
    let list: [&str; 7] = [
        "nav[aria-label='breadcrumb'] li:nth-child(2)",
        ".breadcrumb li:nth-child(2)",
        "ol.breadcrumb li:nth-child(2)",
        ".c-breadcrumb__item:nth-child(2)",
        "[data-study-level]",
        ".course-level",
        ".study-level",
    ];
    assert(strs(list@) =~= level_selectors());
    first_text(doc, &list)
}

/// The IELTS score that a text asks for.
pub open spec fn ielts_value(content: Seq<char>) -> Option<Seq<char>> {
    test_score(content, ielts_names(), ScoreKind::General)
}

/// Reads the IELTS score that a text asks for.
pub fn read_ielts(content: &str) -> (result: Option<String>)
    ensures
        optional(result) == ielts_value(content@),
{
    let list: [&str; 1] = [
        "IELTS",
    ];
    assert(strs(list@) =~= ielts_names());
    extract_test_score(content, &list, ScoreKind::General)
}

/// The PTE Academic score that a text asks for.
pub open spec fn pte_value(content: Seq<char>) -> Option<Seq<char>> {
    test_score(content, pte_names(), ScoreKind::Pte)
}

/// Reads the PTE Academic score that a text asks for.
pub fn read_pte(content: &str) -> (result: Option<String>)
    ensures
        optional(result) == pte_value(content@),
{
    let list: [&str; 2] = [
        "PTE Academic",
        "PTE",
    ];
    assert(strs(list@) =~= pte_names());
    extract_test_score(content, &list, ScoreKind::Pte)
}

/// The TOEFL score that a text asks for.
pub open spec fn toefl_value(content: Seq<char>) -> Option<Seq<char>> {
    test_score(content, toefl_names(), ScoreKind::General)
}

/// Reads the TOEFL score that a text asks for.
pub fn read_toefl(content: &str) -> (result: Option<String>)
    ensures
        optional(result) == toefl_value(content@),
{
    let list: [&str; 2] = [
        "TOEFL iBT",
        "TOEFL",
    ];
    assert(strs(list@) =~= toefl_names());
    extract_test_score(content, &list, ScoreKind::General)
}

/// The Duolingo score that a text asks for.
pub open spec fn duolingo_value(content: Seq<char>) -> Option<Seq<char>> {
    test_score(content, duolingo_names(), ScoreKind::General)
}

/// Reads the Duolingo score that a text asks for.
pub fn read_duolingo(content: &str) -> (result: Option<String>)
    ensures
        optional(result) == duolingo_value(content@),
{
    let list: [&str; 3] = [
        "Duolingo English Test",
        "Duolingo",
        "DET",
    ];
    assert(strs(list@) =~= duolingo_names());
    extract_test_score(content, &list, ScoreKind::General)
}

/// The Kaplan score that a text asks for.
pub open spec fn kaplan_value(content: Seq<char>) -> Option<Seq<char>> {
    test_score(content, kaplan_names(), ScoreKind::General)
}

/// Reads the Kaplan score that a text asks for.
pub fn read_kaplan(content: &str) -> (result: Option<String>)
    ensures
        optional(result) == kaplan_value(content@),
{
    let list: [&str; 2] = [
        "Kaplan Test of English",
        "Kaplan",
    ];
    assert(strs(list@) =~= kaplan_names());
    extract_test_score(content, &list, ScoreKind::General)
}

/// The intakes that a page lists, without those of past years.
pub open spec fn intake_value(page: PageView) -> Option<Seq<char>> {
    match value_or_none(page, intake_labels()) {
        Some(value) => Some(current_intakes(value)),
        None => None,
    }
}

/// Reads the intakes off a page.
fn read_intake<D: Dom>(doc: &D) -> (result: Option<String>)
    ensures
        optional(result) == intake_value(doc.page()),
{
    let list: [&str; 6] = [
        "Start date",
        "Start dates",
        "Entry point",
        "Entry",
        "Intake",
        "When can I start",
    ];
    assert(strs(list@) =~= intake_labels());
    match labeled(doc, &list) {
        Some(value) => Some(keep_current_intakes(value.as_str())),
        None => None,
    }
}

/// Whether a text shows an amount in pounds.
pub open spec fn shows_fee(text: Seq<char>) -> bool {
    includes(text, "£"@) || includes(upper(text), "GBP"@)
}

/// The first fee among several elements, from an index on.
pub open spec fn fee_among(list: Seq<ElementView>, i: int) -> Option<Seq<char>>
    decreases list.len() - i,
{
    if i < 0 || i >= list.len() {
        None
    } else if shows_fee(plain(list[i])) && trimmed(plain(list[i])).len() > 0 {
        Some(trimmed(plain(list[i])))
    } else {
        fee_among(list, i + 1)
    }
}

/// The first fee in the key-info strip of a page, by selector from an index on.
pub open spec fn fee_on(page: PageView, selectors: Seq<Seq<char>>, i: int) -> Option<Seq<char>>
    decreases selectors.len() - i,
{
    if i < 0 || i >= selectors.len() {
        None
    } else if fee_among(page.select(selectors[i]), 0) is Some {
        fee_among(page.select(selectors[i]), 0)
    } else {
        fee_on(page, selectors, i + 1)
    }
}

/// The trimmed whole of a match.
pub open spec fn match_text(groups: Option<Seq<Option<Seq<char>>>>) -> Option<Seq<char>> {
    match group_of(groups, 0) {
        Some(t) => Some(trimmed(t)),
        None => None,
    }
}

/// The trimmed whole of a match.
pub fn whole_match(groups: &Groups) -> (result: Option<String>)
    ensures
        optional(result) == match_text(groups_view(*groups)),
{
    match group(groups, 0) {
        Some(t) => Some(trim(t.as_str())),
        None => None,
    }
}

/// The fee that a page shows: in its key-info strip, or else anywhere.
pub open spec fn fee_in_content(page: PageView) -> Option<Seq<char>> {
    if fee_on(page, fee_selectors(), 0) is Some {
        fee_on(page, fee_selectors(), 0)
    } else {
        match_text(regex_groups(FEE_PATTERN@, joined(page.root_text, Seq::empty())))
    }
}

/// The first fee among several elements.
fn first_fee(list: &Vec<Element>) -> (result: Option<String>)
    ensures
        optional(result) == fee_among(element_views(list@), 0),
{
    let mut i: usize = 0;
    while i < list.len()
        invariant
            i <= list@.len(),
            fee_among(element_views(list@), 0) == fee_among(element_views(list@), i as int),
        decreases list@.len() - i,
    {
        assert(element_views(list@)[i as int] == list@[i as int]@);
        let text: String = plain_text(&list[i]);
        if contains(text.as_str(), "£") || contains(to_upper(text.as_str()).as_str(), "GBP") {
            let value: String = trim(text.as_str());
            if !value.as_str().is_empty() {
                return Some(value);
            }
        }
        i += 1;
    }
    None
}

/// Looks for a fee amount in the key-info strip, then anywhere on the page.
/// Returns the first plausible fee found.
pub fn extract_fee_from_content<D: Dom>(doc: &D) -> (result: Option<String>)
    ensures
        optional(result) == fee_in_content(doc.page()),
{
    let list: [&str; 4] = [
        ".c-key-info__value",
        ".key-info__value",
        ".course-detail__value",
        ".keyinfo__value",
    ];
    assert(strs(list@) =~= fee_selectors());
    let mut i: usize = 0;
    while i < 4
        invariant
            i <= 4,
            strs(list@) == fee_selectors(),
            fee_on(doc.page(), fee_selectors(), 0) == fee_on(doc.page(), fee_selectors(), i as int),
        decreases 4 - i,
    {
        assert(strs(list@)[i as int] == list@[i as int]@);
        let fee: Option<String> = first_fee(&doc.select(list[i]));
        if fee.is_some() {
            return fee;
        }
        i += 1;
    }
    proof {
        reveal_strlit("");
        assert(""@ =~= Seq::empty());
    }
    let body: String = join(&doc.root_text(), "");
    whole_match(&captures(FEE_PATTERN, body.as_str()))
}

/// A fee without the words "per year".
pub open spec fn plain_fee(value: Seq<char>) -> Seq<char> {
    trimmed(without(without(value, "per year"@), "Per year"@))
}

/// The fee that a page gives for the first of several labels that it gives one
/// for, from an index on; or else the fee that it shows.
pub open spec fn fee_from(page: PageView, labels: Seq<Seq<char>>, i: int) -> Option<Seq<char>>
    decreases labels.len() - i,
{
    if i < 0 || i >= labels.len() {
        fee_in_content(page)
    } else {
        match free_or_none(value_or_none(page, seq![labels[i]])) {
            Some(value) => Some(plain_fee(value)),
            None => fee_from(page, labels, i + 1),
        }
    }
}

/// The yearly tuition fee that a page gives.
pub open spec fn fee_value(page: PageView) -> Option<Seq<char>> {
    fee_from(page, fee_labels(), 0)
}

/// Removes the words "per year" from a fee.
pub fn strip_per_year(value: &str) -> (result: String)
    ensures
        result@ == plain_fee(value@),
{
    proof {
        reveal_strlit("per year");
        reveal_strlit("Per year");
    }
    let value: String = remove_all(value, "per year");
    let value: String = remove_all(value.as_str(), "Per year");
    trim(value.as_str())
}

/// Reads the yearly tuition fee off a page.
fn read_fee<D: Dom>(doc: &D) -> (result: Option<String>)
    ensures
        optional(result) == fee_value(doc.page()),
{
    let list: [&str; 7] = [
        "International fee",
        "International tuition fee",
        "Tuition fees",
        "Annual tuition fee",
        "Fees",
        "Fee",
        "Tuition fee",
    ];
    assert(strs(list@) =~= fee_labels());
    let mut i: usize = 0;
    while i < 7
        invariant
            i <= 7,
            strs(list@) == fee_labels(),
            fee_value(doc.page()) == fee_from(doc.page(), fee_labels(), i as int),
        decreases 7 - i,
    {
        assert(strs(list@)[i as int] == list@[i as int]@);
        let one: [&str; 1] = [list[i]];
        assert(strs(one@) =~= seq![fee_labels()[i as int]]);
        match keep_free(labeled(doc, &one)) {
            Some(value) => {
                return Some(strip_per_year(value.as_str()));
            },
            None => {},
        }
        i += 1;
    }
    extract_fee_from_content(doc)
}

/// Whether a lowercase text names a graduate admission test and says that
/// something is required.
pub open spec fn requires_admission_test(content: Seq<char>) -> bool {
    (names_test(content, "gre"@) || names_test(content, "gmat"@)) && includes(
        content,
        "required"@,
    )
}

/// The admission test score that a text asks for.
pub open spec fn admission_value(content: Seq<char>) -> Option<Seq<char>> {
    if requires_admission_test(lower(content)) {
        test_score(content, admission_names(), ScoreKind::Admission)
    } else {
        None
    }
}

/// Reads the admission test score off a text.
pub fn read_admission(content: &str) -> (result: Option<String>)
    ensures
        optional(result) == admission_value(content@),
{
    let lowered: String = to_lower(content);
    let lowered: &str = lowered.as_str();
    if !((mentions_test(lowered, "gre") || mentions_test(lowered, "gmat")) && contains(
        lowered,
        "required",
    )) {
        return None;
    }
    let list: [&str; 2] = [
        "GRE",
        "GMAT",
    ];
    assert(strs(list@) =~= admission_names());
    extract_test_score(content, &list, ScoreKind::Admission)
}

/// Whether a word of a text begins with given letters at an index.
pub open spec fn begins_at(s: Seq<char>, p: Seq<char>, i: int) -> bool {
    occurs_at(s, p, i) && (i > 0 ==> !is_letter(s[i - 1]))
}

/// Whether given letters stand in a text at an index, with no letter and no digit next to
/// them.
pub open spec fn stands_alone_at(s: Seq<char>, p: Seq<char>, i: int) -> bool {
    &&& occurs_at(s, p, i)
    &&& i > 0 ==> !is_letter(s[i - 1]) && !is_digit(s[i - 1])
    &&& i + p.len() < s.len() ==> !is_letter(s[i + p.len()]) && !is_digit(s[i + p.len()])
}

/// Whether the name of a document stands in a lowercase text at an index.
pub open spec fn document_at(s: Seq<char>, i: int) -> bool {
    ||| exists|k: int|
        0 <= k < document_words().len() && begins_at(s, #[trigger] document_words()[k], i)
    ||| exists|k: int|
        0 <= k < short_document_names().len() && stands_alone_at(
            s,
            #[trigger] short_document_names()[k],
            i,
        )
}

/// Whether a sentence names a document that applicants hand in.
pub open spec fn on_documents(sentence: Seq<char>) -> bool {
    exists|i: int| #[trigger] document_at(lower(sentence), i)
}

/// Whether a sentence is on school qualifications.
pub open spec fn on_qualifications(sentence: Seq<char>) -> bool {
    includes_any(lower(sentence), class12_words())
}

/// The subjects that sentences are picked by.
#[derive(Clone, Copy)]
pub enum Subject {
    /// The documents that applicants hand in.
    Documents,
    /// School qualifications.
    Qualifications,
}

/// Whether a sentence is on a subject, and holds no score of an English test.
pub open spec fn is_on(subject: Subject, sentence: Seq<char>) -> bool {
    &&& !holds_english_score(sentence)
    &&& match subject {
        Subject::Documents => on_documents(sentence),
        Subject::Qualifications => on_qualifications(sentence),
    }
}

/// The ones among several sentences that are on a subject.
pub open spec fn sentences_on(subject: Subject, list: Seq<Seq<char>>) -> Seq<Seq<char>> {
    list.filter(|t: Seq<char>| is_on(subject, t))
}

/// What a block of text says on a subject.
pub open spec fn said_on(subject: Subject, block: Seq<char>) -> Option<Seq<char>> {
    let relevant = trimmed(joined(sentences_on(subject, sentences_from(block, 0)), ". "@));
    if relevant.len() > 0 {
        Some(relevant)
    } else {
        None
    }
}

/// The documents that a page asks for: what its entry requirements say on documents,
/// told apart from academic requirements and English scores.
pub open spec fn document_value(page: PageView) -> Option<Seq<char>> {
    match section_from(page, document_selectors(), 500, 0) {
        Some(block) => said_on(Subject::Documents, block),
        None => None,
    }
}

/// The school qualifications that a page accepts.
pub open spec fn class12_value(page: PageView) -> Option<Seq<char>> {
    match section_from(page, class12_selectors(), 2000, 0) {
        Some(block) => said_on(Subject::Qualifications, block),
        None => None,
    }
}

/// Whether one of the words of a sentence on documents begins at an index of a lowercase
/// character list.
fn document_word_at(s: &Vec<char>, i: usize) -> (result: bool)
    ensures
        result == exists|k: int|
            0 <= k < document_words().len() && begins_at(
                s@,
                #[trigger] document_words()[k],
                i as int,
            ),
{
    let list: [&str; 26] = [
        "transcript",
        "statement",
        "letter",
        "reference",
        "recommendation",
        "certificate",
        "passport",
        "curriculum vitae",
        "resume",
        "résumé",
        "portfolio",
        "research proposal",
        "essay",
        "writing sample",
        "application form",
        "photograph",
        "identification",
        "proof of",
        "document",
        "submit",
        "upload",
        "motivation",
        "research plan",
        "evidence of",
        "copy of",
        "copies",
    ];
    assert(strs(list@) =~= document_words());
    let mut k: usize = 0;
    while k < list.len()
        invariant
            k <= list@.len(),
            strs(list@) == document_words(),
            forall|j: int|
                0 <= j < k ==> !begins_at(s@, #[trigger] document_words()[j], i as int),
        decreases list@.len() - k,
    {
        assert(strs(list@)[k as int] == list@[k as int]@);
        if matches_at(s, &chars_of(list[k]), i) && !(i > 0 && letter(s[i - 1])) {
            assert(begins_at(s@, document_words()[k as int], i as int));
            return true;
        }
        k += 1;
    }
    false
}

/// Whether one of the short names of documents stands at an index of a lowercase character
/// list.
fn short_document_at(s: &Vec<char>, i: usize) -> (result: bool)
    ensures
        result == exists|k: int|
            0 <= k < short_document_names().len() && stands_alone_at(
                s@,
                #[trigger] short_document_names()[k],
                i as int,
            ),
{
    let list: [&str; 2] = ["cv", "cvs"];
    assert(strs(list@) =~= short_document_names());
    let mut k: usize = 0;
    while k < list.len()
        invariant
            k <= list@.len(),
            strs(list@) == short_document_names(),
            forall|j: int|
                0 <= j < k ==> !stands_alone_at(
                    s@,
                    #[trigger] short_document_names()[j],
                    i as int,
                ),
        decreases list@.len() - k,
    {
        assert(strs(list@)[k as int] == list@[k as int]@);
        let name: Vec<char> = chars_of(list[k]);
        if matches_at(s, &name, i) && !(i > 0 && (letter(s[i - 1]) || digit(s[i - 1]))) {
            let n: usize = s.len();
            let end: usize = i + name.len();
            if !(end < n && (letter(s[end]) || digit(s[end]))) {
                assert(stands_alone_at(s@, short_document_names()[k as int], i as int));
                return true;
            }
        }
        k += 1;
    }
    false
}

/// Whether a sentence names a document that applicants hand in.
pub fn mentions_document(sentence: &str) -> (result: bool)
    ensures
        result == on_documents(sentence@),
{
    let lowered: String = to_lower(sentence);
    let s: Vec<char> = chars_of(lowered.as_str());
    let n: usize = s.len();
    let mut i: usize = 0;
    while i < n
        invariant
            n == s@.len(),
            s@ == lower(sentence@),
            i <= n,
            forall|j: int| 0 <= j < i ==> !#[trigger] document_at(s@, j),
        decreases n - i,
    {
        if document_word_at(&s, i) || short_document_at(&s, i) {
            assert(document_at(s@, i as int));
            return true;
        }
        i += 1;
    }
    proof {
        lemma_document_names_are_some();
    }
    false
}

/// No name of a document is empty.
proof fn lemma_document_names_are_some()
    ensures
        forall|k: int|
            0 <= k < document_words().len() ==> (#[trigger] document_words()[k]).len() > 0,
        forall|k: int|
            0 <= k < short_document_names().len() ==> (
            #[trigger] short_document_names()[k]).len() > 0,
{
    reveal_strlit("transcript");
    reveal_strlit("statement");
    reveal_strlit("letter");
    reveal_strlit("reference");
    reveal_strlit("recommendation");
    reveal_strlit("certificate");
    reveal_strlit("passport");
    reveal_strlit("curriculum vitae");
    reveal_strlit("resume");
    reveal_strlit("résumé");
    reveal_strlit("portfolio");
    reveal_strlit("research proposal");
    reveal_strlit("essay");
    reveal_strlit("writing sample");
    reveal_strlit("application form");
    reveal_strlit("photograph");
    reveal_strlit("identification");
    reveal_strlit("proof of");
    reveal_strlit("document");
    reveal_strlit("submit");
    reveal_strlit("upload");
    reveal_strlit("motivation");
    reveal_strlit("research plan");
    reveal_strlit("evidence of");
    reveal_strlit("copy of");
    reveal_strlit("copies");
    reveal_strlit("cv");
    reveal_strlit("cvs");
}

/// Whether a sentence is on school qualifications.
pub fn mentions_qualification(sentence: &str) -> (result: bool)
    ensures
        result == on_qualifications(sentence@),
{
    let list: [&str; 11] = [
        "a-level",
        "a level",
        "ib diploma",
        "international baccalaureate",
        "btec",
        "gcse",
        "12th",
        "high school",
        "secondary school",
        "qualification",
        "grade",
    ];
    assert(strs(list@) =~= class12_words());
    contains_any(to_lower(sentence).as_str(), &list)
}

/// Whether a sentence is on a subject, and holds no score of an English test.
pub fn belongs_to(subject: Subject, sentence: &str) -> (result: bool)
    ensures
        result == is_on(subject, sentence@),
{
    if has_english_score(sentence) {
        return false;
    }
    match subject {
        Subject::Documents => mentions_document(sentence),
        Subject::Qualifications => mentions_qualification(sentence),
    }
}

/// Picks the sentences of a block of text that are on a subject.
pub fn pick_sentences(subject: Subject, block: &str) -> (result: Option<String>)
    ensures
        optional(result) == said_on(subject, block@),
{
    let list: Vec<String> = sentences(block);
    let ghost all = texts(list@);
    let mut kept: Vec<String> = Vec::new();
    let mut i: usize = 0;
    proof {
        reveal(Seq::filter);
        assert(all.take(0) =~= Seq::empty());
        assert(texts(kept@) =~= sentences_on(subject, all.take(0)));
    }
    while i < list.len()
        invariant
            i <= list@.len(),
            all == texts(list@),
            texts(kept@) == sentences_on(subject, all.take(i as int)),
        decreases list@.len() - i,
    {
        let ghost done = texts(kept@);
        proof {
            reveal(Seq::filter);
            assert(all.take(i + 1).drop_last() =~= all.take(i as int));
        }
        if belongs_to(subject, list[i].as_str()) {
            kept.push(list[i].clone());
            assert(texts(kept@) =~= done.push(all[i as int]));
        }
        i += 1;
    }
    assert(all.take(i as int) =~= all);
    let relevant: String = trim(join(&kept, ". ").as_str());
    if relevant.as_str().is_empty() {
        None
    } else {
        Some(relevant)
    }
}

/// Reads the documents that a page asks for.
fn read_document<D: Dom>(doc: &D) -> (result: Option<String>)
    ensures
        optional(result) == document_value(doc.page()),
{
    let list: [&str; 7] = [
        "#entry-requirements",
        "[data-tab='entry-requirements']",
        "#tab-entry-requirements",
        ".entry-requirements__content",
        ".entry-requirements",
        ".requirements-section",
        ".c-entry-requirements",
    ];
    assert(strs(list@) =~= document_selectors());
    match text_from_selectors(doc, &list, 500) {
        Some(block) => pick_sentences(Subject::Documents, block.as_str()),
        None => None,
    }
}

/// Reads the school qualifications that a page accepts.
fn read_class12<D: Dom>(doc: &D) -> (result: Option<String>)
    ensures
        optional(result) == class12_value(doc.page()),
{
    let list: [&str; 4] = [
        "#entry-requirements",
        ".entry-requirements",
        ".entry-requirements__content",
        "#tab-entry-requirements",
    ];
    assert(strs(list@) =~= class12_selectors());
    match text_from_selectors(doc, &list, 2000) {
        Some(block) => pick_sentences(Subject::Qualifications, block.as_str()),
        None => None,
    }
}

/// What is said on a subject holds no score of an English test.
pub proof fn law_picked_sentences_hold_no_score(subject: Subject, block: Seq<char>)
    ensures
        said_on(subject, block) matches Some(t) ==> !holds_english_score(t),
{
    let list = sentences_from(block, 0);
    let kept = sentences_on(subject, list);
    assert forall|i: int| 0 <= i < kept.len() implies !holds_english_score(#[trigger] kept[i]) by {
        list.lemma_filter_pred(|t: Seq<char>| is_on(subject, t), i);
    }
    reveal_strlit(". ");
    assert(". "@ =~= seq!['.', ' ']);
    lemma_joined_holds_none(kept, ". "@);
    lemma_trimmed_holds_none(joined(kept, ". "@));
}

/// The work experience that a page asks for: under its label, or else anywhere in
/// the content.
pub open spec fn experience_value(page: PageView) -> Option<Seq<char>> {
    match free_or_none(value_or_none(page, experience_labels())) {
        Some(value) => Some(value),
        None => match_text(regex_groups(EXPERIENCE_PATTERN@, main_text(page))),
    }
}

/// Reads the work experience that a page asks for.
fn read_experience<D: Dom>(doc: &D, content: &str) -> (result: Option<String>)
    requires
        content@ == main_text(doc.page()),
    ensures
        optional(result) == experience_value(doc.page()),
{
    let list: [&str; 4] = [
        "Work experience",
        "Professional experience",
        "Industry experience",
        "Relevant experience",
    ];
    assert(strs(list@) =~= experience_labels());
    match keep_free(labeled(doc, &list)) {
        Some(value) => Some(value),
        None => whole_match(&captures(EXPERIENCE_PATTERN, content)),
    }
}

/// What a page says on scholarships: its section on them, or else that there are
/// some, where it links to a funding page or mentions them.
pub open spec fn scholarship_value(page: PageView) -> Option<Seq<char>> {
    match free_or_none(section_from(page, scholarship_selectors(), 300, 0)) {
        Some(section) => Some(section),
        None => if page.select(SCHOLARSHIP_LINKS@).len() > 0 || includes(
            lower(main_text(page)),
            "scholarship"@,
        ) || includes(lower(main_text(page)), "bursary"@) {
            Some(SCHOLARSHIPS_AVAILABLE@)
        } else {
            None
        },
    }
}

/// Reads what a page says on scholarships.
fn read_scholarship<D: Dom>(doc: &D, content: &str) -> (result: Option<String>)
    requires
        content@ == main_text(doc.page()),
    ensures
        optional(result) == scholarship_value(doc.page()),
{
    let list: [&str; 6] = [
        ".scholarships",
        "#scholarships",
        "[data-section='scholarships']",
        ".funding-section",
        ".c-scholarships",
        "#funding",
    ];
    assert(strs(list@) =~= scholarship_selectors());
    match keep_free(text_from_selectors(doc, &list, 300)) {
        Some(section) => Some(section),
        None => {
            let links: Vec<Element> = doc.select(SCHOLARSHIP_LINKS);
            assert(element_views(links@).len() == links@.len());
            let lowered: String = to_lower(content);
            if links.len() > 0 || contains(lowered.as_str(), "scholarship") || contains(
                lowered.as_str(),
                "bursary",
            ) {
                Some(SCHOLARSHIPS_AVAILABLE.to_string())
            } else {
                None
            }
        },
    }
}

/// Whether study in English may waive a test.
pub open spec fn moi_value(content: Seq<char>) -> Option<Seq<char>> {
    if includes_any(lower(content), moi_words()) {
        Some(WAIVER_MOI@)
    } else {
        None
    }
}

/// Reads whether study in English may waive a test.
pub fn read_moi(content: &str) -> (result: Option<String>)
    ensures
        optional(result) == moi_value(content@),
{
    let list: [&str; 5] = [
        "medium of instruction",
        "english-taught",
        "taught in english",
        "english taught",
        "exempt if",
    ];
    assert(strs(list@) =~= moi_words());
    if contains_any(to_lower(content).as_str(), &list) {
        Some(WAIVER_MOI.to_string())
    } else {
        None
    }
}

/// Whether a school grade in English may waive a test.
pub open spec fn gcse_value(content: Seq<char>) -> Option<Seq<char>> {
    if includes_any(lower(content), gcse_english_words()) {
        Some(WAIVER_CLASS12@)
    } else {
        None
    }
}

/// Reads whether a school grade in English may waive a test.
pub fn read_gcse(content: &str) -> (result: Option<String>)
    ensures
        optional(result) == gcse_value(content@),
{
    let list: [&str; 5] = [
        "english at gcse",
        "english language gcse",
        "grade c in english",
        "grade 4 in english",
        "english gcse",
    ];
    assert(strs(list@) =~= gcse_english_words());
    if contains_any(to_lower(content).as_str(), &list) {
        Some(WAIVER_CLASS12.to_string())
    } else {
        None
    }
}

/// The gap years that a match of the gap year pattern gives: its number, unless that is
/// the score of an English test.
pub open spec fn gap_years(groups: Option<Seq<Option<Seq<char>>>>) -> Seq<char> {
    match (group_of(groups, 0), group_of(groups, 1), group_of(groups, 2)) {
        (Some(whole), Some(years), Some(rest)) => {
            let d = whole.len() - rest.len() - years.len();
            if d >= 0 && number_score_at(folded(whole), d) {
                GAP_YEAR_PERMITTED@
            } else {
                years
            }
        },
        _ => GAP_YEAR_PERMITTED@,
    }
}

/// What a text says on gap years.
pub open spec fn gap_value(content: Seq<char>) -> Option<Seq<char>> {
    if includes(lower(content), "gap year"@) {
        Some(gap_years(regex_groups(GAP_YEAR_PATTERN@, content)))
    } else {
        None
    }
}

/// The gap years that a match of the gap year pattern gives.
pub fn gap_years_of_match(groups: &Groups) -> (result: String)
    ensures
        result@ == gap_years(groups_view(*groups)),
{
    match (group(groups, 0), group(groups, 1), group(groups, 2)) {
        (Some(whole), Some(years), Some(rest)) => {
            let s: Vec<char> = fold(whole.as_str());
            let n: usize = s.len();
            let after: usize = chars_of(rest.as_str()).len();
            let digits: usize = chars_of(years.as_str()).len();
            if after <= n && digits <= n - after && number_is_score(&s, n - after - digits) {
                GAP_YEAR_PERMITTED.to_string()
            } else {
                years
            }
        },
        _ => GAP_YEAR_PERMITTED.to_string(),
    }
}

/// The number of gap years is never the score of an English test: where the number of a
/// match is one, it is not recorded.
pub proof fn law_gap_years_are_no_english_score(
    groups: Option<Seq<Option<Seq<char>>>>,
    whole: Seq<char>,
    years: Seq<char>,
    rest: Seq<char>,
)
    requires
        group_of(groups, 0) == Some(whole),
        group_of(groups, 1) == Some(years),
        group_of(groups, 2) == Some(rest),
        years.len() + rest.len() <= whole.len(),
    ensures
        ({
            let d = whole.len() - rest.len() - years.len();
            if number_score_at(folded(whole), d) {
                gap_years(groups) == GAP_YEAR_PERMITTED@
            } else {
                gap_years(groups) == years
            }
        }),
{
}

/// Reads what a text says on gap years.
pub fn read_gap(content: &str) -> (result: Option<String>)
    ensures
        optional(result) == gap_value(content@),
{
    if contains(to_lower(content).as_str(), "gap year") {
        Some(gap_years_of_match(&captures(GAP_YEAR_PATTERN, content)))
    } else {
        None
    }
}

/// What a text says about institutions in India.
pub open spec fn india_value(content: Seq<char>) -> Option<Seq<char>> {
    if includes(lower(content), "india"@) || includes(lower(content), "indian"@) {
        match_text(regex_groups(INDIA_PATTERN@, content))
    } else {
        None
    }
}

/// Reads what a text says about institutions in India.
pub fn read_india(content: &str) -> (result: Option<String>)
    ensures
        optional(result) == india_value(content@),
{
    let lowered: String = to_lower(content);
    if contains(lowered.as_str(), "india") || contains(lowered.as_str(), "indian") {
        whole_match(&captures(INDIA_PATTERN, content))
    } else {
        None
    }
}

/// A record after the fields that are still `NA` were filled from a page.
pub open spec fn filled_from_page(page: PageView, v: CourseView) -> CourseView {
    CourseView {
        program_course_name: fill(v.program_course_name, name_value(page)),
        university_name: v.university_name,
        course_website_url: v.course_website_url,
        campus: fill_other(v.campus, campus_value(page)),
        country: v.country,
        address: v.address,
        study_level: fill_other(v.study_level, level_value(page)),
        course_duration: fill_other(v.course_duration, duration_value(page)),
        all_intakes_available: fill_other(v.all_intakes_available, intake_value(page)),
        mandatory_documents_required: fill(v.mandatory_documents_required, document_value(page)),
        yearly_tuition_fee: fill_other(v.yearly_tuition_fee, fee_value(page)),
        scholarship_availability: fill_other(v.scholarship_availability, scholarship_value(page)),
        gre_gmat_mandatory_min_score: fill_other(v.gre_gmat_mandatory_min_score, admission_value(main_text(page))),
        indian_regional_institution_restrictions: fill_other(v.indian_regional_institution_restrictions, india_value(main_text(page))),
        class_12_boards_accepted: fill(v.class_12_boards_accepted, class12_value(page)),
        gap_year_max_accepted: fill_other(v.gap_year_max_accepted, gap_value(main_text(page))),
        mandatory_work_exp: fill_other(v.mandatory_work_exp, experience_value(page)),
        max_backlogs: fill_other(v.max_backlogs, backlog_value(page)),
        ug_academic_min_gpa: fill_other(v.ug_academic_min_gpa, degree_value(page)),
        twelfth_pass_min_cgpa: fill_other(v.twelfth_pass_min_cgpa, twelfth_value(page)),
        min_ielts: fill(v.min_ielts, ielts_value(main_text(page))),
        min_pte: fill(v.min_pte, pte_value(main_text(page))),
        min_toefl: fill(v.min_toefl, toefl_value(main_text(page))),
        min_duolingo: fill(v.min_duolingo, duolingo_value(main_text(page))),
        kaplan_test_of_english: fill(v.kaplan_test_of_english, kaplan_value(main_text(page))),
        english_waiver_class12: fill(v.english_waiver_class12, gcse_value(main_text(page))),
        english_waiver_moi: fill(v.english_waiver_moi, moi_value(main_text(page))),
    }
}

/// Fills the name, level, duration, fee, intakes and campus, where they are `NA`.
fn fill_course_facts<D: Dom>(doc: &D, data: &mut CourseData)
    ensures
        final(data)@ == (CourseView {
            program_course_name: fill(old(data)@.program_course_name, name_value(doc.page())),
            campus: fill_other(old(data)@.campus, campus_value(doc.page())),
            study_level: fill_other(old(data)@.study_level, level_value(doc.page())),
            course_duration: fill_other(old(data)@.course_duration, duration_value(doc.page())),
            all_intakes_available: fill_other(old(data)@.all_intakes_available, intake_value(doc.page())),
            yearly_tuition_fee: fill_other(old(data)@.yearly_tuition_fee, fee_value(doc.page())),
            ..old(data)@
        }),
{
    if is_na(&data.program_course_name) {
        set_if_na(&mut data.program_course_name, read_name(doc));
    }
    if is_na(&data.study_level) {
        set_other_if_na(&mut data.study_level, read_level(doc));
    }
    if is_na(&data.course_duration) {
        set_other_if_na(&mut data.course_duration, read_duration(doc));
    }
    if is_na(&data.yearly_tuition_fee) {
        set_other_if_na(&mut data.yearly_tuition_fee, read_fee(doc));
    }
    if is_na(&data.all_intakes_available) {
        set_other_if_na(&mut data.all_intakes_available, read_intake(doc));
    }
    if is_na(&data.campus) {
        set_other_if_na(&mut data.campus, read_campus(doc));
    }
}

/// Fills the test scores, where they are `NA`.
fn fill_test_scores(content: &str, data: &mut CourseData)
    ensures
        final(data)@ == (CourseView {
            gre_gmat_mandatory_min_score: fill_other(old(data)@.gre_gmat_mandatory_min_score, admission_value(content@)),
            min_ielts: fill(old(data)@.min_ielts, ielts_value(content@)),
            min_pte: fill(old(data)@.min_pte, pte_value(content@)),
            min_toefl: fill(old(data)@.min_toefl, toefl_value(content@)),
            min_duolingo: fill(old(data)@.min_duolingo, duolingo_value(content@)),
            kaplan_test_of_english: fill(old(data)@.kaplan_test_of_english, kaplan_value(content@)),
            ..old(data)@
        }),
{
    if is_na(&data.min_ielts) {
        set_if_na(&mut data.min_ielts, read_ielts(content));
    }
    if is_na(&data.min_pte) {
        set_if_na(&mut data.min_pte, read_pte(content));
    }
    if is_na(&data.min_toefl) {
        set_if_na(&mut data.min_toefl, read_toefl(content));
    }
    if is_na(&data.min_duolingo) {
        set_if_na(&mut data.min_duolingo, read_duolingo(content));
    }
    if is_na(&data.kaplan_test_of_english) {
        set_if_na(&mut data.kaplan_test_of_english, read_kaplan(content));
    }
    if is_na(&data.gre_gmat_mandatory_min_score) {
        set_other_if_na(&mut data.gre_gmat_mandatory_min_score, read_admission(content));
    }
}

/// Fills the entry requirements, where they are `NA`.
fn fill_entry_requirements<D: Dom>(doc: &D, content: &str, data: &mut CourseData)
    requires
        content@ == main_text(doc.page()),
    ensures
        final(data)@ == (CourseView {
            mandatory_documents_required: fill(old(data)@.mandatory_documents_required, document_value(doc.page())),
            class_12_boards_accepted: fill(old(data)@.class_12_boards_accepted, class12_value(doc.page())),
            mandatory_work_exp: fill_other(old(data)@.mandatory_work_exp, experience_value(doc.page())),
            max_backlogs: fill_other(old(data)@.max_backlogs, backlog_value(doc.page())),
            ug_academic_min_gpa: fill_other(old(data)@.ug_academic_min_gpa, degree_value(doc.page())),
            twelfth_pass_min_cgpa: fill_other(old(data)@.twelfth_pass_min_cgpa, twelfth_value(doc.page())),
            ..old(data)@
        }),
{
    if is_na(&data.mandatory_documents_required) {
        set_if_na(&mut data.mandatory_documents_required, read_document(doc));
    }
    if is_na(&data.class_12_boards_accepted) {
        set_if_na(&mut data.class_12_boards_accepted, read_class12(doc));
    }
    if is_na(&data.ug_academic_min_gpa) {
        set_other_if_na(&mut data.ug_academic_min_gpa, read_degree(doc));
    }
    if is_na(&data.twelfth_pass_min_cgpa) {
        set_other_if_na(&mut data.twelfth_pass_min_cgpa, read_twelfth(doc));
    }
    if is_na(&data.mandatory_work_exp) {
        set_other_if_na(&mut data.mandatory_work_exp, read_experience(doc, content));
    }
    if is_na(&data.max_backlogs) {
        set_other_if_na(&mut data.max_backlogs, read_backlog(doc));
    }
}

/// Fills scholarships, waivers, gap years and restrictions, where they are `NA`.
fn fill_notes<D: Dom>(doc: &D, content: &str, data: &mut CourseData)
    requires
        content@ == main_text(doc.page()),
    ensures
        final(data)@ == (CourseView {
            scholarship_availability: fill_other(old(data)@.scholarship_availability, scholarship_value(doc.page())),
            indian_regional_institution_restrictions: fill_other(old(data)@.indian_regional_institution_restrictions, india_value(content@)),
            gap_year_max_accepted: fill_other(old(data)@.gap_year_max_accepted, gap_value(content@)),
            english_waiver_class12: fill(old(data)@.english_waiver_class12, gcse_value(content@)),
            english_waiver_moi: fill(old(data)@.english_waiver_moi, moi_value(content@)),
            ..old(data)@
        }),
{
    if is_na(&data.scholarship_availability) {
        set_other_if_na(&mut data.scholarship_availability, read_scholarship(doc, content));
    }
    if is_na(&data.english_waiver_moi) {
        set_if_na(&mut data.english_waiver_moi, read_moi(content));
    }
    if is_na(&data.english_waiver_class12) {
        set_if_na(&mut data.english_waiver_class12, read_gcse(content));
    }
    if is_na(&data.gap_year_max_accepted) {
        set_other_if_na(&mut data.gap_year_max_accepted, read_gap(content));
    }
    if is_na(&data.indian_regional_institution_restrictions) {
        set_other_if_na(&mut data.indian_regional_institution_restrictions, read_india(content));
    }
}

/// Fills the fields of a record that are still `NA` from the elements and the main
/// text of a page.
pub fn layer2_selectors<D: Dom>(doc: &D, data: &mut CourseData)
    ensures
        final(data)@ == filled_from_page(doc.page(), old(data)@),
{
    let content: String = main_content_text(doc);
    let content: &str = content.as_str();
    fill_course_facts(doc, data);
    fill_test_scores(content, data);
    fill_entry_requirements(doc, content, data);
    fill_notes(doc, content, data);
}

} // verus!
