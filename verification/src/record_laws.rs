//! What holds of the records that the extraction builds.

use vstd::prelude::*;

use crate::dom::{ElementView, PageView};
use crate::extractor::{
    course_record, critical_fields, extracted_from_page, lacks_critical_fields, record_of_url,
    with_content_level,
};
use crate::english::{english_free_value, holds_english_score};
use crate::english_laws::{law_english_free, lemma_no_digits_no_score, lemma_trimmed_holds_none};
use crate::fields::fill;
use crate::intakes::{is_past, law_no_past_intakes, past_year_at};
use crate::json::{json_document, JsonView};
use crate::layer1::{
    cleaned_text, document_objects, either_text, filled_from_json_ld, filled_from_object,
    filled_from_objects, filled_from_scripts, is_course_object, object_campus, object_duration,
    object_fee, JSON_LD_SELECTOR,
};
use crate::layer2::{
    admission_value, backlog_value, campus_value, class12_selectors, class12_value, degree_value,
    document_selectors, document_value, duolingo_value, duration_value, experience_value,
    fee_value, filled_from_page, gap_value, gcse_value, ielts_value, india_value, intake_labels,
    intake_value, kaplan_value, law_picked_sentences_hold_no_score, level_value, moi_value,
    name_value, pte_names, pte_value, scholarship_value, toefl_value, twelfth_value, Subject,
};
use crate::level::{
    breadcrumb_from, breadcrumb_on, breadcrumb_selectors, content_level, meta_from, url_level,
    META_SELECTOR,
};
use crate::page::{main_text, plain, section_from, value_or_none};
use crate::schema::{filled_among, CourseData, CourseView, NA};
use crate::scores::{in_pte_range, law_scores_are_plausible, ScoreKind};
use crate::text::{index_from, trimmed};
use crate::text_laws::{law_trimmed_idempotent, law_trimmed_solid};
use crate::unicode::{is_digit, lower};

verus! {

/// Whether a field has kept its value, or was `NA`.
pub open spec fn keeps(before: Seq<char>, after: Seq<char>) -> bool {
    before != NA@ ==> after == before
}

/// Whether a record has kept every field of another one that is not `NA`.
pub open spec fn extends(before: CourseView, after: CourseView) -> bool {
    forall|i: int|
        0 <= i < CourseData::FIELD_COUNT ==> #[trigger] keeps(before.fields()[i], after.fields()[i])
}

/// Whether a text is a value of a field: not empty, and without white space at its ends.
pub open spec fn has_value(field: Seq<char>) -> bool {
    field.len() > 0 && trimmed(field) == field
}

/// Whether every field of a record has a value.
pub open spec fn all_have_values(v: CourseView) -> bool {
    forall|i: int| 0 <= i < CourseData::FIELD_COUNT ==> #[trigger] has_value(v.fields()[i])
}

/// A record that keeps the fields of a second one, which keeps those of a third one,
/// keeps those of the third one.
pub proof fn lemma_extends_transitive(a: CourseView, b: CourseView, c: CourseView)
    requires
        extends(a, b),
        extends(b, c),
    ensures
        extends(a, c),
{
    assert forall|i: int| 0 <= i < CourseData::FIELD_COUNT implies #[trigger] keeps(
        a.fields()[i],
        c.fields()[i],
    ) by {
        assert(keeps(a.fields()[i], b.fields()[i]));
        assert(keeps(b.fields()[i], c.fields()[i]));
    }
}

/// Filling a field keeps it if it is not `NA`.
pub proof fn law_fill_keeps(field: Seq<char>, value: Option<Seq<char>>)
    ensures
        keeps(field, fill(field, value)),
        has_value(field) ==> has_value(fill(field, value)),
{
    match value {
        Some(t) => {
            law_trimmed_idempotent(t);
        },
        None => {},
    }
}

/// A field that has kept the outcome of an offer is not changed when the same value
/// is offered again.
proof fn lemma_fill_settled(field: Seq<char>, value: Option<Seq<char>>, after: Seq<char>)
    requires
        keeps(fill(field, value), after),
    ensures
        keeps(field, after),
        fill(field, value) != NA@ || field == NA@,
        field == NA@ || after == field,
        fill(after, value) == after,
{
}

/// Filling a record from a course object keeps every field that is not `NA`.
pub proof fn lemma_object_extends(obj: JsonView, v: CourseView)
    ensures
        extends(v, filled_from_object(obj, v)),
        all_have_values(v) ==> all_have_values(filled_from_object(obj, v)),
{
    let w = filled_from_object(obj, v);
    assert forall|i: int| 0 <= i < CourseData::FIELD_COUNT implies #[trigger] keeps(
        v.fields()[i],
        w.fields()[i],
    ) by {}
    if all_have_values(v) {
        assert forall|i: int| 0 <= i < CourseData::FIELD_COUNT implies #[trigger] has_value(
            w.fields()[i],
        ) by {
            assert(has_value(v.fields()[i]));
            law_fill_keeps(v.program_course_name, cleaned_text(obj.text_member("name"@)));
            law_fill_keeps(
                v.study_level,
                english_free_value(
                    cleaned_text(
                        either_text(obj, "educationalLevel"@, "educationalCredentialAwarded"@),
                    ),
                ),
            );
            law_fill_keeps(v.course_duration, english_free_value(object_duration(obj)));
            law_fill_keeps(v.yearly_tuition_fee, english_free_value(object_fee(obj)));
            law_fill_keeps(v.campus, english_free_value(object_campus(obj)));
        }
    }
}

/// A record that has kept what a course object filled is not changed by the same
/// object.
pub proof fn lemma_object_settled(obj: JsonView, v: CourseView, w: CourseView)
    requires
        extends(filled_from_object(obj, v), w),
    ensures
        filled_from_object(obj, w) == w,
{
    let u = filled_from_object(obj, v);
    assert(keeps(u.fields()[0], w.fields()[0]));
    assert(keeps(u.fields()[3], w.fields()[3]));
    assert(keeps(u.fields()[6], w.fields()[6]));
    assert(keeps(u.fields()[7], w.fields()[7]));
    assert(keeps(u.fields()[10], w.fields()[10]));
}

/// Filling a record from several objects keeps every field that is not `NA`.
pub proof fn lemma_objects_extend(list: Seq<JsonView>, v: CourseView)
    ensures
        extends(v, filled_from_objects(list, v)),
        all_have_values(v) ==> all_have_values(filled_from_objects(list, v)),
    decreases list.len(),
{
    if list.len() > 0 {
        let before = filled_from_objects(list.drop_last(), v);
        lemma_objects_extend(list.drop_last(), v);
        lemma_object_extends(list.last(), before);
        lemma_extends_transitive(v, before, filled_from_object(list.last(), before));
    }
}

/// A record that has kept what several objects filled is not changed by them.
proof fn lemma_objects_settled(list: Seq<JsonView>, v: CourseView, w: CourseView)
    requires
        extends(filled_from_objects(list, v), w),
    ensures
        filled_from_objects(list, w) == w,
    decreases list.len(),
{
    if list.len() > 0 {
        let before = filled_from_objects(list.drop_last(), v);
        lemma_object_extends(list.last(), before);
        if is_course_object(list.last()) {
            lemma_extends_transitive(before, filled_from_object(list.last(), before), w);
            lemma_object_settled(list.last(), before, w);
        }
        lemma_objects_settled(list.drop_last(), v, w);
    }
}

/// Filling a record from several scripts keeps every field that is not `NA`.
pub proof fn lemma_scripts_extend(list: Seq<ElementView>, v: CourseView)
    ensures
        extends(v, filled_from_scripts(list, v)),
        all_have_values(v) ==> all_have_values(filled_from_scripts(list, v)),
    decreases list.len(),
{
    if list.len() > 0 {
        let before = filled_from_scripts(list.drop_last(), v);
        lemma_scripts_extend(list.drop_last(), v);
        match json_document(plain(list.last())) {
            Some(doc) => {
                lemma_objects_extend(document_objects(doc), before);
                lemma_extends_transitive(v, before, filled_from_scripts(list, v));
            },
            None => {},
        }
    }
}

/// A record that has kept what several scripts filled is not changed by them.
proof fn lemma_scripts_settled(list: Seq<ElementView>, v: CourseView, w: CourseView)
    requires
        extends(filled_from_scripts(list, v), w),
    ensures
        filled_from_scripts(list, w) == w,
    decreases list.len(),
{
    if list.len() > 0 {
        let before = filled_from_scripts(list.drop_last(), v);
        match json_document(plain(list.last())) {
            Some(doc) => {
                let objects = document_objects(doc);
                lemma_objects_extend(objects, before);
                lemma_extends_transitive(before, filled_from_objects(objects, before), w);
                lemma_objects_settled(objects, before, w);
            },
            None => {},
        }
        lemma_scripts_settled(list.drop_last(), v, w);
    }
}

/// What a page offers for each field of a record, in the order of the record.
pub open spec fn page_offers(page: PageView) -> Seq<Option<Seq<char>>> {
    seq![
        name_value(page),
        None,
        None,
        english_free_value(campus_value(page)),
        None,
        None,
        english_free_value(level_value(page)),
        english_free_value(duration_value(page)),
        english_free_value(intake_value(page)),
        document_value(page),
        english_free_value(fee_value(page)),
        english_free_value(scholarship_value(page)),
        english_free_value(admission_value(main_text(page))),
        english_free_value(india_value(main_text(page))),
        class12_value(page),
        english_free_value(gap_value(main_text(page))),
        english_free_value(experience_value(page)),
        english_free_value(backlog_value(page)),
        english_free_value(degree_value(page)),
        english_free_value(twelfth_value(page)),
        ielts_value(main_text(page)),
        pte_value(main_text(page)),
        toefl_value(main_text(page)),
        duolingo_value(main_text(page)),
        kaplan_value(main_text(page)),
        gcse_value(main_text(page)),
        moi_value(main_text(page)),
    ]
}

/// Several field texts after a value was offered for each.
pub open spec fn fields_filled(
    fields: Seq<Seq<char>>,
    offers: Seq<Option<Seq<char>>>,
) -> Seq<Seq<char>> {
    Seq::new(fields.len(), |i: int| fill(fields[i], offers[i]))
}

/// A record after a value was offered for each field, in the order of the record.
pub open spec fn filled_with(v: CourseView, offers: Seq<Option<Seq<char>>>) -> CourseView {
    CourseView {
        program_course_name: fill(v.program_course_name, offers[0]),
        university_name: fill(v.university_name, offers[1]),
        course_website_url: fill(v.course_website_url, offers[2]),
        campus: fill(v.campus, offers[3]),
        country: fill(v.country, offers[4]),
        address: fill(v.address, offers[5]),
        study_level: fill(v.study_level, offers[6]),
        course_duration: fill(v.course_duration, offers[7]),
        all_intakes_available: fill(v.all_intakes_available, offers[8]),
        mandatory_documents_required: fill(v.mandatory_documents_required, offers[9]),
        yearly_tuition_fee: fill(v.yearly_tuition_fee, offers[10]),
        scholarship_availability: fill(v.scholarship_availability, offers[11]),
        gre_gmat_mandatory_min_score: fill(v.gre_gmat_mandatory_min_score, offers[12]),
        indian_regional_institution_restrictions: fill(v.indian_regional_institution_restrictions, offers[13]),
        class_12_boards_accepted: fill(v.class_12_boards_accepted, offers[14]),
        gap_year_max_accepted: fill(v.gap_year_max_accepted, offers[15]),
        mandatory_work_exp: fill(v.mandatory_work_exp, offers[16]),
        max_backlogs: fill(v.max_backlogs, offers[17]),
        ug_academic_min_gpa: fill(v.ug_academic_min_gpa, offers[18]),
        twelfth_pass_min_cgpa: fill(v.twelfth_pass_min_cgpa, offers[19]),
        min_ielts: fill(v.min_ielts, offers[20]),
        min_pte: fill(v.min_pte, offers[21]),
        min_toefl: fill(v.min_toefl, offers[22]),
        min_duolingo: fill(v.min_duolingo, offers[23]),
        kaplan_test_of_english: fill(v.kaplan_test_of_english, offers[24]),
        english_waiver_class12: fill(v.english_waiver_class12, offers[25]),
        english_waiver_moi: fill(v.english_waiver_moi, offers[26]),
    }
}

/// Filling a record fills each of its fields with what is offered for it.
#[verifier::spinoff_prover]
#[verifier::rlimit(50)]
proof fn lemma_filled_with(v: CourseView, offers: Seq<Option<Seq<char>>>)
    ensures
        filled_with(v, offers).fields() == fields_filled(v.fields(), offers),
{
    let after = filled_with(v, offers).fields();
    let fields = v.fields();
    assert(after[0] == fill(fields[0], offers[0]));
    assert(after[1] == fill(fields[1], offers[1]));
    assert(after[2] == fill(fields[2], offers[2]));
    assert(after[3] == fill(fields[3], offers[3]));
    assert(after[4] == fill(fields[4], offers[4]));
    assert(after[5] == fill(fields[5], offers[5]));
    assert(after[6] == fill(fields[6], offers[6]));
    assert(after[7] == fill(fields[7], offers[7]));
    assert(after[8] == fill(fields[8], offers[8]));
    assert(after[9] == fill(fields[9], offers[9]));
    assert(after[10] == fill(fields[10], offers[10]));
    assert(after[11] == fill(fields[11], offers[11]));
    assert(after[12] == fill(fields[12], offers[12]));
    assert(after[13] == fill(fields[13], offers[13]));
    assert(after[14] == fill(fields[14], offers[14]));
    assert(after[15] == fill(fields[15], offers[15]));
    assert(after[16] == fill(fields[16], offers[16]));
    assert(after[17] == fill(fields[17], offers[17]));
    assert(after[18] == fill(fields[18], offers[18]));
    assert(after[19] == fill(fields[19], offers[19]));
    assert(after[20] == fill(fields[20], offers[20]));
    assert(after[21] == fill(fields[21], offers[21]));
    assert(after[22] == fill(fields[22], offers[22]));
    assert(after[23] == fill(fields[23], offers[23]));
    assert(after[24] == fill(fields[24], offers[24]));
    assert(after[25] == fill(fields[25], offers[25]));
    assert(after[26] == fill(fields[26], offers[26]));
    assert(after =~= fields_filled(fields, offers));
}

/// Filling a record from a page fills each field with what the page offers for it.
#[verifier::spinoff_prover]
#[verifier::rlimit(50)]
proof fn lemma_page_offers(page: PageView, v: CourseView)
    ensures
        filled_from_page(page, v).fields() == fields_filled(v.fields(), page_offers(page)),
{
    assert(filled_from_page(page, v) == filled_with(v, page_offers(page)));
    lemma_filled_with(v, page_offers(page));
}

/// Filling a record from a page keeps every field that is not `NA`.
proof fn lemma_page_extends(page: PageView, v: CourseView)
    ensures
        extends(v, filled_from_page(page, v)),
        all_have_values(v) ==> all_have_values(filled_from_page(page, v)),
{
    let w = filled_from_page(page, v);
    let offers = page_offers(page);
    lemma_page_offers(page, v);
    lemma_offers_extend(v, w, offers);
}

/// Filling a record from offers keeps every field that is not `NA`.
proof fn lemma_offers_extend(v: CourseView, w: CourseView, offers: Seq<Option<Seq<char>>>)
    requires
        w.fields() == fields_filled(v.fields(), offers),
    ensures
        extends(v, w),
        all_have_values(v) ==> all_have_values(w),
{
    assert forall|i: int| 0 <= i < CourseData::FIELD_COUNT implies #[trigger] keeps(
        v.fields()[i],
        w.fields()[i],
    ) by {
        law_fill_keeps(v.fields()[i], offers[i]);
    }
    if all_have_values(v) {
        assert forall|i: int| 0 <= i < CourseData::FIELD_COUNT implies #[trigger] has_value(
            w.fields()[i],
        ) by {
            assert(has_value(v.fields()[i]));
            law_fill_keeps(v.fields()[i], offers[i]);
        }
    }
}

/// Two records with the same fields are the same.
proof fn lemma_same_fields(a: CourseView, b: CourseView)
    requires
        a.fields() == b.fields(),
    ensures
        a == b,
{
    let x = a.fields();
    let y = b.fields();
    assert(x[0] == y[0]);
    assert(x[1] == y[1]);
    assert(x[2] == y[2]);
    assert(x[3] == y[3]);
    assert(x[4] == y[4]);
    assert(x[5] == y[5]);
    assert(x[6] == y[6]);
    assert(x[7] == y[7]);
    assert(x[8] == y[8]);
    assert(x[9] == y[9]);
    assert(x[10] == y[10]);
    assert(x[11] == y[11]);
    assert(x[12] == y[12]);
    assert(x[13] == y[13]);
    assert(x[14] == y[14]);
    assert(x[15] == y[15]);
    assert(x[16] == y[16]);
    assert(x[17] == y[17]);
    assert(x[18] == y[18]);
    assert(x[19] == y[19]);
    assert(x[20] == y[20]);
    assert(x[21] == y[21]);
    assert(x[22] == y[22]);
    assert(x[23] == y[23]);
    assert(x[24] == y[24]);
    assert(x[25] == y[25]);
    assert(x[26] == y[26]);
}

/// A record that has kept what a page filled is not changed by the same page.
proof fn lemma_page_settled(page: PageView, v: CourseView, w: CourseView)
    requires
        extends(filled_from_page(page, v), w),
    ensures
        filled_from_page(page, w) == w,
{
    lemma_page_offers(page, v);
    lemma_page_offers(page, w);
    lemma_offers_settled(v, filled_from_page(page, v), w, page_offers(page));
    lemma_same_fields(filled_from_page(page, w), w);
}

/// A record that has kept what offers filled is not changed by the same offers.
proof fn lemma_offers_settled(
    v: CourseView,
    u: CourseView,
    w: CourseView,
    offers: Seq<Option<Seq<char>>>,
)
    requires
        u.fields() == fields_filled(v.fields(), offers),
        extends(u, w),
    ensures
        fields_filled(w.fields(), offers) == w.fields(),
{
    let again = fields_filled(w.fields(), offers);
    assert forall|i: int| 0 <= i < CourseData::FIELD_COUNT implies #[trigger] again[i]
        == w.fields()[i] by {
        assert(keeps(u.fields()[i], w.fields()[i]));
        lemma_fill_settled(v.fields()[i], offers[i], w.fields()[i]);
    }
    assert(again =~= w.fields());
}

/// Taking the study level that a page names keeps every field that is not `NA`.
proof fn lemma_level_extends(page: PageView, v: CourseView)
    ensures
        extends(v, with_content_level(page, v)),
        all_have_values(v) ==> all_have_values(with_content_level(page, v)),
{
    let w = with_content_level(page, v);
    law_study_levels(Seq::empty(), page);
    assert forall|i: int| 0 <= i < CourseData::FIELD_COUNT implies #[trigger] keeps(
        v.fields()[i],
        w.fields()[i],
    ) by {
        if i != 6 {
            assert(w.fields()[i] == v.fields()[i]);
        }
    }
    if all_have_values(v) {
        assert forall|i: int| 0 <= i < CourseData::FIELD_COUNT implies #[trigger] has_value(
            w.fields()[i],
        ) by {
            assert(has_value(v.fields()[i]));
            if i != 6 {
                assert(w.fields()[i] == v.fields()[i]);
            }
        }
    }
}

/// Whether a text is one of the three study levels.
pub open spec fn is_level(t: Seq<char>) -> bool {
    t == "Undergraduate"@ || t == "Postgraduate"@ || t == "Research"@
}

/// A level among breadcrumbs is a study level.
proof fn lemma_breadcrumb_from(list: Seq<ElementView>, i: int)
    ensures
        breadcrumb_from(list, i) matches Some(t) ==> is_level(t),
    decreases list.len() - i,
{
    if 0 <= i < list.len() {
        lemma_breadcrumb_from(list, i + 1);
    }
}

/// A level in the breadcrumbs of a page is a study level.
proof fn lemma_breadcrumb_on(page: PageView, selectors: Seq<Seq<char>>, i: int)
    ensures
        breadcrumb_on(page, selectors, i) matches Some(t) ==> is_level(t),
    decreases selectors.len() - i,
{
    if 0 <= i < selectors.len() {
        lemma_breadcrumb_from(page.select(selectors[i]), 0);
        lemma_breadcrumb_on(page, selectors, i + 1);
    }
}

/// A level among descriptions is a study level.
proof fn lemma_meta_from(list: Seq<ElementView>, i: int)
    ensures
        meta_from(list, i) matches Some(t) ==> is_level(t),
    decreases list.len() - i,
{
    if 0 <= i < list.len() {
        lemma_meta_from(list, i + 1);
    }
}

/// The study level that a URL or a page names is one of three, none of which is `NA`, and
/// each of which is a value of a field.
pub proof fn law_study_levels(url: Seq<char>, page: PageView)
    ensures
        url_level(url) matches Some(t) ==> is_level(t),
        content_level(page) matches Some(t) ==> is_level(t),
        forall|t: Seq<char>| #[trigger] is_level(t) ==> t != NA@ && has_value(t),
{
    lemma_breadcrumb_on(page, breadcrumb_selectors(), 0);
    lemma_meta_from(page.select(META_SELECTOR@), 0);
    reveal_strlit("Undergraduate");
    reveal_strlit("Postgraduate");
    reveal_strlit("Research");
    reveal_strlit("NA");
    assert(NA@.len() == 2);
    assert("Undergraduate"@.len() == 13);
    assert("Postgraduate"@.len() == 12);
    assert("Research"@.len() == 8);
}

/// Each layer only fills gaps: it keeps every field that an earlier one has filled.
pub proof fn law_layers_keep_filled_fields(page: PageView, v: CourseView)
    ensures
        extends(v, filled_from_json_ld(page, v)),
        extends(v, with_content_level(page, v)),
        extends(v, filled_from_page(page, v)),
        extends(v, extracted_from_page(page, v)),
{
    let a = filled_from_json_ld(page, v);
    let b = with_content_level(page, a);
    lemma_scripts_extend(page.select(JSON_LD_SELECTOR@), v);
    lemma_level_extends(page, v);
    lemma_level_extends(page, a);
    lemma_page_extends(page, v);
    lemma_page_extends(page, b);
    lemma_extends_transitive(v, a, b);
    lemma_extends_transitive(v, b, extracted_from_page(page, v));
}

/// How many of several texts are not `NA` does not fall where each that is not `NA`
/// is kept.
proof fn lemma_filled_among_grows(a: Seq<Seq<char>>, b: Seq<Seq<char>>)
    requires
        a.len() == b.len(),
        forall|i: int| 0 <= i < a.len() ==> #[trigger] keeps(a[i], b[i]),
    ensures
        filled_among(a) <= filled_among(b),
    decreases a.len(),
{
    reveal(Seq::filter);
    if a.len() > 0 {
        let x = a.drop_last();
        let y = b.drop_last();
        assert forall|i: int| 0 <= i < x.len() implies #[trigger] keeps(x[i], y[i]) by {
            assert(keeps(a[i], b[i]));
        }
        lemma_filled_among_grows(x, y);
        assert(keeps(a[a.len() - 1], b[b.len() - 1]));
    }
}

/// The number of filled fields never falls.
pub proof fn law_fill_rate_never_falls(page: PageView, v: CourseView)
    ensures
        v.filled() <= filled_from_json_ld(page, v).filled(),
        v.filled() <= filled_from_page(page, v).filled(),
        v.filled() <= extracted_from_page(page, v).filled(),
{
    law_layers_keep_filled_fields(page, v);
    lemma_filled_among_grows(v.fields(), filled_from_json_ld(page, v).fields());
    lemma_filled_among_grows(v.fields(), filled_from_page(page, v).fields());
    lemma_filled_among_grows(v.fields(), extracted_from_page(page, v).fields());
}

/// Reading the same page again changes nothing, neither layer by layer nor as a whole.
pub proof fn law_extraction_idempotent(page: PageView, v: CourseView)
    ensures
        filled_from_json_ld(page, filled_from_json_ld(page, v)) == filled_from_json_ld(page, v),
        filled_from_page(page, filled_from_page(page, v)) == filled_from_page(page, v),
        extracted_from_page(page, extracted_from_page(page, v)) == extracted_from_page(page, v),
{
    let scripts = page.select(JSON_LD_SELECTOR@);
    let a = filled_from_json_ld(page, v);
    let b = with_content_level(page, a);
    let c = filled_from_page(page, b);
    lemma_extends_itself(a);
    lemma_scripts_settled(scripts, v, a);
    lemma_extends_itself(filled_from_page(page, v));
    lemma_page_settled(page, v, filled_from_page(page, v));
    lemma_level_extends(page, a);
    lemma_page_extends(page, b);
    lemma_extends_transitive(a, b, c);
    lemma_scripts_settled(scripts, v, c);
    assert(keeps(b.fields()[6], c.fields()[6]));
    assert(keeps(a.fields()[6], b.fields()[6]));
    law_study_levels(Seq::empty(), page);
    assert(with_content_level(page, c) == c);
    lemma_extends_itself(c);
    lemma_page_settled(page, b, c);
}

/// A record keeps its own fields.
pub proof fn lemma_extends_itself(v: CourseView)
    ensures
        extends(v, v),
{
}

/// Whether two records agree on what is the same for all courses, and on the URL.
pub open spec fn same_constants(v: CourseView, w: CourseView) -> bool {
    &&& w.university_name == v.university_name
    &&& w.course_website_url == v.course_website_url
    &&& w.country == v.country
    &&& w.address == v.address
}

/// Whether two records differ at most in the five fields that structured data fills.
pub open spec fn same_but_structured(v: CourseView, w: CourseView) -> bool {
    w == (CourseView {
        program_course_name: w.program_course_name,
        campus: w.campus,
        study_level: w.study_level,
        course_duration: w.course_duration,
        yearly_tuition_fee: w.yearly_tuition_fee,
        ..v
    })
}

/// Course objects fill five fields only.
proof fn lemma_objects_constants(list: Seq<JsonView>, v: CourseView)
    ensures
        same_but_structured(v, filled_from_objects(list, v)),
    decreases list.len(),
{
    if list.len() > 0 {
        lemma_objects_constants(list.drop_last(), v);
    }
}

/// Scripts fill five fields only.
proof fn lemma_scripts_constants(list: Seq<ElementView>, v: CourseView)
    ensures
        same_but_structured(v, filled_from_scripts(list, v)),
    decreases list.len(),
{
    if list.len() > 0 {
        lemma_scripts_constants(list.drop_last(), v);
        match json_document(plain(list.last())) {
            Some(doc) => {
                lemma_objects_constants(
                    document_objects(doc),
                    filled_from_scripts(list.drop_last(), v),
                );
            },
            None => {},
        }
    }
}

/// Every record names the university, its country and address, and the URL of the
/// course, whatever the page holds.
pub proof fn law_constants_stand(url: Seq<char>, page: Option<PageView>)
    ensures
        same_constants(CourseView::empty(url), course_record(url, page)),
{
    match page {
        Some(page) => {
            lemma_scripts_constants(page.select(JSON_LD_SELECTOR@), record_of_url(url));
        },
        None => {},
    }
}

/// The record of a URL has a value in every field.
proof fn lemma_record_of_url_has_values(url: Seq<char>)
    requires
        has_value(url),
    ensures
        all_have_values(record_of_url(url)),
{
    reveal_strlit("NA");
    reveal_strlit("Coventry University");
    reveal_strlit("United Kingdom");
    reveal_strlit("Priory Street, Coventry, CV1 5FB, United Kingdom");
    law_study_levels(
        lower(url),
        PageView { elements: Map::empty(), root_text: Seq::empty() },
    );
}

/// The record is always complete: every field holds a value, which is not empty and has no
/// white space at its ends; `NA` where nothing was found.
pub proof fn law_record_complete(url: Seq<char>, page: Option<PageView>)
    requires
        has_value(url),
    ensures
        all_have_values(course_record(url, page)),
{
    lemma_record_of_url_has_values(url);
    match page {
        Some(page) => {
            let v = record_of_url(url);
            let a = filled_from_json_ld(page, v);
            lemma_scripts_extend(page.select(JSON_LD_SELECTOR@), v);
            lemma_level_extends(page, a);
            lemma_page_extends(page, with_content_level(page, a));
        },
        None => {},
    }
}

/// A record that is complete stays so when a page that a browser has rendered is read.
pub proof fn law_rendered_record_complete(page: PageView, v: CourseView)
    requires
        all_have_values(v),
    ensures
        all_have_values(filled_from_page(page, v)),
{
    lemma_page_extends(page, v);
}

/// The study level that the URL names stands, whatever the page holds.
pub proof fn law_url_level_stands(url: Seq<char>, page: Option<PageView>)
    ensures
        url_level(lower(url)) matches Some(level) ==> course_record(url, page).study_level == level,
{
    match page {
        Some(page) => {
            let v = record_of_url(url);
            law_layers_keep_filled_fields(page, v);
            law_study_levels(lower(url), page);
            assert(keeps(v.fields()[6], extracted_from_page(page, v).fields()[6]));
        },
        None => {},
    }
}

/// One more text counts if it is not `NA`.
pub proof fn lemma_filled_take(list: Seq<Seq<char>>, i: int)
    requires
        0 <= i < list.len(),
    ensures
        filled_among(list.take(i + 1)) == filled_among(list.take(i)) + if list[i] != NA@ {
            1nat
        } else {
            0nat
        },
{
    reveal(Seq::filter);
    assert(list.take(i + 1).drop_last() =~= list.take(i));
}

/// Texts that are `NA` do not count.
proof fn lemma_filled_rest(list: Seq<Seq<char>>, i: int)
    requires
        0 <= i <= list.len(),
        forall|j: int| i <= j < list.len() ==> #[trigger] list[j] == NA@,
    ensures
        filled_among(list) == filled_among(list.take(i)),
    decreases list.len() - i,
{
    if i < list.len() {
        lemma_filled_rest(list, i + 1);
        lemma_filled_take(list, i);
    } else {
        assert(list.take(i) =~= list);
    }
}

/// A record of which only the URL is known holds the four fields that need no page,
/// is not valid, and calls for rendering the page.
pub proof fn law_empty_record(url: Seq<char>)
    requires
        url != NA@,
    ensures
        CourseView::empty(url).filled() == 4,
        !CourseView::empty(url).valid(),
        lacks_critical_fields(CourseView::empty(url)),
{
    reveal_strlit("NA");
    reveal_strlit("Coventry University");
    reveal_strlit("United Kingdom");
    reveal_strlit("Priory Street, Coventry, CV1 5FB, United Kingdom");
    assert(NA@.len() == 2);
    assert("Coventry University"@.len() == 19);
    assert("United Kingdom"@.len() == 14);
    assert("Priory Street, Coventry, CV1 5FB, United Kingdom"@.len() == 48);
    let v = CourseView::empty(url);
    let all = v.fields();
    assert(all.take(0) =~= Seq::empty());
    reveal(Seq::filter);
    lemma_filled_take(all, 0);
    lemma_filled_take(all, 1);
    lemma_filled_take(all, 2);
    lemma_filled_take(all, 3);
    lemma_filled_take(all, 4);
    lemma_filled_take(all, 5);
    lemma_filled_rest(all, 6);
    let critical = critical_fields(v);
    assert(critical.take(0) =~= Seq::empty());
    lemma_filled_rest(critical, 0);
}

/// A score of PTE Academic has no white space at its ends.
proof fn lemma_pte_trimmed(s: Seq<char>)
    requires
        in_pte_range(s),
    ensures
        trimmed(s) == s,
{
    let whole = s.take(index_from(s, '.', 0));
    assert(is_digit(whole[0]));
    assert(is_digit(whole[whole.len() - 1]));
    law_trimmed_solid(s);
}

/// Whether the PTE score of a record is `NA` or lies between 36 and 90, and its intakes
/// name no year before 2025.
pub open spec fn score_and_intakes_fit(v: CourseView) -> bool {
    &&& v.min_pte == NA@ || in_pte_range(v.min_pte)
    &&& !is_past(v.all_intakes_available)
}

/// In every record the PTE score is `NA` or lies between 36 and 90, and the intakes name
/// no year before 2025.
pub proof fn law_record_score_and_intakes(url: Seq<char>, page: Option<PageView>)
    ensures
        score_and_intakes_fit(course_record(url, page)),
{
    assert(!is_past(NA@)) by {
        reveal_strlit("NA");
        assert forall|i: int| !past_year_at(NA@, i) by {}
    }
    match page {
        Some(page) => {
            let v = record_of_url(url);
            let a = filled_from_json_ld(page, v);
            lemma_scripts_constants(page.select(JSON_LD_SELECTOR@), v);
            law_rendered_page_score_and_intakes(page, with_content_level(page, a));
        },
        None => {},
    }
}

/// A record whose PTE score and intakes are as they should be stays so when a page that a
/// browser has rendered is read.
pub proof fn law_rendered_page_score_and_intakes(page: PageView, v: CourseView)
    requires
        score_and_intakes_fit(v),
    ensures
        score_and_intakes_fit(filled_from_page(page, v)),
{
    let content = main_text(page);
    law_scores_are_plausible(content, pte_names(), ScoreKind::Pte);
    match pte_value(content) {
        Some(score) => {
            lemma_pte_trimmed(score);
        },
        None => {},
    }
    match value_or_none(page, intake_labels()) {
        Some(value) => {
            law_no_past_intakes(value);
        },
        None => {},
    }
}

/// Whether a field, by its index, is of another subject than English, and does not name
/// the course itself.
pub open spec fn is_other_field(i: int) -> bool {
    i == 3 || 6 <= i <= 19
}

/// Whether no field of another subject holds a score of an English test, next to the
/// test's name.
pub open spec fn no_score_in_other_fields(v: CourseView) -> bool {
    forall|i: int|
        0 <= i < CourseData::FIELD_COUNT && is_other_field(i) ==> !holds_english_score(
            #[trigger] v.fields()[i],
        )
}

/// A field that holds no English score holds none after a value was offered for it.
proof fn lemma_fill_other_free(field: Seq<char>, value: Option<Seq<char>>)
    requires
        !holds_english_score(field),
    ensures
        !holds_english_score(fill(field, english_free_value(value))),
{
    match value {
        Some(t) => {
            law_english_free(t);
        },
        None => {},
    }
}

/// The record of a URL holds no English score in a field of another subject.
proof fn lemma_record_of_url_free(url: Seq<char>)
    ensures
        no_score_in_other_fields(record_of_url(url)),
{
    let v = record_of_url(url);
    reveal_strlit("NA");
    lemma_no_digits_no_score(NA@);
    law_study_levels(
        lower(url),
        PageView { elements: Map::empty(), root_text: Seq::empty() },
    );
    match url_level(lower(url)) {
        Some(level) => {
            lemma_level_free(level);
        },
        None => {},
    }
    assert forall|i: int|
        0 <= i < CourseData::FIELD_COUNT && is_other_field(i) implies !holds_english_score(
        #[trigger] v.fields()[i],
    ) by {
        if i != 6 {
            assert(v.fields()[i] == NA@);
        }
    }
}

/// A study level holds no English score.
proof fn lemma_level_free(level: Seq<char>)
    requires
        is_level(level),
    ensures
        !holds_english_score(level),
{
    reveal_strlit("Undergraduate");
    reveal_strlit("Postgraduate");
    reveal_strlit("Research");
    lemma_no_digits_no_score(level);
}

/// A field that holds no English score holds none after a value that holds none was
/// offered for it.
proof fn lemma_fill_free(field: Seq<char>, value: Option<Seq<char>>)
    requires
        !holds_english_score(field),
        value matches Some(t) ==> !holds_english_score(t),
    ensures
        !holds_english_score(fill(field, value)),
{
    match value {
        Some(t) => {
            lemma_trimmed_holds_none(t);
        },
        None => {},
    }
}

/// What a page says on documents and on school qualifications holds no English score.
proof fn lemma_said_free(page: PageView)
    ensures
        document_value(page) matches Some(t) ==> !holds_english_score(t),
        class12_value(page) matches Some(t) ==> !holds_english_score(t),
{
    match section_from(page, document_selectors(), 500, 0) {
        Some(block) => {
            law_picked_sentences_hold_no_score(Subject::Documents, block);
        },
        None => {},
    }
    match section_from(page, class12_selectors(), 2000, 0) {
        Some(block) => {
            law_picked_sentences_hold_no_score(Subject::Qualifications, block);
        },
        None => {},
    }
}

/// Course objects bring no English score into a field of another subject.
proof fn lemma_object_free(obj: JsonView, v: CourseView)
    requires
        no_score_in_other_fields(v),
    ensures
        no_score_in_other_fields(filled_from_object(obj, v)),
{
    let w = filled_from_object(obj, v);
    assert(!holds_english_score(v.fields()[3]));
    assert(!holds_english_score(v.fields()[6]));
    assert(!holds_english_score(v.fields()[7]));
    assert(!holds_english_score(v.fields()[10]));
    lemma_fill_other_free(v.campus, object_campus(obj));
    lemma_fill_other_free(
        v.study_level,
        cleaned_text(either_text(obj, "educationalLevel"@, "educationalCredentialAwarded"@)),
    );
    lemma_fill_other_free(v.course_duration, object_duration(obj));
    lemma_fill_other_free(v.yearly_tuition_fee, object_fee(obj));
    assert forall|i: int|
        0 <= i < CourseData::FIELD_COUNT && is_other_field(i) implies !holds_english_score(
        #[trigger] w.fields()[i],
    ) by {
        if i != 3 && i != 6 && i != 7 && i != 10 {
            assert(w.fields()[i] == v.fields()[i]);
        }
    }
}

/// Several objects bring no English score into a field of another subject.
proof fn lemma_objects_free(list: Seq<JsonView>, v: CourseView)
    requires
        no_score_in_other_fields(v),
    ensures
        no_score_in_other_fields(filled_from_objects(list, v)),
    decreases list.len(),
{
    if list.len() > 0 {
        lemma_objects_free(list.drop_last(), v);
        lemma_object_free(list.last(), filled_from_objects(list.drop_last(), v));
    }
}

/// Several scripts bring no English score into a field of another subject.
proof fn lemma_scripts_free(list: Seq<ElementView>, v: CourseView)
    requires
        no_score_in_other_fields(v),
    ensures
        no_score_in_other_fields(filled_from_scripts(list, v)),
    decreases list.len(),
{
    if list.len() > 0 {
        lemma_scripts_free(list.drop_last(), v);
        match json_document(plain(list.last())) {
            Some(doc) => {
                lemma_objects_free(
                    document_objects(doc),
                    filled_from_scripts(list.drop_last(), v),
                );
            },
            None => {},
        }
    }
}

/// The study level that a page names brings no English score into its field.
proof fn lemma_content_level_free(page: PageView, v: CourseView)
    requires
        no_score_in_other_fields(v),
    ensures
        no_score_in_other_fields(with_content_level(page, v)),
{
    let w = with_content_level(page, v);
    law_study_levels(Seq::empty(), page);
    match content_level(page) {
        Some(level) => {
            lemma_level_free(level);
        },
        None => {},
    }
    assert forall|i: int|
        0 <= i < CourseData::FIELD_COUNT && is_other_field(i) implies !holds_english_score(
        #[trigger] w.fields()[i],
    ) by {
        assert(!holds_english_score(v.fields()[i]));
        if i != 6 {
            assert(w.fields()[i] == v.fields()[i]);
        }
    }
}

/// The elements and the text of a page bring no English score into a field of another
/// subject.
#[verifier::spinoff_prover]
#[verifier::rlimit(60)]
proof fn lemma_page_free(page: PageView, v: CourseView)
    requires
        no_score_in_other_fields(v),
    ensures
        no_score_in_other_fields(filled_from_page(page, v)),
{
    let w = filled_from_page(page, v);
    lemma_page_offers(page, v);
    lemma_other_offers(page);
    lemma_offers_free(v, w, page_offers(page));
}

/// Whether an offer for a field holds no English score.
pub open spec fn is_free_offer(offer: Option<Seq<char>>) -> bool {
    offer matches Some(t) ==> !holds_english_score(t)
}

/// What a page offers for the fields of other subjects holds no English score.
#[verifier::spinoff_prover]
#[verifier::rlimit(60)]
proof fn lemma_other_offers(page: PageView)
    ensures
        forall|i: int|
            0 <= i < CourseData::FIELD_COUNT && is_other_field(i) ==> is_free_offer(
                #[trigger] page_offers(page)[i],
            ),
{
    let offers = page_offers(page);
    lemma_said_free(page);
    lemma_free_value(campus_value(page));
    lemma_free_value(level_value(page));
    lemma_free_value(duration_value(page));
    lemma_free_value(intake_value(page));
    lemma_free_value(fee_value(page));
    lemma_free_value(scholarship_value(page));
    lemma_free_value(admission_value(main_text(page)));
    lemma_free_value(india_value(main_text(page)));
    lemma_free_value(gap_value(main_text(page)));
    lemma_free_value(experience_value(page));
    lemma_free_value(backlog_value(page));
    lemma_free_value(degree_value(page));
    lemma_free_value(twelfth_value(page));
    assert(is_free_offer(offers[3]));
    assert(is_free_offer(offers[6]));
    assert(is_free_offer(offers[7]));
    assert(is_free_offer(offers[8]));
    assert(is_free_offer(offers[9]));
    assert(is_free_offer(offers[10]));
    assert(is_free_offer(offers[11]));
    assert(is_free_offer(offers[12]));
    assert(is_free_offer(offers[13]));
    assert(is_free_offer(offers[14]));
    assert(is_free_offer(offers[15]));
    assert(is_free_offer(offers[16]));
    assert(is_free_offer(offers[17]));
    assert(is_free_offer(offers[18]));
    assert(is_free_offer(offers[19]));
}

/// What is left of an offer holds no English score.
proof fn lemma_free_value(value: Option<Seq<char>>)
    ensures
        is_free_offer(english_free_value(value)),
{
    match value {
        Some(t) => {
            law_english_free(t);
        },
        None => {},
    }
}

/// Offers that hold no English score bring none into a field of another subject.
proof fn lemma_offers_free(v: CourseView, w: CourseView, offers: Seq<Option<Seq<char>>>)
    requires
        no_score_in_other_fields(v),
        w.fields() == fields_filled(v.fields(), offers),
        forall|i: int|
            0 <= i < CourseData::FIELD_COUNT && is_other_field(i) ==> is_free_offer(
                #[trigger] offers[i],
            ),
    ensures
        no_score_in_other_fields(w),
{
    assert forall|i: int|
        0 <= i < CourseData::FIELD_COUNT && is_other_field(i) implies !holds_english_score(
        #[trigger] w.fields()[i],
    ) by {
        assert(!holds_english_score(v.fields()[i]));
        assert(is_free_offer(offers[i]));
        lemma_fill_free(v.fields()[i], offers[i]);
    }
}

/// In every record, whatever the page holds, no field of another subject holds a score of
/// an English test next to the test's name. The name and the URL of the course are what
/// they are.
pub proof fn law_no_english_score_in_other_fields(url: Seq<char>, page: Option<PageView>)
    ensures
        no_score_in_other_fields(course_record(url, page)),
{
    lemma_record_of_url_free(url);
    match page {
        Some(page) => {
            let v = record_of_url(url);
            let a = filled_from_json_ld(page, v);
            lemma_scripts_free(page.select(JSON_LD_SELECTOR@), v);
            lemma_content_level_free(page, a);
            lemma_page_free(page, with_content_level(page, a));
        },
        None => {},
    }
}

/// A page that a browser has rendered brings no score of an English test, next to the
/// test's name, into a field of another subject either.
pub proof fn law_no_english_score_from_rendered_page(page: PageView, v: CourseView)
    requires
        no_score_in_other_fields(v),
    ensures
        no_score_in_other_fields(filled_from_page(page, v)),
{
    lemma_page_free(page, v);
}

} // verus!
