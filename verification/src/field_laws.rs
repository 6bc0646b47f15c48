//! Which field of a record is read off which part of a page.

use vstd::prelude::*;

use crate::dom::{ElementView, PageView};
use crate::english::{english_free, free_or_none, holds_english_score};
use crate::english_laws::law_english_free;
use crate::intakes::current_intakes;
use crate::layer2::{
    admission_value, backlog_labels, backlog_value, campus_labels, campus_value, class12_selectors,
    class12_value, class12_words, degree_labels, degree_value, document_selectors, document_value,
    duolingo_value, duration_labels, duration_value, experience_labels, experience_value, fee_among,
    fee_from, fee_in_content, fee_labels, fee_on, fee_selectors, fee_value, filled_from_page,
    gap_value, gcse_value, ielts_value, india_value, intake_labels, intake_value, is_on,
    kaplan_value, level_selectors, level_value, moi_value, name_selectors, name_value, pte_value,
    said_on, scholarship_selectors, scholarship_value, toefl_value, twelfth_labels, twelfth_value,
    Subject,
};
use crate::page::{
    first_text_from, labeled_value, law_labeled_value_is_solid, main_text, section_from,
    value_or_none,
};
use crate::pattern::{group_of, regex_groups};
use crate::schema::CourseView;
use crate::text::{includes, includes_any, trimmed, without};
use crate::text_laws::law_joined_without_separator;
use crate::unicode::{folded, lower, upper};

verus! {

/// The value that a page gives to one of several labels; a value of "NA" is none.
pub open spec fn labelled(page: PageView, labels: Seq<Seq<char>>) -> Option<Seq<char>> {
    match labeled_value(page, labels) {
        Some(t) => if t == "NA"@ {
            None
        } else {
            Some(t)
        },
        None => None,
    }
}

/// The campus, the duration, the degree, the school grade and the backlog limit are the
/// values of their labels, and the intakes the current ones among those of theirs.
pub proof fn law_fields_with_labels(page: PageView)
    ensures
        campus_value(page) == labelled(
            page,
            seq!["Campus"@, "Location"@, "Study location"@, "Where"@],
        ),
        duration_value(page) == labelled(
            page,
            seq!["Duration"@, "Course length"@, "Length"@, "Study mode"@],
        ),
        degree_value(page) == labelled(
            page,
            seq![
                "Degree classification"@,
                "Minimum grade"@,
                "GPA"@,
                "Academic requirement"@,
                "Honours degree"@,
            ],
        ),
        twelfth_value(page) == labelled(
            page,
            seq!["A-level"@, "A level"@, "GCSE"@, "12th"@, "Twelfth"@, "High school grade"@],
        ),
        backlog_value(page) == labelled(
            page,
            seq!["Backlog"@, "Backlogs"@, "Arrears"@, "Standing arrears"@],
        ),
        intake_value(page) == match labelled(
            page,
            seq![
                "Start date"@,
                "Start dates"@,
                "Entry point"@,
                "Entry"@,
                "Intake"@,
                "When can I start"@,
            ],
        ) {
            Some(t) => Some(current_intakes(t)),
            None => None,
        },
{
    assert(seq!["Campus"@, "Location"@, "Study location"@, "Where"@] =~= campus_labels());
    assert(seq!["Duration"@, "Course length"@, "Length"@, "Study mode"@] =~= duration_labels());
    assert(seq![
        "Degree classification"@,
        "Minimum grade"@,
        "GPA"@,
        "Academic requirement"@,
        "Honours degree"@,
    ] =~= degree_labels());
    assert(seq!["A-level"@, "A level"@, "GCSE"@, "12th"@, "Twelfth"@, "High school grade"@]
        =~= twelfth_labels());
    assert(seq!["Backlog"@, "Backlogs"@, "Arrears"@, "Standing arrears"@] =~= backlog_labels());
    assert(seq![
        "Start date"@,
        "Start dates"@,
        "Entry point"@,
        "Entry"@,
        "Intake"@,
        "When can I start"@,
    ] =~= intake_labels());
}

/// The title and the study level are the texts of the first of their selectors that shows
/// one.
pub proof fn law_fields_with_selectors(page: PageView)
    ensures
        name_value(page) == first_text_from(
            page,
            seq![
                "h1.course-title"@,
                ".course-header h1"@,
                ".c-course-header__title"@,
                ".course-hero__title"@,
                "h1"@,
            ],
            0,
        ),
        level_value(page) == first_text_from(
            page,
            seq![
                "nav[aria-label='breadcrumb'] li:nth-child(2)"@,
                ".breadcrumb li:nth-child(2)"@,
                "ol.breadcrumb li:nth-child(2)"@,
                ".c-breadcrumb__item:nth-child(2)"@,
                "[data-study-level]"@,
                ".course-level"@,
                ".study-level"@,
            ],
            0,
        ),
{
    assert(seq![
        "h1.course-title"@,
        ".course-header h1"@,
        ".c-course-header__title"@,
        ".course-hero__title"@,
        "h1"@,
    ] =~= name_selectors());
    assert(seq![
        "nav[aria-label='breadcrumb'] li:nth-child(2)"@,
        ".breadcrumb li:nth-child(2)"@,
        "ol.breadcrumb li:nth-child(2)"@,
        ".c-breadcrumb__item:nth-child(2)"@,
        "[data-study-level]"@,
        ".course-level"@,
        ".study-level"@,
    ] =~= level_selectors());
}

/// Whether a page gives labels a value that can be recorded: one that is not "NA", of which
/// something is left without its sentences that hold English scores.
pub open spec fn gives_value(page: PageView, labels: Seq<Seq<char>>, value: Seq<char>) -> bool {
    &&& labelled(page, labels) matches Some(whole) && english_free(whole) == value
    &&& trimmed(value).len() > 0
}

/// Whether a page gives labels no value that can be recorded.
pub open spec fn gives_no_value(page: PageView, labels: Seq<Seq<char>>) -> bool {
    labelled(page, labels) matches Some(whole) ==> trimmed(english_free(whole)).len() == 0
}

/// A value that is not "NA" and holds no English score can be recorded as it is.
pub proof fn law_values_without_scores(page: PageView, labels: Seq<Seq<char>>, value: Seq<char>)
    requires
        labeled_value(page, labels) == Some(value),
        value != "NA"@,
        !holds_english_score(value),
    ensures
        gives_value(page, labels, value),
{
    law_labeled_value_is_solid(page, labels);
    law_english_free(value);
}

/// A fee without the words "per year", small or with a capital.
pub open spec fn without_per_year(value: Seq<char>) -> Seq<char> {
    trimmed(without(without(value, "per year"@), "Per year"@))
}

/// A value that can be recorded is what is left without English scores.
proof fn lemma_gives_value(page: PageView, labels: Seq<Seq<char>>, value: Seq<char>)
    ensures
        gives_value(page, labels, value) ==> free_or_none(value_or_none(page, labels)) == Some(
            value,
        ),
        gives_no_value(page, labels) ==> free_or_none(value_or_none(page, labels)) is None,
{
}

/// The first fee label with a value gives the fee.
proof fn lemma_fee_from(
    page: PageView,
    labels: Seq<Seq<char>>,
    from: int,
    k: int,
    value: Seq<char>,
)
    requires
        0 <= from <= k <= labels.len(),
        forall|j: int|
            from <= j < k ==> gives_no_value(page, seq![#[trigger] labels[j]]),
        k < labels.len() ==> gives_value(page, seq![labels[k]], value),
    ensures
        k < labels.len() ==> fee_from(page, labels, from) == Some(without_per_year(value)),
        k == labels.len() ==> fee_from(page, labels, from) == fee_in_content(page),
    decreases k - from,
{
    if from < labels.len() {
        lemma_gives_value(page, seq![labels[from]], value);
        if from < k {
            assert(gives_no_value(page, seq![labels[from]]));
            lemma_fee_from(page, labels, from + 1, k, value);
        }
    }
}

/// The international fee comes first: where a page gives one, under either of its labels,
/// the yearly tuition fee is that, whatever other fees stand on the page.
pub proof fn law_international_fee_comes_first(page: PageView, value: Seq<char>)
    ensures
        gives_value(page, seq!["International fee"@], value) ==> fee_value(page) == Some(
            without_per_year(value),
        ),
        gives_no_value(page, seq!["International fee"@]) && gives_value(
            page,
            seq!["International tuition fee"@],
            value,
        ) ==> fee_value(page) == Some(without_per_year(value)),
{
    let all = fee_labels();
    if gives_value(page, seq!["International fee"@], value) {
        lemma_fee_from(page, all, 0, 0, value);
    }
    if gives_no_value(page, seq!["International fee"@]) && gives_value(
        page,
        seq!["International tuition fee"@],
        value,
    ) {
        lemma_fee_from(page, all, 0, 1, value);
    }
}

/// The yearly tuition fee is the value of the first fee label that has one, without "per
/// year", and the fee shown anywhere on the page where no label has one.
pub proof fn law_fee_by_label(page: PageView, labels: Seq<Seq<char>>, k: int, value: Seq<char>)
    requires
        labels == seq![
            "International fee"@,
            "International tuition fee"@,
            "Tuition fees"@,
            "Annual tuition fee"@,
            "Fees"@,
            "Fee"@,
            "Tuition fee"@,
        ],
        0 <= k <= 7,
        forall|j: int| 0 <= j < k ==> gives_no_value(page, seq![#[trigger] labels[j]]),
        k < 7 ==> gives_value(page, seq![labels[k]], value),
    ensures
        k < 7 ==> fee_value(page) == Some(without_per_year(value)),
        k == 7 ==> fee_value(page) == fee_in_content(page),
{
    assert(labels =~= fee_labels());
    lemma_fee_from(page, labels, 0, k, value);
}

/// Whether an element shows an amount in pounds.
pub open spec fn shows_amount(e: ElementView) -> bool {
    let t = e.text.flatten();
    &&& includes(t, "£"@) || includes(upper(t), "GBP"@)
    &&& trimmed(t).len() > 0
}

/// The first element of a list with an amount gives the fee.
proof fn lemma_fee_among(list: Seq<ElementView>, from: int, i: int)
    requires
        0 <= from <= i <= list.len(),
        forall|j: int| from <= j < i ==> !shows_amount(#[trigger] list[j]),
    ensures
        i < list.len() && shows_amount(list[i]) ==> fee_among(list, from) == Some(
            trimmed(list[i].text.flatten()),
        ),
        i == list.len() ==> fee_among(list, from) is None,
    decreases i - from,
{
    if from < list.len() {
        law_joined_without_separator(list[from].text);
        if from < i {
            assert(!shows_amount(list[from]));
            lemma_fee_among(list, from + 1, i);
        }
    }
}

/// Whether no element that a selector selects shows an amount in pounds.
pub open spec fn shows_no_amount(page: PageView, selector: Seq<char>) -> bool {
    forall|j: int|
        0 <= j < page.select(selector).len() ==> !shows_amount(#[trigger] page.select(selector)[j])
}

/// The first element of a page with an amount gives the fee.
proof fn lemma_fee_on(page: PageView, selectors: Seq<Seq<char>>, from: int, r: int, i: int)
    requires
        0 <= from <= r <= selectors.len(),
        forall|q: int| from <= q < r ==> shows_no_amount(page, #[trigger] selectors[q]),
        r < selectors.len() ==> {
            &&& 0 <= i < page.select(selectors[r]).len()
            &&& shows_amount(page.select(selectors[r])[i])
            &&& forall|j: int| 0 <= j < i ==> !shows_amount(#[trigger] page.select(selectors[r])[j])
        },
    ensures
        r < selectors.len() ==> fee_on(page, selectors, from) == Some(
            trimmed(page.select(selectors[r])[i].text.flatten()),
        ),
        r == selectors.len() ==> fee_on(page, selectors, from) is None,
    decreases r - from,
{
    if from < r {
        assert(shows_no_amount(page, selectors[from]));
        let list = page.select(selectors[from]);
        lemma_fee_among(list, 0, list.len() as int);
        lemma_fee_on(page, selectors, from + 1, r, i);
    } else if r < selectors.len() {
        lemma_fee_among(page.select(selectors[r]), 0, i);
    }
}

/// The fee that a page shows is the whole text of the first value in its key-info strip
/// with an amount in pounds, and the first amount in pounds anywhere on the page where the
/// strip has none.
pub proof fn law_fee_shown(page: PageView, selectors: Seq<Seq<char>>, r: int, i: int)
    requires
        selectors == seq![
            ".c-key-info__value"@,
            ".key-info__value"@,
            ".course-detail__value"@,
            ".keyinfo__value"@,
        ],
        0 <= r <= 4,
        forall|q: int| 0 <= q < r ==> shows_no_amount(page, #[trigger] selectors[q]),
        r < 4 ==> {
            &&& 0 <= i < page.select(selectors[r]).len()
            &&& shows_amount(page.select(selectors[r])[i])
            &&& forall|j: int| 0 <= j < i ==> !shows_amount(#[trigger] page.select(selectors[r])[j])
        },
    ensures
        r < 4 ==> fee_in_content(page) == Some(
            trimmed(page.select(selectors[r])[i].text.flatten()),
        ),
        r == 4 ==> fee_in_content(page) == trimmed_match(
            r"£\s*[\d,]+(?:\s*per\s+year)?|GBP\s*[\d,]+"@,
            page.root_text.flatten(),
        ),
{
    assert(selectors =~= fee_selectors());
    law_joined_without_separator(page.root_text);
    lemma_fee_on(page, selectors, 0, r, i);
}

/// The first match of a regular expression in a text, trimmed.
pub open spec fn trimmed_match(pattern: Seq<char>, text: Seq<char>) -> Option<Seq<char>> {
    match regex_groups(pattern, text) {
        Some(groups) => if groups.len() > 0 {
            match groups[0] {
                Some(t) => Some(trimmed(t)),
                None => None,
            }
        } else {
            None
        },
        None => None,
    }
}

/// The work experience is the value of its labels, or else what the main text says of years
/// of experience.
pub proof fn law_experience(page: PageView, value: Seq<char>)
    ensures
        ({
            let labels = seq![
                "Work experience"@,
                "Professional experience"@,
                "Industry experience"@,
                "Relevant experience"@,
            ];
            &&& gives_value(page, labels, value) ==> experience_value(page) == Some(value)
            &&& gives_no_value(page, labels) ==> experience_value(page) == trimmed_match(
                r"(?i)\d+\s+years?['\s]+(?:of\s+)?(?:relevant\s+)?(?:professional\s+)?experience"@,
                main_text(page),
            )
        }),
{
    assert(seq![
        "Work experience"@,
        "Professional experience"@,
        "Industry experience"@,
        "Relevant experience"@,
    ] =~= experience_labels());
    lemma_gives_value(page, experience_labels(), value);
}

/// What is recorded on scholarships is the section on them, or else that there are some,
/// where the page links to a funding page or its main text mentions them; or else nothing.
pub proof fn law_scholarships(page: PageView, section: Seq<char>)
    ensures
        ({
            let found = section_from(
                page,
                seq![
                    ".scholarships"@,
                    "#scholarships"@,
                    "[data-section='scholarships']"@,
                    ".funding-section"@,
                    ".c-scholarships"@,
                    "#funding"@,
                ],
                300,
                0,
            );
            let linked = page.select(
                "a[href*='scholarship'], a[href*='bursary'], a[href*='funding']"@,
            ).len() > 0;
            let text = lower(main_text(page));
            let none = found matches Some(section) ==> trimmed(english_free(section)).len() == 0;
            &&& found == Some(section) && trimmed(english_free(section)).len() > 0
                ==> scholarship_value(page) == Some(english_free(section))
            &&& none && (linked || includes(text, "scholarship"@) || includes(
                text,
                "bursary"@,
            )) ==> scholarship_value(page) == Some("Scholarships available (see course page)"@)
            &&& none && !linked && !includes(text, "scholarship"@) && !includes(
                text,
                "bursary"@,
            ) ==> scholarship_value(page) is None
        }),
{
    assert(seq![
        ".scholarships"@,
        "#scholarships"@,
        "[data-section='scholarships']"@,
        ".funding-section"@,
        ".c-scholarships"@,
        "#funding"@,
    ] =~= scholarship_selectors());
}

/// A text holds one of five phrases exactly where it holds one of them.
proof fn lemma_five(
    s: Seq<char>,
    a: Seq<char>,
    b: Seq<char>,
    c: Seq<char>,
    d: Seq<char>,
    e: Seq<char>,
)
    ensures
        includes_any(s, seq![a, b, c, d, e]) == (includes(s, a) || includes(s, b) || includes(s, c)
            || includes(s, d) || includes(s, e)),
{
    let list = seq![a, b, c, d, e];
    assert(list[0] == a && list[1] == b && list[2] == c && list[3] == d && list[4] == e);
}

/// The waivers are recorded exactly where the text speaks of study in English, or of a
/// school grade in English.
pub proof fn law_waivers(content: Seq<char>)
    ensures
        ({
            let t = lower(content);
            &&& moi_value(content) == if includes(t, "medium of instruction"@) || includes(
                t,
                "english-taught"@,
            ) || includes(t, "taught in english"@) || includes(t, "english taught"@) || includes(
                t,
                "exempt if"@,
            ) {
                Some(
                    "May be waived if previous study was conducted in English — see course page"@,
                )
            } else {
                None
            }
            &&& gcse_value(content) == if includes(t, "english at gcse"@) || includes(
                t,
                "english language gcse"@,
            ) || includes(t, "grade c in english"@) || includes(t, "grade 4 in english"@)
                || includes(t, "english gcse"@) {
                Some("English at GCSE grade C/4 or equivalent may satisfy the requirement"@)
            } else {
                None
            }
        }),
{
    let t = lower(content);
    lemma_five(
        t,
        "medium of instruction"@,
        "english-taught"@,
        "taught in english"@,
        "english taught"@,
        "exempt if"@,
    );
    lemma_five(
        t,
        "english at gcse"@,
        "english language gcse"@,
        "grade c in english"@,
        "grade 4 in english"@,
        "english gcse"@,
    );
}

/// Gap years are recorded exactly where the text mentions them: the number that follows in
/// the sentence, where there is one and it is no English score, or else that they are
/// permitted.
pub proof fn law_gap_years(content: Seq<char>, years: Seq<char>, before: Seq<char>, rest: Seq<char>)
    ensures
        ({
            let groups = regex_groups(r"(?i)gap year[^.]*?(\d+)((?:\.\d|[^.])*)"@, content);
            let mentioned = includes(lower(content), "gap year"@);
            &&& gap_value(content) is Some <==> mentioned
            &&& mentioned && groups is None ==> gap_value(content) == Some(
                "Permitted — see entry requirements"@,
            )
            &&& mentioned && group_of(groups, 0) == Some(before + years + rest) && group_of(
                groups,
                1,
            ) == Some(years) && group_of(groups, 2) == Some(rest) ==> gap_value(content)
                == Some(
                if crate::english::number_score_at(
                    folded(before + years + rest),
                    before.len() as int,
                ) {
                    "Permitted — see entry requirements"@
                } else {
                    years
                },
            )
        }),
{
}

/// What a text says about institutions in India is the first sentence that names India and
/// then an institution, where it mentions India at all.
pub proof fn law_india(content: Seq<char>)
    ensures
        includes(lower(content), "india"@) ==> india_value(content) == trimmed_match(
            r"(?i)(?:india[^\.\n]*?(?:university|institution|college|board)[^\.\n]*\.)"@,
            content,
        ),
        !includes(lower(content), "india"@) ==> india_value(content) is None,
{
    let l = lower(content);
    if includes(l, "indian"@) {
        let i = choose|i: int| crate::text::occurs_at(l, "indian"@, i);
        reveal_strlit("indian");
        reveal_strlit("india");
        assert(l.subrange(i, i + 5) =~= l.subrange(i, i + 6).subrange(0, 5));
        assert("indian"@.subrange(0, 5) =~= "india"@);
        assert(crate::text::occurs_at(l, "india"@, i));
    }
}

/// Whether a sentence speaks of school qualifications.
pub open spec fn speaks_of_school(sentence: Seq<char>) -> bool {
    let t = lower(sentence);
    includes(t, "a-level"@) || includes(t, "a level"@) || includes(t, "ib diploma"@) || includes(
        t,
        "international baccalaureate"@,
    ) || includes(t, "btec"@) || includes(t, "gcse"@) || includes(t, "12th"@) || includes(
        t,
        "high school"@,
    ) || includes(t, "secondary school"@) || includes(t, "qualification"@) || includes(t, "grade"@)
}

/// A sentence is on school qualifications exactly where it speaks of them and holds no
/// English score.
pub proof fn law_sentences_on_school(sentence: Seq<char>)
    ensures
        is_on(Subject::Qualifications, sentence) == (speaks_of_school(sentence)
            && !holds_english_score(sentence)),
{
    let t = lower(sentence);
    let all = class12_words();
    assert(all[0] == "a-level"@ && all[1] == "a level"@ && all[2] == "ib diploma"@ && all[3]
        == "international baccalaureate"@ && all[4] == "btec"@ && all[5] == "gcse"@ && all[6]
        == "12th"@ && all[7] == "high school"@ && all[8] == "secondary school"@ && all[9]
        == "qualification"@ && all[10] == "grade"@);
    if includes_any(t, all) {
        let k = choose|k: int| 0 <= k < all.len() && includes(t, #[trigger] all[k]);
        assert(k == 0 || k == 1 || k == 2 || k == 3 || k == 4 || k == 5 || k == 6 || k == 7 || k
            == 8 || k == 9 || k == 10);
    }
}

/// The documents are read off the first 500 characters of the entry requirements, the
/// school qualifications off the first 2000.
pub proof fn law_sections_of_requirements(page: PageView)
    ensures
        document_value(page) == match section_from(
            page,
            seq![
                "#entry-requirements"@,
                "[data-tab='entry-requirements']"@,
                "#tab-entry-requirements"@,
                ".entry-requirements__content"@,
                ".entry-requirements"@,
                ".requirements-section"@,
                ".c-entry-requirements"@,
            ],
            500,
            0,
        ) {
            Some(block) => said_on(Subject::Documents, block),
            None => None,
        },
        class12_value(page) == match section_from(
            page,
            seq![
                "#entry-requirements"@,
                ".entry-requirements"@,
                ".entry-requirements__content"@,
                "#tab-entry-requirements"@,
            ],
            2000,
            0,
        ) {
            Some(block) => said_on(Subject::Qualifications, block),
            None => None,
        },
{
    assert(seq![
        "#entry-requirements"@,
        "[data-tab='entry-requirements']"@,
        "#tab-entry-requirements"@,
        ".entry-requirements__content"@,
        ".entry-requirements"@,
        ".requirements-section"@,
        ".c-entry-requirements"@,
    ] =~= document_selectors());
    assert(seq![
        "#entry-requirements"@,
        ".entry-requirements"@,
        ".entry-requirements__content"@,
        "#tab-entry-requirements"@,
    ] =~= class12_selectors());
}

/// Whether a field that was "NA" takes what is offered for it, trimmed, and every other
/// field stays.
pub open spec fn takes(was: Seq<char>, offer: Option<Seq<char>>, is: Seq<char>) -> bool {
    &&& was != "NA"@ ==> is == was
    &&& was == "NA"@ && offer is None ==> is == "NA"@
    &&& was == "NA"@ ==> (offer matches Some(t) ==> is == if trimmed(t).len() > 0 {
        trimmed(t)
    } else {
        "NA"@
    })
}

/// The same of a field of another subject than English: it takes what holds no English
/// score as it is, and anything else without its sentences that hold one.
pub open spec fn takes_other(was: Seq<char>, offer: Option<Seq<char>>, is: Seq<char>) -> bool {
    &&& was != "NA"@ ==> is == was
    &&& was == "NA"@ && offer is None ==> is == "NA"@
    &&& was == "NA"@ ==> (offer matches Some(t) ==> {
        &&& !holds_english_score(t) ==> takes(was, offer, is)
        &&& holds_english_score(t) ==> takes(was, Some(english_free(t)), is)
    })
}

/// Each field of the record that is still "NA" takes what the page says on its subject, the
/// others stay, and the constant ones and the URL do so anyway.
#[verifier::spinoff_prover]
#[verifier::rlimit(60)]
pub proof fn law_each_field_from_its_part(page: PageView, v: CourseView)
    ensures
        ({
            let w = filled_from_page(page, v);
            let text = main_text(page);
            &&& w.university_name == v.university_name
            &&& w.course_website_url == v.course_website_url
            &&& w.country == v.country
            &&& w.address == v.address
            &&& takes(v.program_course_name, name_value(page), w.program_course_name)
            &&& takes_other(v.campus, campus_value(page), w.campus)
            &&& takes_other(v.study_level, level_value(page), w.study_level)
            &&& takes_other(v.course_duration, duration_value(page), w.course_duration)
            &&& takes_other(v.all_intakes_available, intake_value(page), w.all_intakes_available)
            &&& takes(
                v.mandatory_documents_required,
                document_value(page),
                w.mandatory_documents_required,
            )
            &&& takes_other(v.yearly_tuition_fee, fee_value(page), w.yearly_tuition_fee)
            &&& takes_other(
                v.scholarship_availability,
                scholarship_value(page),
                w.scholarship_availability,
            )
            &&& takes_other(
                v.gre_gmat_mandatory_min_score,
                admission_value(text),
                w.gre_gmat_mandatory_min_score,
            )
            &&& takes_other(
                v.indian_regional_institution_restrictions,
                india_value(text),
                w.indian_regional_institution_restrictions,
            )
            &&& takes(
                v.class_12_boards_accepted,
                class12_value(page),
                w.class_12_boards_accepted,
            )
            &&& takes_other(v.gap_year_max_accepted, gap_value(text), w.gap_year_max_accepted)
            &&& takes_other(v.mandatory_work_exp, experience_value(page), w.mandatory_work_exp)
            &&& takes_other(v.max_backlogs, backlog_value(page), w.max_backlogs)
            &&& takes_other(v.ug_academic_min_gpa, degree_value(page), w.ug_academic_min_gpa)
            &&& takes_other(v.twelfth_pass_min_cgpa, twelfth_value(page), w.twelfth_pass_min_cgpa)
            &&& takes(v.min_ielts, ielts_value(text), w.min_ielts)
            &&& takes(v.min_pte, pte_value(text), w.min_pte)
            &&& takes(v.min_toefl, toefl_value(text), w.min_toefl)
            &&& takes(v.min_duolingo, duolingo_value(text), w.min_duolingo)
            &&& takes(v.kaplan_test_of_english, kaplan_value(text), w.kaplan_test_of_english)
            &&& takes(v.english_waiver_class12, gcse_value(text), w.english_waiver_class12)
            &&& takes(v.english_waiver_moi, moi_value(text), w.english_waiver_moi)
        }),
{
}

} // verus!
