use coventry_scraper::dom::{Document, Dom, Element, SavedPage, Selection};
use coventry_scraper::extractor::{
    apply_rendered_page, chrome_candidates, extract_course, extract_page, find_chrome,
    needs_js_render, start_course,
};
use coventry_scraper::layer2::{
    extract_fee_from_content, layer2_selectors, mentions_document, mentions_qualification, pick_sentences,
    read_gcse, read_india, read_moi, strip_per_year, whole_match, Subject,
};
use coventry_scraper::level::{
    level_of_breadcrumb, level_of_meta, study_level_from_content, study_level_from_url,
};
use coventry_scraper::page::{
    find_labeled_value, first_text, labeled, main_content_text, mentions_label,
    text_from_selectors, value_after_label,
};
use coventry_scraper::english::{has_english_score, keep_free, remove_english_scores};
use coventry_scraper::schema::{CourseData, NA};
use coventry_scraper::text::sentences;
use coventry_scraper::urls::is_course_url;

const URL: &str = "https://www.coventry.ac.uk/course-structure/pg/bl/international-business-management-msc/?term=2025-26";

fn some(t: &str) -> Option<String> {
    Some(t.to_string())
}

fn page(body: &str) -> Document {
    Document::parse(&format!("<html><body>{}</body></html>", body))
}

const FULL_PAGE: &str = "<html><head>\
    <script type='application/ld+json'>{\"@type\": \"Course\", \"name\": \" International  Business Management MSc\", \"timeToComplete\": \"P1Y\"}</script>\
    </head><body><nav>Scholarships bursary</nav><main>\
    <h1>Another title</h1>\
    <dl><dt>Campus</dt><dd> Coventry </dd><dt>Start date</dt><dd>September 2024, September 2025</dd>\
    <dt>International fee</dt><dd>£18,900 per year</dd><dt>Degree classification</dt><dd>2:2 Honours degree</dd></dl>\
    <p>You need IELTS 6.5, PTE Academic 58 and TOEFL iBT 79.</p>\
    <div id='entry-requirements'>A degree in any subject. Two A-level passes. Good references.</div>\
    <p>Courses taught in English may count. Grade C in English is fine.</p>\
    </main></body></html>";

#[test]
fn a_full_page() {
    let data = extract_course(URL, Some(FULL_PAGE));
    assert_eq!(data.program_course_name, "International Business Management MSc");
    assert_eq!(data.university_name, "Coventry University");
    assert_eq!(data.course_website_url, URL);
    assert_eq!(data.campus, "Coventry");
    assert_eq!(data.country, "United Kingdom");
    assert_eq!(data.study_level, "Postgraduate");
    assert_eq!(data.course_duration, "1 year");
    assert_eq!(data.all_intakes_available, "September 2025");
    assert_eq!(data.mandatory_documents_required, "Good references");
    assert_eq!(data.yearly_tuition_fee, "£18,900");
    assert_eq!(data.scholarship_availability, NA);
    assert_eq!(data.gre_gmat_mandatory_min_score, NA);
    assert_eq!(data.class_12_boards_accepted, "Two A-level passes");
    assert_eq!(data.ug_academic_min_gpa, "2:2 Honours degree");
    assert_eq!(data.min_ielts, "6.5");
    assert_eq!(data.min_pte, "58");
    assert_eq!(data.min_toefl, "79");
    assert_eq!(data.min_duolingo, NA);
    assert_eq!(data.english_waiver_class12, "English at GCSE grade C/4 or equivalent may satisfy the requirement");
    assert_eq!(data.english_waiver_moi, "May be waived if previous study was conducted in English — see course page");
    assert!(data.is_valid());
    assert!(!needs_js_render(&data));
}

#[test]
fn a_page_that_was_not_fetched() {
    let data = extract_course(URL, None);
    assert_eq!(data.study_level, "Postgraduate");
    assert_eq!(data.fill_rate(), 5);
    assert!(!data.is_valid());
    assert!(needs_js_render(&data));
}

#[test]
fn every_field_has_a_value() {
    for html in ["", "<h1> </h1>", FULL_PAGE, "not html", "<dl><dt>Campus</dt><dd>  </dd></dl>"] {
        let data = extract_course(URL, Some(html));
        for field in data.fields() {
            assert!(!field.is_empty());
        }
    }
}

#[test]
fn reading_a_page_twice_changes_nothing() {
    let doc = Document::parse(FULL_PAGE);
    let mut data = start_course(URL);
    extract_page(&doc, &mut data);
    let once = data.clone();
    extract_page(&doc, &mut data);
    assert_eq!(data.fields(), once.fields());
}

#[test]
fn filled_fields_are_kept_and_the_fill_rate_grows() {
    let doc = Document::parse(FULL_PAGE);
    let mut data = start_course(URL);
    data.campus = "London".to_string();
    data.min_pte = "100".to_string();
    let before = data.fill_rate();
    extract_page(&doc, &mut data);
    assert_eq!(data.campus, "London");
    assert_eq!(data.min_pte, "100");
    assert!(data.fill_rate() >= before);
}

#[test]
fn the_level_of_the_url_stands() {
    let html = "<ol class='breadcrumb'><li>Home</li><li>Undergraduate</li></ol>";
    assert_eq!(extract_course(URL, Some(html)).study_level, "Postgraduate");
    assert_eq!(extract_course("https://x/", Some(html)).study_level, "Undergraduate");
}

#[test]
fn a_rendered_page_fills_the_gaps() {
    let mut data = extract_course(URL, None);
    data.campus = "London".to_string();
    apply_rendered_page(FULL_PAGE, &mut data);
    assert_eq!(data.program_course_name, "Another title");
    assert_eq!(data.campus, "London");
    assert_eq!(data.yearly_tuition_fee, "£18,900");
}

#[test]
fn three_missing_critical_fields_call_for_rendering() {
    let mut data = CourseData::new_empty(URL);
    assert!(needs_js_render(&data));
    data.program_course_name = "a".to_string();
    data.study_level = "b".to_string();
    data.campus = "c".to_string();
    assert!(needs_js_render(&data));
    data.yearly_tuition_fee = "d".to_string();
    assert!(!needs_js_render(&data));
}

#[test]
fn the_first_chrome_that_exists_is_used() {
    assert_eq!(chrome_candidates()[4], "/usr/bin/chromium");
    assert_eq!(find_chrome(&[false, false, false, true, true, false]), Some("/usr/bin/chromium-browser"));
    assert_eq!(find_chrome(&[true; 6]), Some(r"C:\Program Files\Google\Chrome\Application\chrome.exe"));
    assert_eq!(find_chrome(&[false; 6]), None);
}

#[test]
fn study_levels_of_urls() {
    assert_eq!(study_level_from_url("https://x/Course-Structure/UG/a/"), some("Undergraduate"));
    assert_eq!(study_level_from_url("https://x/courses/postgraduate/a/"), some("Postgraduate"));
    assert_eq!(study_level_from_url("https://x/course-structure/research/a/"), some("Research"));
    assert_eq!(study_level_from_url("https://x/courses/"), None);
}

#[test]
fn study_levels_of_texts() {
    assert_eq!(level_of_breadcrumb("undergraduate study"), some("Undergraduate"));
    assert_eq!(level_of_breadcrumb("postgraduate study"), some("Postgraduate"));
    assert_eq!(level_of_breadcrumb("research"), some("Research"));
    assert_eq!(level_of_breadcrumb("msc"), None);
    assert_eq!(level_of_meta("our mba"), some("Postgraduate"));
    assert_eq!(level_of_meta("a doctorate"), some("Research"));
    assert_eq!(level_of_meta("research"), None);
}

#[test]
fn study_level_of_a_page() {
    let doc = page("<nav aria-label='breadcrumb'><ul><li>Home</li><li>Research degrees</li></ul></nav>");
    assert_eq!(study_level_from_content(&doc), some("Research"));
    let doc = Document::parse("<head><meta name='keywords' content='Law'><meta name='description' content='An MSc'></head>");
    assert_eq!(study_level_from_content(&doc), some("Postgraduate"));
    assert_eq!(study_level_from_content(&page("undergraduate")), None);
}

#[test]
fn texts_by_selector() {
    let doc = page("<h2> </h2><h2>x</h2><h3> a <b>b</b></h3><p>1</p><p>2</p>");
    assert_eq!(first_text(&doc, &["h2", "h3"]), some("a b"));
    assert_eq!(first_text(&doc, &["h4"]), None);
    assert_eq!(first_text(&doc, &["%%", "p"]), some("1"));
    let doc = page("<p>ten letters</p><p>and ten more letters</p><i>short</i>");
    assert_eq!(text_from_selectors(&doc, &["i", "p"], 13), some("ten letters a"));
    assert_eq!(text_from_selectors(&doc, &["i"], 13), None);
}

#[test]
fn main_content_is_preferred() {
    let doc = page("<nav>n</nav><main>a<b>c</b></main><article>z</article>");
    assert_eq!(main_content_text(&doc), "a c");
    let doc = page("<p>a</p><p>b</p>");
    assert_eq!(main_content_text(&doc), "a b");
}

#[test]
fn labels_followed_by_their_value() {
    let doc = page("<dl><dt>Other</dt><dd>x</dd><dt>Course DURATION</dt><dd> 1 year </dd></dl>");
    assert_eq!(find_labeled_value(&doc, &["Duration"]), "1 year");
    let doc = page("<table><tr><th>Location</th><td>Coventry</td></tr></table>");
    assert_eq!(find_labeled_value(&doc, &["Campus", "Location"]), "Coventry");
    let doc = page("<span class='c-key-info__label'>Campus</span><span>London</span>");
    assert_eq!(labeled(&doc, &["Campus"]), some("London"));
}

#[test]
fn labels_in_front_of_their_value() {
    let doc = page("<ul><li>nothing</li><li>\n  Duration:  2 years</li></ul>");
    assert_eq!(find_labeled_value(&doc, &["Campus", "duration"]), "2 years");
    assert_eq!(find_labeled_value(&doc, &["Campus"]), NA);
    assert_eq!(labeled(&doc, &["Campus"]), None);
    assert_eq!(value_after_label(" Fee: £1 ", "fee"), some("£1"));
    assert_eq!(value_after_label("Fee:", "Fee"), None);
    assert_eq!(value_after_label("The Fee: 1", "Fee"), None);
    assert!(mentions_label(" START DATES ", &["Start date"]));
    assert!(!mentions_label("Start", &["Start date"]));
}

#[test]
fn fees_are_found_in_the_strip_or_anywhere() {
    let doc = page("<b class='key-info__value'>3 years</b><b class='key-info__value'> 9,250 gbp </b>");
    assert_eq!(extract_fee_from_content(&doc), some("9,250 gbp"));
    let doc = page("<p>The fee is £ 18,900 per year.</p>");
    assert_eq!(extract_fee_from_content(&doc), some("£ 18,900 per year"));
    assert_eq!(extract_fee_from_content(&page("free")), None);
    assert_eq!(strip_per_year(" £9 per year, Per year "), "£9 ,");
}

#[test]
fn the_international_fee_comes_first() {
    let html = "<dl><dt>Fees</dt><dd>£1</dd><dt>International fee</dt><dd>£2 Per year</dd></dl>";
    assert_eq!(extract_course(URL, Some(html)).yearly_tuition_fee, "£2");
}

#[test]
fn qualifications_are_picked_by_sentence() {
    let pick = |t: &str| pick_sentences(Subject::Qualifications, t);
    assert_eq!(pick("No. BTEC accepted. IB Diploma too. Bye"), some("BTEC accepted.  IB Diploma too"));
    assert_eq!(pick("Nothing here"), None);
    assert_eq!(pick("GCSE grade and IELTS 6.5. BTEC"), some("BTEC"));
    assert!(mentions_qualification("High School diploma"));
    assert!(!mentions_qualification("school"));
}

#[test]
fn documents_are_told_apart_from_requirements() {
    let read = |t: &str| {
        let mut data = CourseData::new_empty("u");
        layer2_selectors(
            &page(&format!("<main><div id='entry-requirements'>{}</div></main>", t)),
            &mut data,
        );
        data
    };
    let data = read("Applicants need IELTS 6.5 overall for entry.");
    assert_eq!(data.min_ielts, "6.5");
    assert_eq!(data.mandatory_documents_required, NA);
    let data = read("A 2:2 honours degree in any subject.");
    assert_eq!(data.mandatory_documents_required, NA);
    let data = read("Transcripts, personal statement and passport. A 2:2 degree. IELTS 6.5 certificate.");
    assert_eq!(data.mandatory_documents_required, "Transcripts, personal statement and passport");
    assert_eq!(data.min_ielts, "6.5");
    assert!(mentions_document("A research proposal"));
    assert!(!mentions_document("A degree"));
}

#[test]
fn english_scores_stay_in_english_fields() {
    let html = "<main><dl><dt>Entry requirements</dt><dd>IELTS 6.5</dd>\
        <dt>GPA</dt><dd>A 2:2 degree. IELTS 6.5 overall. Good standing</dd>\
        <dt>Study location</dt><dd>PTE 58</dd></dl>\
        <div class='scholarships'>Award of £2,000. TOEFL 90 needed. Apply now</div></main>";
    let data = extract_course(URL, Some(html));
    assert_eq!(data.min_ielts, "6.5");
    assert_eq!(data.min_pte, "58");
    assert_eq!(data.min_toefl, "90");
    assert_eq!(data.all_intakes_available, NA);
    assert_eq!(data.campus, NA);
    assert_eq!(data.ug_academic_min_gpa, "A 2:2 degree. Good standing");
    assert_eq!(data.scholarship_availability, "Award of £2,000. Apply now");
    for i in [3, 6, 7, 8, 9, 10, 11, 12, 13, 14, 15, 16, 17, 18, 19] {
        assert!(!has_english_score(data.fields()[i]));
    }
}

#[test]
fn sentences_with_english_scores_are_removed() {
    assert_eq!(remove_english_scores("No test here."), "No test here.");
    assert_eq!(remove_english_scores("A degree. IELTS 6.5 overall. A fee of 9.50."), "A degree. A fee of 9.50.");
    assert_eq!(remove_english_scores("A degree. See IELTS. IELTS 6.5. "), "A degree. See IELTS.");
    assert_eq!(remove_english_scores("ielts"), "ielts");
    assert_eq!(remove_english_scores("ielts 6"), "");
    assert_eq!(keep_free(some("ielts 6. ")), None);
    assert_eq!(keep_free(some("ielts")), some("ielts"));
    assert_eq!(keep_free(None), None);
    assert_eq!(sentences("A 6.5 b. C.d."), vec!["A 6.5 b", " C", "d", ""]);
}

#[test]
fn sentences_that_only_name_a_test_are_kept() {
    let html = "<main><dl><dt>Study location</dt><dd>Kaplan College London</dd></dl>\
        <div class='scholarships'>Awards for students who took TOEFL abroad</div></main>";
    let data = extract_course(URL, Some(html));
    assert_eq!(data.campus, "Kaplan College London");
    assert_eq!(data.scholarship_availability, "Awards for students who took TOEFL abroad");
}

#[test]
fn a_value_that_is_an_english_score_gives_way() {
    let html = "<main><dl><dt>Fees</dt><dd>IELTS 6.5</dd><dt>Work experience</dt><dd>PTE 58</dd></dl>\
        <div class='scholarships'>TOEFL 90</div>\
        Pay £9,000. We ask for 2 years of experience. A scholarship may be paid</main>";
    let data = extract_course(URL, Some(html));
    assert_eq!(data.yearly_tuition_fee, "£9,000");
    assert_eq!(data.mandatory_work_exp, "2 years of experience");
    assert_eq!(data.scholarship_availability, "Scholarships available (see course page)");
}

#[test]
fn names_of_documents() {
    for t in [
        "Please submit your CV and a motivation letter",
        "two CVs",
        "A supporting Statement",
        "your RÉSUMÉ",
        "References are needed",
        "Proof of funds",
        "Upload a research plan",
        "Two copies are needed",
    ] {
        assert!(mentions_document(t), "{}", t);
    }
    for t in ["Priory Street, CV1 5FB", "Preference is given", "our newsletter", "civil", ""] {
        assert!(!mentions_document(t), "{}", t);
    }
}

#[test]
fn every_course_url_names_a_level() {
    for url in [
        URL,
        "https://www.coventry.ac.uk/course-structure/ug/bl/x/",
        "https://www.coventry.ac.uk/course-structure/research/bl/x/",
        "https://www.coventry.ac.uk/courses/research/chemistry/",
    ] {
        assert!(is_course_url(url));
        let level = study_level_from_url(url);
        assert!(level.is_some());
        assert_eq!(study_level_from_url(&url.to_ascii_uppercase()), level);
    }
}

#[test]
fn experience_and_scholarships() {
    let html = "<main>At least 2 years of relevant experience. See our <a href='/funding/x'>page</a></main>";
    let data = extract_course(URL, Some(html));
    assert_eq!(data.mandatory_work_exp, "2 years of relevant experience");
    assert_eq!(data.scholarship_availability, "Scholarships available (see course page)");
    let html = "<main>A Bursary may be paid</main>";
    assert_eq!(extract_course(URL, Some(html)).scholarship_availability, "Scholarships available (see course page)");
    let html = "<div class='scholarships'>Vice-Chancellor award of £2,000</div>";
    assert_eq!(extract_course(URL, Some(html)).scholarship_availability, "Vice-Chancellor award of £2,000");
}

#[test]
fn notes_on_waivers_and_india() {
    assert_eq!(read_moi("Medium of Instruction letters"), some("May be waived if previous study was conducted in English — see course page"));
    assert_eq!(read_moi("English"), None);
    assert_eq!(read_gcse("English at GCSE"), some("English at GCSE grade C/4 or equivalent may satisfy the requirement"));
    assert_eq!(read_gcse("GCSE"), None);
    assert_eq!(read_india("From India: any recognised university degree. Other"), some("India: any recognised university degree."));
    assert_eq!(read_india("Indian food"), None);
    assert_eq!(read_india("any university."), None);
}

#[test]
fn the_whole_of_a_match_is_trimmed() {
    assert_eq!(whole_match(&Some(vec![some(" £9 "), None])), some("£9"));
    assert_eq!(whole_match(&None), None);
}

#[test]
fn intakes_of_past_years_do_not_reach_the_record() {
    let html = "<dl><dt>Start date</dt><dd>September 2024</dd></dl>";
    assert_eq!(extract_course(URL, Some(html)).all_intakes_available, NA);
}

#[test]
fn pte_scores_outside_the_range_do_not_reach_the_record() {
    assert_eq!(extract_course(URL, Some("<main>PTE 20</main>")).min_pte, NA);
    assert_eq!(extract_course(URL, Some("<main>PTE 64</main>")).min_pte, "64");
}

#[test]
fn a_saved_page_is_read_like_a_document() {
    let element = |t: &str, next: Option<&str>| Element {
        text: vec![t.to_string()],
        href: None,
        content: None,
        next_text: next.map(|t| vec![t.to_string()]),
    };
    let saved = SavedPage {
        selections: vec![
            Selection { selector: "h1".to_string(), elements: vec![element(" Law LLB ", None)] },
            Selection { selector: "dt".to_string(), elements: vec![element("Campus", Some("London"))] },
        ],
        root: vec!["IELTS 7".to_string()],
    };
    let mut data = start_course(URL);
    layer2_selectors(&saved, &mut data);
    assert_eq!(data.program_course_name, "Law LLB");
    assert_eq!(data.campus, "London");
    assert_eq!(data.min_ielts, "7");
    assert_eq!(data.min_toefl, NA);
    assert_eq!(saved.select("h1").len(), 1);
    assert_eq!(saved.select("h2").len(), 0);
    assert_eq!(saved.root_text(), vec!["IELTS 7".to_string()]);
}

#[test]
fn elements_of_a_document() {
    let doc = Document::parse("<p><a href='/x'>a<b>b</b></a></p> text <i>i</i><meta content='c'>");
    let links = doc.select("a");
    assert_eq!(links.len(), 1);
    assert_eq!(links[0].text, vec!["a".to_string(), "b".to_string()]);
    assert_eq!(links[0].href, some("/x"));
    assert!(links[0].next_text.is_none());
    assert_eq!(doc.select("p")[0].next_text, Some(vec!["i".to_string()]));
    assert_eq!(doc.select("meta")[0].content, some("c"));
    assert_eq!(doc.select("%%").len(), 0);
    assert_eq!(doc.root_text().concat(), "ab text i");
}

#[test]
fn a_level_is_the_same_in_uppercase() {
    for url in ["/course-structure/PG/x", "/courses/research/", "/news/", ""] {
        assert_eq!(study_level_from_url(&url.to_ascii_uppercase()), study_level_from_url(url));
    }
}

#[test]
fn a_rendered_page_keeps_what_holds_of_a_record() {
    let mut data = start_course(URL);
    let html = "<main><h1> Law </h1><dl><dt>Start date</dt><dd>May 2024, May 2026 </dd>\
        <dt>Campus</dt><dd>TOEFL 80</dd></dl>PTE 20. PTE 60.5</main>";
    apply_rendered_page(html, &mut data);
    assert_eq!(data.program_course_name, "Law");
    assert_eq!(data.all_intakes_available, "May 2026");
    assert_eq!(data.min_pte, NA);
    assert_eq!(data.campus, NA);
    for field in data.fields() {
        assert!(!field.is_empty());
        assert_eq!(field.trim(), field);
    }
    apply_rendered_page("<main>PTE 60.5</main>", &mut data);
    assert_eq!(data.min_pte, "60.5");
}
