use coventry_scraper::urls::{
    course_slug, is_course_url, is_lower_course_url, names_term, normalise_url,
};

#[test]
fn course_detail_pages_are_course_urls() {
    assert!(is_course_url(
        "https://www.coventry.ac.uk/course-structure/pg/bl/international-business-management-msc/?term=2025-26"
    ));
    assert!(is_course_url(
        "https://www.coventry.ac.uk/course-structure/ug/eec/computer-science-mscibsc-hons/"
    ));
    assert!(is_course_url("https://www.coventry.ac.uk/course-structure/research/x/y"));
    assert!(is_course_url("https://www.coventry.ac.uk/courses/undergraduate/nursing"));
    assert!(is_course_url("https://www.coventry.ac.uk/courses/postgraduate/law/"));
    assert!(is_course_url("https://www.coventry.ac.uk/courses/research/physics/"));
}

#[test]
fn case_of_a_url_does_not_matter() {
    assert!(is_course_url("HTTPS://WWW.COVENTRY.AC.UK/Course-Structure/PG/bl/Accounting-MSc/"));
    assert!(!is_lower_course_url("HTTPS://WWW.COVENTRY.AC.UK/Course-Structure/PG/bl/Accounting-MSc/"));
    assert!(is_lower_course_url("https://www.coventry.ac.uk/course-structure/pg/bl/accounting-msc/"));
}

#[test]
fn category_index_pages_are_not_course_urls() {
    for url in [
        "https://www.coventry.ac.uk/course-structure/ug/",
        "https://www.coventry.ac.uk/course-structure/pg/",
        "https://www.coventry.ac.uk/course-structure/",
        "https://www.coventry.ac.uk/courses/undergraduate/",
        "https://www.coventry.ac.uk/courses/postgraduate/",
        "https://www.coventry.ac.uk/courses/",
        "https://www.coventry.ac.uk/course-structure/pg/bl/courses/",
    ] {
        assert!(!is_course_url(url), "{}", url);
    }
}

#[test]
fn other_pages_are_not_course_urls() {
    assert!(!is_course_url("https://example.com/course-structure/pg/bl/accounting-msc/"));
    assert!(!is_course_url("https://www.coventry.ac.uk/life-on-campus/a/b/c/"));
    assert!(!is_course_url("https://www.coventry.ac.uk/course-structure/xx/bl/accounting-msc/"));
    assert!(!is_course_url("https://www.coventry.ac.uk/course-structure/pg/?term=2025-26"));
    assert!(!is_course_url(""));
}

#[test]
fn listing_pages_are_not_course_urls() {
    for url in [
        "https://www.coventry.ac.uk/course-structure/pg/bl/",
        "https://www.coventry.ac.uk/course-structure/pg/bl",
        "https://www.coventry.ac.uk/course-structure/research/x/?term=2025-26",
        "https://www.coventry.ac.uk/courses/research/",
        "www.coventry.ac.uk/course-structure/pg/bl/",
        "www.coventry.ac.uk/courses/research/x",
        "www.coventry.ac.uk/courses/undergraduate/x",
    ] {
        assert!(!is_course_url(url), "{}", url);
    }
    assert!(is_course_url("www.coventry.ac.uk/course-structure/pg/bl/x/"));
    assert!(is_course_url("https://www.coventry.ac.uk/courses/research/x"));
}

#[test]
fn a_query_and_uppercase_keep_a_course_url() {
    for url in [
        "https://www.coventry.ac.uk/course-structure/pg/bl/accounting-msc/",
        "https://www.coventry.ac.uk/courses/undergraduate/nursing",
    ] {
        assert!(is_course_url(url));
        assert!(is_course_url(&format!("{}?term=2025-26", url)));
        assert!(is_course_url(&url.to_ascii_uppercase()));
    }
    assert!(!is_course_url("https://www.coventry.ac.uk/courses/undergraduate/nursing?x=/courses/"));
}

#[test]
fn slug_of_a_course() {
    assert_eq!(course_slug("/course-structure/pg/bl/accounting-msc/?term=2025-26"), "accounting-msc");
    assert_eq!(course_slug("https://www.coventry.ac.uk/course-structure/pg/bl/accounting-msc"), "accounting-msc");
    assert_eq!(course_slug("///"), "///");
    assert_eq!(course_slug(""), "");
    assert_eq!(course_slug("?term=1"), "");
}

#[test]
fn slug_does_not_depend_on_the_intake_year() {
    let path = "https://www.coventry.ac.uk/course-structure/ug/bl/business-management-bsc-hons/";
    let slug = course_slug(path);
    assert_eq!(course_slug(&format!("{}?term=2025-26", path)), slug);
    assert_eq!(course_slug(&format!("{}?term=2026-27&a=b?c", path)), slug);
}

#[test]
fn links_become_full_urls() {
    assert_eq!(normalise_url(" /courses/undergraduate/law \n"), "https://www.coventry.ac.uk/courses/undergraduate/law");
    assert_eq!(normalise_url("https://x.org/a"), "https://x.org/a");
    assert_eq!(normalise_url("courses/law"), "courses/law");
    assert_eq!(normalise_url(""), "");
}

#[test]
fn full_urls_stay_as_they_are() {
    for href in [" /a ", "http://b", "mailto:c", "", "/"] {
        let url = normalise_url(href);
        assert_eq!(normalise_url(&url), url);
    }
}

#[test]
fn intake_years_are_named_by_the_term() {
    assert!(names_term("https://x/?term=2025-26"));
    assert!(!names_term("https://x/?year=2025-26&term=1"));
}
