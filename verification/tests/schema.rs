use coventry_scraper::fields::{is_na, set_if_na};
use coventry_scraper::schema::{CourseData, NA};

const URL: &str = "https://www.coventry.ac.uk/course-structure/pg/bl/accounting-msc/";

#[test]
fn empty_record_has_four_fields() {
    let data = CourseData::new_empty(URL);
    assert_eq!(data.fill_rate(), 4);
    assert_eq!(data.na_count(), 23);
    assert!(!data.is_valid());
}

#[test]
fn empty_record_is_pre_filled() {
    let data = CourseData::new_empty(URL);
    assert_eq!(data.university_name, "Coventry University");
    assert_eq!(data.country, "United Kingdom");
    assert_eq!(data.address, "Priory Street, Coventry, CV1 5FB, United Kingdom");
    assert_eq!(data.course_website_url, URL);
    assert_eq!(data.program_course_name, NA);
    assert_eq!(data.english_waiver_moi, NA);
}

#[test]
fn empty_record_of_an_na_url_has_three_fields() {
    let data = CourseData::new_empty(NA);
    assert_eq!(data.fill_rate(), 3);
    assert_eq!(data.na_count(), 24);
}

#[test]
fn fields_come_in_the_order_of_the_record() {
    let mut data = CourseData::new_empty(URL);
    data.program_course_name = "Accounting MSc".to_string();
    data.min_ielts = "6.5".to_string();
    data.english_waiver_moi = "last".to_string();
    let fields = data.fields();
    assert_eq!(fields.len(), CourseData::FIELD_COUNT);
    assert_eq!(fields[0], "Accounting MSc");
    assert_eq!(fields[2], URL);
    assert_eq!(fields[20], "6.5");
    assert_eq!(fields[26], "last");
}

#[test]
fn filled_and_missing_fields_add_up() {
    let mut data = CourseData::new_empty(URL);
    data.campus = "Coventry".to_string();
    data.min_pte = "58".to_string();
    assert_eq!(data.fill_rate(), 6);
    assert_eq!(data.fill_rate() + data.na_count(), CourseData::FIELD_COUNT);
}

#[test]
fn record_with_a_name_is_valid() {
    let mut data = CourseData::new_empty(URL);
    data.program_course_name = "Accounting MSc".to_string();
    assert!(data.is_valid());
}

#[test]
fn an_na_field_takes_the_trimmed_value() {
    let mut field = NA.to_string();
    assert!(is_na(&field));
    set_if_na(&mut field, Some("  1 year \n".to_string()));
    assert_eq!(field, "1 year");
}

#[test]
fn a_filled_field_is_kept() {
    let mut field = "1 year".to_string();
    assert!(!is_na(&field));
    set_if_na(&mut field, Some("2 years".to_string()));
    assert_eq!(field, "1 year");
}

#[test]
fn empty_and_missing_values_leave_a_field_na() {
    let mut field = NA.to_string();
    set_if_na(&mut field, None);
    assert_eq!(field, NA);
    set_if_na(&mut field, Some(" \t ".to_string()));
    assert_eq!(field, NA);
    set_if_na(&mut field, Some(" NA ".to_string()));
    assert_eq!(field, NA);
}
