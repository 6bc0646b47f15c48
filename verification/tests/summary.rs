use coventry_scraper::schema::CourseData;
use coventry_scraper::summary::{keep_valid, per_course, totals};

fn named(name: &str) -> CourseData {
    let mut data = CourseData::new_empty("https://www.coventry.ac.uk/x");
    data.program_course_name = name.to_string();
    data
}

#[test]
fn only_valid_records_are_kept() {
    let mut courses: Vec<CourseData> = Vec::new();
    assert!(keep_valid(&mut courses, named("Law LLB")));
    assert!(!keep_valid(&mut courses, named("NA")));
    assert!(keep_valid(&mut courses, named("Nursing BSc")));
    assert_eq!(courses.len(), 2);
    assert_eq!(courses[1].program_course_name, "Nursing BSc");
}

#[test]
fn totals_add_up() {
    let mut second = named("Nursing BSc");
    second.campus = "Coventry".to_string();
    let sums = totals(&vec![named("Law LLB"), second]);
    assert_eq!(sums.fields, 54);
    assert_eq!(sums.filled, 11);
    assert_eq!(sums.na, 43);
    let none = totals(&vec![]);
    assert_eq!((none.fields, none.filled, none.na), (0, 0, 0));
}

#[test]
fn each_course_is_reported() {
    assert_eq!(per_course(&vec![named("Law LLB"), named("Nursing BSc")]), "Law LLB (5/27), Nursing BSc (5/27)");
    assert_eq!(per_course(&vec![]), "");
}
