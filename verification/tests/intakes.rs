use coventry_scraper::intakes::{keep_current_intakes, names_past_year, strip_link};

#[test]
fn past_years_are_recognised() {
    assert!(names_past_year("September 2024"));
    assert!(names_past_year("1900"));
    assert!(names_past_year("2024-25"));
    assert!(!names_past_year("September 2025"));
    assert!(!names_past_year("January 2026"));
    assert!(!names_past_year("1899"));
    assert!(!names_past_year("code 12024"));
    assert!(!names_past_year("20245"));
    assert!(!names_past_year("September"));
    assert!(!names_past_year(""));
}

#[test]
fn intakes_of_past_years_are_left_out() {
    assert_eq!(keep_current_intakes("September 2024, January 2025, May 2026"), " January 2025, May 2026");
    assert_eq!(keep_current_intakes("September 2023"), "");
    assert_eq!(keep_current_intakes("January 2025,September 2024"), "January 2025");
}

#[test]
fn an_entry_with_several_intakes_is_divided() {
    assert_eq!(keep_current_intakes("September 2024 and January 2026"), " January 2026");
    assert_eq!(keep_current_intakes("September 2024 / January 2026 (part time)"), " January 2026 (part time)");
    assert_eq!(keep_current_intakes("Sept 2024 & Jan 2025 or May 2026, June 2026"), " Jan 2025, May 2026, June 2026");
    assert_eq!(keep_current_intakes("January 2026 or September 2024"), " January 2026");
    assert_eq!(keep_current_intakes("September 2024-25 and September 2025-26"), " September 2025-26");
    assert_eq!(keep_current_intakes("2023 and 2024"), "");
    assert_eq!(strip_link(" and May 2026"), "May 2026");
    assert_eq!(strip_link("; OR (May"), "May");
    assert_eq!(strip_link("Android"), "Android");
}

#[test]
fn current_intakes_are_kept_as_they_are() {
    for t in ["September 2025", "September, January", "January 2025, May 2026", "", ","] {
        assert_eq!(keep_current_intakes(t), t);
    }
}

#[test]
fn what_is_left_names_no_past_year() {
    for t in ["2024,2025", "a 1999, b 2030, c 2001", "20,24", "2024"] {
        assert!(!names_past_year(&keep_current_intakes(t)));
        assert!(!names_past_year(keep_current_intakes(t).trim()));
    }
}
