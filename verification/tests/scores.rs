use coventry_scraper::layer2::{
    gap_years_of_match, read_admission, read_duolingo, read_gap, read_ielts, read_kaplan, read_pte,
    read_toefl,
};
use coventry_scraper::english::{english_matches_at, has_english_score, number_is_score};
use coventry_scraper::scores::{
    extract_test_score, is_in_pte_range, is_plausible, mentions_test, score_of_match, window_after,
    Groups, ScoreKind,
};
use coventry_scraper::text::chars_of;

fn some(t: &str) -> Option<String> {
    Some(t.to_string())
}

fn groups(list: &[Option<&str>]) -> Groups {
    Some(list.iter().map(|t| t.map(|t| t.to_string())).collect())
}

#[test]
fn documented_score_patterns() {
    assert_eq!(read_ielts("IELTS overall score of 6.5"), some("6.5"));
    assert_eq!(read_ielts("minimum IELTS 6.0"), some("6.0"));
    assert_eq!(read_pte("PTE Academic: 54"), some("54"));
    assert_eq!(read_pte("PTE Academic 54"), some("54"));
    assert_eq!(read_toefl("TOEFL iBT score: 79"), some("79"));
    assert_eq!(read_toefl("TOEFL iBT 79"), some("79"));
}

#[test]
fn other_english_tests() {
    assert_eq!(read_duolingo("a Duolingo English Test score of 110 or more"), some("110"));
    assert_eq!(read_duolingo("DET 95"), some("95"));
    assert_eq!(read_kaplan("Kaplan Test of English: 430"), some("430"));
}

#[test]
fn case_of_a_test_name_does_not_matter() {
    assert_eq!(read_ielts("ielts of 7"), some("7"));
    assert_eq!(read_toefl("Toefl: score 90"), some("90"));
}

#[test]
fn text_without_a_score() {
    assert_eq!(read_ielts(""), None);
    assert_eq!(read_ielts("IELTS is accepted"), None);
    assert_eq!(read_ielts("overall 6.5"), None);
}

#[test]
fn years_are_not_scores() {
    assert_eq!(read_pte("PTE 2025"), None);
    assert_eq!(read_ielts("IELTS 2025 entry: 6.5 overall"), some("6.5"));
}

#[test]
fn scores_have_one_to_three_digits_and_one_decimal_place() {
    assert_eq!(read_kaplan("Kaplan 72.5"), some("72.5"));
    assert_eq!(extract_test_score("Kaplan 72.5", &["Kaplan"], ScoreKind::General), some("72.5"));
    assert_eq!(read_kaplan("Kaplan 430.5"), some("430.5"));
    assert_eq!(read_kaplan("Kaplan overall 72.5"), some("72.5"));
    assert_eq!(read_ielts("IELTS 6.55"), some("6.5"));
    assert_eq!(read_toefl("TOEFL 1000"), None);
}

#[test]
fn pte_scores_lie_between_36_and_90() {
    assert_eq!(read_pte("PTE 36"), some("36"));
    assert_eq!(read_pte("PTE 90"), some("90"));
    assert_eq!(read_pte("PTE 35"), None);
    assert_eq!(read_pte("PTE 91"), None);
    assert_eq!(read_pte("PTE 6.5"), None);
    assert_eq!(read_pte("PTE 58.5"), some("58.5"));
    assert_eq!(read_pte("PTE 90.5"), None);
    assert_eq!(read_pte("PTE 35.9"), None);
    assert_eq!(read_ielts("IELTS 35"), some("35"));
}

#[test]
fn a_name_inside_a_word_is_no_test() {
    assert_eq!(read_pte("Starts in September 54"), None);
    assert_eq!(read_duolingo("determined by 95"), None);
    assert_eq!(read_pte("From September: PTE 54"), some("54"));
}

#[test]
fn a_name_run_together_with_a_score_word_is_a_test() {
    assert_eq!(read_ielts("IELTSAcademic 6.5"), some("6.5"));
    assert_eq!(read_toefl("TOEFLiBT 79"), some("79"));
    assert_eq!(read_pte("PTEs 58"), some("58"));
    assert_eq!(read_pte("PTEx 58"), None);
}

#[test]
fn a_plural_name_is_a_test() {
    assert_eq!(read_admission("GREs are required: 310"), some("310"));
    assert_eq!(read_admission("A great degree is required: 310"), None);
    assert!(mentions_test("the gres", "gre"));
}

#[test]
fn scores_are_searched_in_a_window() {
    let near = format!("IELTS {} 6.5", "x".repeat(50));
    assert_eq!(read_ielts(&near), some("6.5"));
    let far = format!("IELTS {} 6.5", "x".repeat(60));
    assert_eq!(read_ielts(&far), None);
    let long = format!("IELTS {} 6.5", "İ".repeat(50));
    assert_eq!(read_ielts(&long), some("6.5"));
}

#[test]
fn names_are_tried_in_order() {
    let text = "PTE 50, PTE Academic 60";
    assert_eq!(extract_test_score(text, &["PTE Academic", "PTE"], ScoreKind::General), some("60"));
    assert_eq!(extract_test_score(text, &["PTE", "PTE Academic"], ScoreKind::General), some("50"));
    assert_eq!(extract_test_score(text, &[], ScoreKind::General), None);
}

#[test]
fn names_are_matched_literally() {
    assert_eq!(extract_test_score("C+ 7", &["C+"], ScoreKind::General), some("7"));
    assert_eq!(extract_test_score("CCC 7", &["C+"], ScoreKind::General), None);
}

#[test]
fn admission_tests_count_where_they_are_required() {
    assert_eq!(read_admission("A GRE score of 310 is required"), some("310"));
    assert_eq!(read_admission("GMAT 600 is required"), some("600"));
    assert_eq!(read_admission("GRE 310 is welcome"), None);
    assert_eq!(read_admission("A degree is required, 2 years"), None);
}

#[test]
fn english_scores_do_not_leak_into_admission_tests() {
    assert_eq!(read_admission("No GRE required. IELTS 6.5"), None);
    assert_eq!(read_admission("GRE (or IELTS 6.5) is required"), None);
    assert_eq!(read_admission("GRE min 310, IELTS 6.5 required"), some("310"));
    assert_eq!(read_admission("GRE is not required. Applicants need 6.5 in IELTS."), None);
    assert_eq!(read_admission("GRE is not required but 6.5 in IELTS is"), None);
    assert_eq!(read_admission("GRE required with at least 310 and 6.5 in IELTS"), some("310"));
}

#[test]
fn window_of_an_admission_test_holds_no_english_score() {
    assert_eq!(window_after("gre or ielts 6.5", "gre", ScoreKind::Admission), some(" or "));
    assert_eq!(window_after("gre or ielts 6.5", "gre", ScoreKind::General), some(" or ielts 6.5"));
    assert_eq!(window_after("degree", "gre", ScoreKind::General), None);
    let cut = window_after("gre ptex det 5", "gre", ScoreKind::Admission).unwrap();
    assert_eq!(cut, " ptex ");
    assert_eq!(window_after("GRE no. Or 7", "gre", ScoreKind::Admission), some(" no"));
    assert_eq!(window_after("GRE or 6.5 in IELTS", "GRE", ScoreKind::Admission), some(" or "));
    assert_eq!(window_after("GRE 6.5 in", "GRE", ScoreKind::Admission), some(" 6.5 in"));
}

#[test]
fn names_of_english_tests() {
    assert!(english_matches_at(&chars_of("xx toefl"), 3));
    assert!(english_matches_at(&chars_of("xx toeflibt"), 3));
    assert!(!english_matches_at(&chars_of("xx toefl"), 2));
    assert!(!english_matches_at(&chars_of("september"), 4));
    assert!(mentions_test("a gre b", "gre"));
    assert!(!mentions_test("degree", "gre"));
    assert!(!mentions_test("greater", "gre"));
}

#[test]
fn plausible_scores() {
    assert!(is_plausible("6.5", ScoreKind::General));
    assert!(!is_plausible("2025", ScoreKind::General));
    assert!(is_plausible("58", ScoreKind::Pte));
    assert!(!is_plausible("2", ScoreKind::Pte));
    assert!(!is_plausible("££", ScoreKind::General));
    assert!(is_plausible("72.5", ScoreKind::General));
    assert!(is_plausible("120.5", ScoreKind::General));
    assert!(!is_plausible("1200.5", ScoreKind::General));
    assert!(!is_plausible("72.", ScoreKind::General));
    assert!(!is_plausible(".5", ScoreKind::General));
    assert!(!is_plausible("72.55", ScoreKind::General));
    assert!(!is_plausible("", ScoreKind::General));
    assert!(is_plausible("58.5", ScoreKind::Pte));
    assert!(is_in_pte_range("36"));
    assert!(is_in_pte_range("36.0"));
    assert!(is_in_pte_range("90.0"));
    assert!(!is_in_pte_range("90.1"));
    assert!(!is_in_pte_range("35.9"));
    assert!(!is_in_pte_range("580"));
    assert!(!is_in_pte_range("x"));
    assert!(!is_in_pte_range("٥٨"));
}

#[test]
fn scores_of_matches() {
    assert_eq!(score_of_match(&groups(&[some_ref("PTE 58"), some_ref("58"), some_ref("")]), ScoreKind::Pte), some("58"));
    assert_eq!(score_of_match(&groups(&[some_ref("PTE 2025"), some_ref("202"), some_ref("5")]), ScoreKind::General), None);
    assert_eq!(score_of_match(&groups(&[some_ref("6.55"), some_ref("6.5"), some_ref("5")]), ScoreKind::General), some("6.5"));
    assert_eq!(score_of_match(&groups(&[some_ref("x"), None]), ScoreKind::General), None);
    assert_eq!(score_of_match(&None, ScoreKind::General), None);
}

fn some_ref(t: &str) -> Option<&str> {
    Some(t)
}

#[test]
fn gap_years() {
    assert_eq!(read_gap("A gap year of up to 2 years is fine"), some("2"));
    assert_eq!(read_gap("Gap years are welcome"), some("Permitted — see entry requirements"));
    assert_eq!(read_gap("Gap year welcome. 3 modules"), some("Permitted — see entry requirements"));
    assert_eq!(read_gap("No gaps"), None);
}

#[test]
fn english_scores_do_not_leak_into_gap_years() {
    assert_eq!(read_gap("Gap year welcome, IELTS 6"), some("Permitted — see entry requirements"));
    assert_eq!(gap_years_of_match(&groups(&[some_ref("gap year, PTE 5"), some_ref("5"), some_ref("")])), "Permitted — see entry requirements");
    assert_eq!(gap_years_of_match(&groups(&[some_ref("gap year 5 x"), some_ref("5"), some_ref(" x")])), "5");
    assert_eq!(gap_years_of_match(&groups(&[some_ref("gap year"), None, None])), "Permitted — see entry requirements");
    assert_eq!(read_gap("A gap year is fine with 6.5 in IELTS"), some("Permitted — see entry requirements"));
    assert_eq!(read_gap("Gap year 2 IELTS 6.5"), some("2"));
    assert_eq!(read_gap("A gap year of 1 year. We ask for 6.5 in IELTS"), some("1"));
    assert_eq!(gap_years_of_match(&None), "Permitted — see entry requirements");
    assert_eq!(read_gap("gap year, IELTS overall score of 6 needed"), some("Permitted — see entry requirements"));
    assert_eq!(read_gap("gap year: TOEFL iBT score: 79"), some("Permitted — see entry requirements"));
}

#[test]
fn a_gap_year_number_behind_other_words_is_kept() {
    assert_eq!(read_gap("A gap year with IELTS is limited to 2"), some("2"));
    assert!(!number_is_score(&chars_of("ielts is limited to 2"), 20));
    assert!(number_is_score(&chars_of("ielts at least 6"), 15));
    assert!(number_is_score(&chars_of("6.5 in ielts"), 0));
    assert!(!number_is_score(&chars_of("7, 6.5 in ielts"), 0));
    assert!(!number_is_score(&chars_of("310 ielts 6.5"), 0));
    assert!(number_is_score(&chars_of("310 ielts 6.5"), 10));
    assert!(number_is_score(&chars_of("6 ielts, 58 pte"), 0));
}

#[test]
fn scores_next_to_the_name_of_their_test() {
    for t in [
        "IELTS 6.5",
        "an overall score of 6.5 in IELTS",
        "6.5 or above in the IELTS",
        "IELTS (or equivalent): 6.5",
        "IELTS with no component lower than 5.5",
        "TOEFL iBT score: 79",
        "Kaplan Test of English: 430",
        "PTEAcademic 58",
        "x det 95 y",
    ] {
        assert!(has_english_score(t), "{}", t);
    }
    for t in [
        "",
        "6.5",
        "IELTS",
        "Kaplan College London",
        "IELTS in 2025",
        "a fee of £15,000 in Kaplan College",
        "£500 for the TOEFL",
        "IELTS. 6.5",
        "IELTS or 5 GCSEs",
        "September 25",
        "determined by 95",
    ] {
        assert!(!has_english_score(t), "{}", t);
    }
}
