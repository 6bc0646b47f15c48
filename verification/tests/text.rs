use coventry_scraper::number::{digit, parse_digits, to_decimal};
use coventry_scraper::order::{not_after, sort};
use coventry_scraper::text::{
    chars_of, clean, contains, contains_any, ends_with, is_white_space, join, remove_all,
    same_text, split, starts_with, take_chars, text_after, text_before, trim, trim_end_matches,
    Separator,
};
use coventry_scraper::unicode::{numeric, to_lower, to_upper};

fn owned(list: &[&str]) -> Vec<String> {
    list.iter().map(|t| t.to_string()).collect()
}

#[test]
fn white_space_is_what_the_standard_library_counts() {
    for c in '\0'..=char::MAX {
        assert_eq!(is_white_space(c), c.is_whitespace(), "{:?}", c);
    }
}

#[test]
fn trimming_removes_white_space_at_both_ends() {
    assert_eq!(trim("  a b\u{a0}\n"), "a b");
    assert_eq!(trim("\u{3000}"), "");
    assert_eq!(trim(""), "");
    assert_eq!(trim("plain"), "plain");
}

#[test]
fn trimming_twice_is_trimming_once() {
    let once = trim(" \t x  y \r\n");
    assert_eq!(once, "x  y");
    assert_eq!(trim(&once), once);
}

#[test]
fn cleaning_leaves_single_blanks() {
    assert_eq!(clean("  Accounting \n\t and   Finance "), "Accounting and Finance");
    assert_eq!(clean(" \n "), "");
    assert_eq!(clean(""), "");
}

#[test]
fn cleaning_twice_is_cleaning_once() {
    let once = clean("a\u{2003}b  c");
    assert_eq!(once, "a b c");
    assert_eq!(clean(&once), once);
}

#[test]
fn splitting_keeps_empty_pieces() {
    assert_eq!(split("a,,b,", Separator::Char(',')), owned(&["a", "", "b", ""]));
    assert_eq!(split("", Separator::Char(',')), owned(&[""]));
    assert_eq!(split("a b\tc", Separator::Space), owned(&["a", "b", "c"]));
}

#[test]
fn joining_what_was_split_gives_the_text_back() {
    for t in ["", ",", "a,b", ",x,,y,", "no comma"] {
        assert_eq!(join(&split(t, Separator::Char(',')), ","), t);
    }
}

#[test]
fn joining_puts_the_separator_between() {
    assert_eq!(join(&owned(&["1 year", "6 months"]), ", "), "1 year, 6 months");
    assert_eq!(join(&owned(&["one"]), ", "), "one");
    assert_eq!(join(&owned(&[]), ", "), "");
}

#[test]
fn searching_finds_patterns() {
    assert!(contains("undergraduate", "graduate"));
    assert!(!contains("under", "graduate"));
    assert!(contains("anything", ""));
    assert!(contains_any("taught in english", &["exempt if", "taught in english"]));
    assert!(!contains_any("taught in french", &["exempt if", "taught in english"]));
    assert!(starts_with("https://x", "http"));
    assert!(!starts_with("htt", "http"));
    assert!(ends_with("/courses/", "/courses/"));
    assert!(!ends_with("/courses/x", "/courses/"));
    assert!(same_text("NA", "NA"));
    assert!(!same_text("NA", "N"));
    assert!(!same_text("NA", "NB"));
}

#[test]
fn text_around_a_character() {
    assert_eq!(text_before("/a/?term=1?2", '?'), "/a/");
    assert_eq!(text_before("/a/", '?'), "/a/");
    assert_eq!(text_after("disallow: /x:y", ':'), " /x:y");
    assert_eq!(text_after("disallow", ':'), "");
    assert_eq!(trim_end_matches("/a///", '/'), "/a");
    assert_eq!(trim_end_matches("///", '/'), "");
}

#[test]
fn removing_and_shortening() {
    assert_eq!(remove_all("£9 per year per year", "per year"), "£9  ");
    assert_eq!(remove_all("aaa", "aa"), "a");
    assert_eq!(take_chars("£££", 2), "££");
    assert_eq!(take_chars("ab", 5), "ab");
    assert_eq!(take_chars("ab", 0), "");
}

#[test]
fn case_mapping_is_that_of_the_standard_library() {
    assert_eq!(to_lower("IELTS Ünı"), "ielts ünı");
    assert_eq!(to_upper("gbp ß"), "GBP SS");
    assert_eq!(to_lower("ABC xyz 12"), "abc xyz 12");
    assert_eq!(to_upper("abc XYZ 12"), "ABC XYZ 12");
}

#[test]
fn numeric_characters() {
    assert!(numeric('7'));
    assert!(numeric('½'));
    assert!(numeric('٣'));
    assert!(!numeric('Y'));
    assert!(!numeric('/'));
    assert!(digit('0') && digit('9'));
    assert!(!digit('٣'));
}

#[test]
fn numbers_are_read_up_to_a_limit() {
    let chars = chars_of("x0420y");
    assert_eq!(parse_digits(&chars, 1, 5, 420), Some(420));
    assert_eq!(parse_digits(&chars, 1, 5, 419), None);
    assert_eq!(parse_digits(&chars, 1, 1, 9), None);
    assert_eq!(parse_digits(&chars, 0, 5, 999), None);
    let long = chars_of("99999999999999999999999999999999999999999999");
    assert_eq!(parse_digits(&long, 0, long.len(), u64::MAX), None);
    let most = chars_of("18446744073709551615");
    assert_eq!(parse_digits(&most, 0, most.len(), u64::MAX), Some(u64::MAX));
}

#[test]
fn decimal_digits_are_read_back() {
    for n in [0u64, 7, 10, 27, 90, 2025, u64::MAX] {
        let text = to_decimal(n);
        assert_eq!(text, n.to_string());
        let chars = chars_of(&text);
        assert_eq!(parse_digits(&chars, 0, chars.len(), u64::MAX), Some(n));
    }
}

#[test]
fn sorting_is_by_code_point() {
    assert_eq!(sort(owned(&["b", "a", "ab", "B", "é", "a"])), owned(&["B", "a", "a", "ab", "b", "é"]));
    assert!(not_after("a", "a"));
    assert!(not_after("a", "ab"));
    assert!(!not_after("ab", "a"));
    assert!(!not_after("é", "z"));
}

#[test]
fn sorting_agrees_with_the_standard_library() {
    let list = owned(&["zoo", "", "https://b/?term=2", "https://b/", "https://a", "\u{10000}", "\u{ffff}"]);
    let mut expected = list.clone();
    expected.sort();
    assert_eq!(sort(list.clone()), expected);
    let mut reversed = list;
    reversed.reverse();
    assert_eq!(sort(reversed), expected);
}
