use coventry_scraper::discovery::{after_strategy, fallback_list, FallbackCheck, NextStep, Strategy};
use coventry_scraper::urls::{course_slug, is_course_url, names_term};

fn owned(list: &[&str]) -> Vec<String> {
    list.iter().map(|t| t.to_string()).collect()
}

/// Follows the decisions, given what each strategy finds.
fn used(found: [Option<usize>; 4]) -> usize {
    let order = [Strategy::Sitemap, Strategy::Listing, Strategy::Homepage, Strategy::Fallback];
    let mut i = 0;
    while let NextStep::Try(next) = after_strategy(order[i], found[i]) {
        assert_eq!(next, order[i + 1]);
        i += 1;
    }
    i
}

#[test]
fn the_first_strategy_with_results_wins() {
    assert_eq!(used([Some(3), Some(1), None, Some(5)]), 0);
    assert_eq!(used([Some(0), Some(1), None, Some(5)]), 1);
    assert_eq!(used([None, Some(0), Some(2), Some(5)]), 2);
    assert_eq!(used([None, Some(0), None, Some(5)]), 3);
    assert_eq!(used([None, None, None, None]), 3);
}

#[test]
fn fallback_urls_are_dated_course_pages() {
    for url in fallback_list() {
        assert!(is_course_url(url), "{}", url);
        assert!(names_term(url), "{}", url);
        assert!(url.ends_with("?term=2025-26"));
    }
}

#[test]
fn fallback_urls_are_different_courses() {
    let mut slugs: Vec<String> = fallback_list().iter().map(|url| course_slug(url)).collect();
    slugs.sort();
    slugs.dedup();
    assert_eq!(slugs.len(), 5);
    assert!(slugs.contains(&"computer-science-mscibsc-hons".to_string()));
}

#[test]
fn fallback_uses_the_urls_that_answer() {
    let urls = fallback_list();
    let mut check = FallbackCheck::start(3);
    for status in [Some(200), Some(404), None, Some(200), Some(200)] {
        assert!(check.candidate().is_some());
        check.on_status(status);
    }
    assert_eq!(check.candidate(), None);
    assert_eq!(check.finish(), owned(&[urls[0], urls[3], urls[4]]));
}

#[test]
fn fallback_stops_when_enough_urls_answer() {
    let urls = fallback_list();
    let mut check = FallbackCheck::start(1);
    assert_eq!(check.candidate(), Some(urls[0]));
    check.on_status(Some(500));
    assert_eq!(check.candidate(), Some(urls[1]));
    check.on_status(Some(200));
    assert_eq!(check.candidate(), None);
    assert_eq!(check.finish(), owned(&[urls[1]]));
}

#[test]
fn fallback_skips_every_status_but_ok() {
    let urls = fallback_list();
    let mut check = FallbackCheck::start(5);
    check.on_status(Some(204));
    check.on_status(Some(301));
    check.on_status(Some(200));
    assert_eq!(check.finish(), owned(&[urls[2]]));
}

#[test]
fn fallback_without_an_answer_is_unvalidated() {
    let urls = fallback_list();
    let mut check = FallbackCheck::start(2);
    for _ in 0..5 {
        check.on_status(None);
    }
    assert_eq!(check.candidate(), None);
    assert_eq!(check.finish(), owned(&[urls[0], urls[1]]));
    let check = FallbackCheck::start(9);
    assert_eq!(check.finish(), owned(&urls));
}

#[test]
fn fallback_for_a_limit_of_none() {
    let check = FallbackCheck::start(0);
    assert_eq!(check.candidate(), None);
    assert_eq!(check.finish(), owned(&[]));
}
