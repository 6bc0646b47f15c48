use coventry_scraper::fetcher::{
    backoff_ms, check_robots, parse_retry_after, retry_after_fits, retry_after_ms, Fetch, FetchError, Reply, Step,
};

fn response(status: u16, retry_after: Option<&str>) -> Reply {
    Reply::Response { status, retry_after: retry_after.map(|t| t.to_string()) }
}

#[test]
fn success_is_read() {
    let mut fetch = Fetch::start();
    assert!(matches!(fetch.on_reply(&response(200, None)), Step::ReadBody));
    assert!(matches!(Fetch::start().on_reply(&response(299, None)), Step::ReadBody));
}

#[test]
fn backoff_doubles_up_to_four_attempts() {
    let mut fetch = Fetch::start();
    assert!(matches!(fetch.on_reply(&response(503, None)), Step::RetryAfter(500)));
    assert!(matches!(fetch.on_reply(&Reply::NetworkError), Step::RetryAfter(1000)));
    assert!(matches!(fetch.on_reply(&response(429, None)), Step::RetryAfter(2000)));
    assert!(matches!(
        fetch.on_reply(&response(500, None)),
        Step::Fail(FetchError::RetriesExceeded)
    ));
}

#[test]
fn network_errors_end_after_four_attempts() {
    let mut fetch = Fetch::start();
    for _ in 0..3 {
        assert!(matches!(fetch.on_reply(&Reply::NetworkError), Step::RetryAfter(_)));
    }
    assert!(matches!(fetch.on_reply(&Reply::NetworkError), Step::Fail(FetchError::Network)));
}

#[test]
fn other_statuses_are_not_retried() {
    for status in [301, 404, 418, 600] {
        assert!(matches!(
            Fetch::start().on_reply(&response(status, Some("5"))),
            Step::Fail(FetchError::BadStatus)
        ));
    }
}

#[test]
fn retry_after_is_respected() {
    let mut fetch = Fetch::start();
    assert!(matches!(fetch.on_reply(&response(429, Some(" 120 "))), Step::RetryAfter(120_000)));
    assert!(matches!(fetch.on_reply(&response(503, Some("0"))), Step::RetryAfter(0)));
    assert!(matches!(
        fetch.on_reply(&response(503, Some("Wed, 21 Oct 2025 07:28:00 GMT"))),
        Step::RetryAfter(2000)
    ));
}

#[test]
fn backoff_values() {
    assert_eq!(backoff_ms(1), 500);
    assert_eq!(backoff_ms(2), 1000);
    assert_eq!(backoff_ms(3), 2000);
    assert_eq!(backoff_ms(4), 4000);
}

#[test]
fn retry_after_values() {
    assert_eq!(parse_retry_after("120"), Some(120));
    assert_eq!(parse_retry_after("+7"), Some(7));
    assert_eq!(parse_retry_after("-7"), None);
    assert_eq!(parse_retry_after(""), None);
    assert_eq!(parse_retry_after("+"), None);
    assert_eq!(parse_retry_after("1.5"), None);
    assert_eq!(parse_retry_after("18446744073709551615"), Some(u64::MAX));
    assert_eq!(parse_retry_after("18446744073709551616"), None);
    assert_eq!(retry_after_ms("2"), Some(2000));
    assert_eq!(retry_after_ms("soon"), None);
}

#[test]
fn delays_that_cannot_be_counted_in_milliseconds() {
    assert!(retry_after_fits("18446744073709551"));
    assert!(!retry_after_fits("18446744073709552"));
    assert!(retry_after_fits("18446744073709551616"));
    assert!(retry_after_fits("tomorrow"));
    assert_eq!(retry_after_ms("18446744073709551"), Some(18446744073709551000));
}

#[test]
fn retry_after_is_read_as_the_standard_library_reads_it() {
    for value in ["0", "007", "+1", "++1", "12a", " 5", "٣", "999999999999999999999"] {
        assert_eq!(parse_retry_after(value), value.trim().parse::<u64>().ok(), "{}", value);
    }
}

#[test]
fn robots_that_restrict_course_pages() {
    assert!(check_robots("User-agent: *\nDisallow: /"));
    assert!(check_robots("user-AGENT: *\r\nAllow: /x\r\nDISALLOW:/course-structure/pg\r\n"));
    assert!(check_robots("User-agent: a\nUser-agent: *\nDisallow: /course-structure"));
}

#[test]
fn robots_that_permit_course_pages() {
    assert!(!check_robots(""));
    assert!(!check_robots("User-agent: *\nDisallow: /search\nDisallow:"));
    assert!(!check_robots("User-agent: *\nUser-agent: bot\nDisallow: /"));
    assert!(!check_robots("User-agent: *\nDisallow: /courses/"));
}

#[test]
fn robots_without_a_block_for_everyone() {
    assert!(!check_robots("User-agent: bot\nDisallow: /\nDisallow: /course-structure"));
    assert!(!check_robots("Disallow: /"));
}

#[test]
fn a_delay_that_is_not_waited_for_may_have_any_length() {
    let long = Some("18446744073709551615");
    assert!(matches!(Fetch::start().on_reply(&response(200, long)), Step::ReadBody));
    assert!(matches!(Fetch::start().on_reply(&response(404, long)), Step::Fail(FetchError::BadStatus)));
    let mut fetch = Fetch::start();
    for _ in 0..3 {
        assert!(matches!(fetch.on_reply(&response(503, None)), Step::RetryAfter(_)));
    }
    assert!(matches!(fetch.on_reply(&response(503, long)), Step::Fail(FetchError::RetriesExceeded)));
}
