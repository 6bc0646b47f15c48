//! What holds of the fetching policy, in numbers.

use vstd::arithmetic::power2::lemma2_to64;
use vstd::prelude::*;

use crate::fetcher::{
    any_covers, backoff, courses_restricted, header_delay, lemma_any_covers_push, retry_after_secs,
    robots_state, step_after, FetchError, Reply, Step,
};
use crate::number::{all_digits, digits_value};
use crate::text::{after, optional, split_at, trimmed, Separator};
use crate::unicode::{folded, lower};

verus! {

/// The replies that are followed by a retry are those with status 429 or a status from 500
/// to 599, and failed requests, each on one of the first three attempts; no other reply is.
pub proof fn law_retried_replies(attempt: nat, reply: Reply)
    requires
        attempt >= 1,
    ensures
        step_after(attempt, reply) is RetryAfter <==> attempt <= 3 && match reply {
            Reply::Response { status, .. } => status == 429 || (status >= 500 && status <= 599),
            Reply::NetworkError => true,
        },
{
}

/// The body is read of the replies with a status from 200 to 299, and of no other one.
pub proof fn law_read_replies(attempt: nat, reply: Reply)
    ensures
        step_after(attempt, reply) is ReadBody <==> (reply matches Reply::Response { status, .. }
            && 200 <= status && status <= 299),
{
}

/// A page is given up for the reason that stands in the reply: the retries are used up
/// after 429 and server errors, the network failed, or no retry helps.
pub proof fn law_reasons_to_give_up(attempt: nat, reply: Reply)
    requires
        attempt >= 1,
    ensures
        match reply {
            Reply::NetworkError => attempt >= 4 ==> step_after(attempt, reply) == Step::Fail(
                FetchError::Network,
            ),
            Reply::Response { status, .. } => {
                &&& attempt >= 4 && (status == 429 || (500 <= status && status <= 599))
                    ==> step_after(attempt, reply) == Step::Fail(FetchError::RetriesExceeded)
                &&& status < 200 || (300 <= status && status <= 428) || (430 <= status && status
                    <= 499) || status >= 600 ==> step_after(attempt, reply) == Step::Fail(
                    FetchError::BadStatus,
                )
            },
        },
{
}

/// Where the server asks for no delay, the first three retries follow after half a second,
/// one second and two seconds.
pub proof fn law_delays_without_header(attempt: nat, reply: Reply, delay: u64)
    requires
        attempt >= 1,
        step_after(attempt, reply) == Step::RetryAfter(delay),
        reply matches Reply::Response { retry_after, .. } ==> retry_after is None,
    ensures
        attempt == 1 ==> delay == 500,
        attempt == 2 ==> delay == 1000,
        attempt == 3 ==> delay == 2000,
{
    lemma2_to64();
}

/// The delay is half a second, doubled with each attempt, and never more than 16 seconds.
pub proof fn law_backoff_in_numbers(attempt: nat)
    ensures
        backoff(1) == 500,
        backoff(2) == 1000,
        backoff(3) == 2000,
        backoff(4) == 4000,
        backoff(5) == 8000,
        backoff(6) == 16000,
        backoff(attempt) <= 16000,
{
    lemma2_to64();
}

/// A `Retry-After` header in digits, with or without a plus sign and white space around
/// it, asks for that many seconds, as far as they fit 64 bits. Any other header asks for
/// nothing.
pub proof fn law_retry_after_in_seconds(value: Seq<char>, digits: Seq<char>)
    requires
        digits.len() > 0 ==> digits[0] != '+',
        trimmed(value) == digits || trimmed(value) == seq!['+'] + digits,
    ensures
        digits.len() > 0 && all_digits(digits) && digits_value(digits) <= 0xffff_ffff_ffff_ffff
            ==> {
            &&& retry_after_secs(value) == Some(digits_value(digits))
            &&& header_delay(value) == Some(1000 * digits_value(digits))
        },
        digits.len() == 0 || !all_digits(digits) || digits_value(digits) > 0xffff_ffff_ffff_ffff
            ==> header_delay(value) is None,
{
    if trimmed(value) == seq!['+'] + digits {
        assert(trimmed(value).drop_first() =~= digits);
    }
}

/// A retry waits for what the server asks for, whatever the attempt, and as long as without
/// the header where that asks for nothing.
pub proof fn law_retry_after_is_respected(attempt: nat, status: u16, header: String, delay: u64)
    requires
        1 <= attempt <= 3,
        step_after(attempt, Reply::Response { status, retry_after: Some(header) })
            == Step::RetryAfter(delay),
    ensures
        retry_after_secs(header@) matches Some(secs) ==> (1000 * secs <= u64::MAX ==> delay == 1000
            * secs),
        retry_after_secs(header@) is None ==> step_after(attempt, Reply::NetworkError)
            == Step::RetryAfter(delay),
{
    lemma2_to64();
    assert(optional(Some(header)) == Some(header@));
}

/// Whether a line opens the block for every user agent.
pub open spec fn for_everyone(line: Seq<char>) -> bool {
    folded(trimmed(line)) == "user-agent: *"@
}

/// Whether a line opens a block for one user agent.
pub open spec fn for_someone(line: Seq<char>) -> bool {
    !for_everyone(line) && "user-agent:"@.is_prefix_of(lower(trimmed(line)))
}

/// Whether a line disallows a path, all of the site or the course pages.
pub open spec fn bars_courses(line: Seq<char>) -> bool {
    let path = trimmed(after(trimmed(line), ':'));
    &&& !for_everyone(line) && !for_someone(line)
    &&& "disallow:"@.is_prefix_of(lower(trimmed(line)))
    &&& path == "/"@ || "/course-structure"@.is_prefix_of(path)
}

/// Whether the line at an index is in the block for every user agent that opens at another
/// index.
pub open spec fn in_block_of(lines: Seq<Seq<char>>, a: int, b: int) -> bool {
    &&& 0 <= a < b
    &&& for_everyone(lines[a])
    &&& forall|c: int| a < c < b ==> !for_someone(#[trigger] lines[c])
}

/// What is known after several lines: whether the next line is in the block for every user
/// agent, and whether a line in such a block bars the course pages.
proof fn lemma_robots_state(lines: Seq<Seq<char>>)
    ensures
        robots_state(lines).in_wildcard_block == exists|a: int|
            #[trigger] in_block_of(lines, a, lines.len() as int),
        any_covers(robots_state(lines).disallowed) == exists|a: int, b: int|
            0 <= b < lines.len() && #[trigger] in_block_of(lines, a, b) && bars_courses(lines[b]),
    decreases lines.len(),
{
    if lines.len() > 0 {
        let front = lines.drop_last();
        let line = lines.last();
        let n = front.len() as int;
        lemma_robots_state(front);
        let state = robots_state(front);
        let path = trimmed(after(trimmed(line), ':'));
        lemma_any_covers_push(state.disallowed, path);
        assert forall|a: int, b: int| 0 <= b <= n implies in_block_of(front, a, b)
            == #[trigger] in_block_of(lines, a, b) by {
            if in_block_of(front, a, b) {
                assert forall|c: int| a < c < b implies !for_someone(#[trigger] lines[c]) by {
                    assert(front[c] == lines[c]);
                }
            }
            if in_block_of(lines, a, b) {
                assert forall|c: int| a < c < b implies !for_someone(#[trigger] front[c]) by {
                    assert(front[c] == lines[c]);
                }
            }
        }
        if state.in_wildcard_block {
            let a = choose|a: int| #[trigger] in_block_of(front, a, n);
            assert(in_block_of(lines, a, n));
            if !for_someone(line) {
                assert(in_block_of(lines, a, n + 1));
            }
        }
        if for_everyone(line) {
            assert(in_block_of(lines, n, n + 1));
        }
        assert forall|a: int| #[trigger] in_block_of(lines, a, n + 1) implies for_everyone(line)
            || (in_block_of(front, a, n) && !for_someone(line)) by {
            if !for_everyone(line) {
                assert(a < n);
                assert(!for_someone(lines[n]));
                assert(in_block_of(lines, a, n));
            }
        }
        let barred = exists|a: int, b: int|
            0 <= b < n && #[trigger] in_block_of(front, a, b) && bars_courses(front[b]);
        let now = exists|a: int, b: int|
            0 <= b < lines.len() && #[trigger] in_block_of(lines, a, b) && bars_courses(lines[b]);
        if barred {
            let (a, b) = choose|a: int, b: int|
                0 <= b < n && #[trigger] in_block_of(front, a, b) && bars_courses(front[b]);
            assert(in_block_of(lines, a, b) && bars_courses(lines[b]));
        }
        if state.in_wildcard_block && bars_courses(line) {
            let a = choose|a: int| #[trigger] in_block_of(front, a, n);
            assert(in_block_of(lines, a, n) && bars_courses(lines[n]));
        }
        if now {
            let (a, b) = choose|a: int, b: int|
                0 <= b < lines.len() && #[trigger] in_block_of(lines, a, b) && bars_courses(
                    lines[b],
                );
            assert(in_block_of(front, a, b));
            if b < n {
                assert(bars_courses(front[b]));
            }
        }
        assert(now == (barred || (state.in_wildcard_block && bars_courses(line))));
    }
}

/// A `robots.txt` restricts the course pages exactly where a block for every user agent
/// disallows all of the site or a path that starts with `/course-structure`.
pub proof fn law_restricted_by_robots(body: Seq<char>)
    ensures
        ({
            let lines = split_at(body, Separator::Char('\n'));
            courses_restricted(body) == exists|a: int, b: int|
                0 <= b < lines.len() && #[trigger] in_block_of(lines, a, b) && bars_courses(
                    lines[b],
                )
        }),
{
    lemma_robots_state(split_at(body, Separator::Char('\n')));
}

} // verus!
