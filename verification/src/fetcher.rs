//! Fetching policy: retries, delays and `robots.txt`.

use vstd::arithmetic::power2::{lemma2_to64, lemma_pow2_adds, pow2};
use vstd::prelude::*;

use crate::number::{number_of, parse_digits};
use crate::text::{
    after, chars_of, optional, same_text, split, split_at, starts_with, text_after, texts, trim,
    trimmed, Separator,
};
use crate::unicode::{ascii_lower, lower, lower_ascii, to_lower};

verus! {

/// How many times a page is requested at most.
pub const MAX_RETRIES: u32 = 4;

/// The delay before the first retry, in milliseconds.
pub const BASE_DELAY_MS: u64 = 500;

/// The longest delay that is chosen here, in milliseconds.
pub const MAX_DELAY_MS: u64 = 16_000;

/// What came back for a request.
pub enum Reply {
    /// A response, with its status and the `Retry-After` header if it has one.
    Response { status: u16, retry_after: Option<String> },
    /// The request failed.
    NetworkError,
}

/// Why a page is given up.
pub enum FetchError {
    /// The last response still asked for a retry.
    RetriesExceeded,
    /// The response has a status that no retry helps against.
    BadStatus,
    /// The last request still failed.
    Network,
}

/// What to do after a reply.
pub enum Step {
    /// Take the body of the response.
    ReadBody,
    /// Wait for a number of milliseconds, then request the page again.
    RetryAfter(u64),
    /// Give the page up.
    Fail(FetchError),
}

/// Whether a status reports success.
pub open spec fn is_success(status: u16) -> bool {
    200 <= status < 300
}

/// Whether a status asks for a retry: too many requests, or a server error.
pub open spec fn is_retryable(status: u16) -> bool {
    status == 429 || 500 <= status < 600
}

/// The delay before the retry that follows an attempt, in milliseconds: doubled
/// with each attempt, up to a limit.
pub open spec fn backoff(attempt: nat) -> nat {
    let delay = BASE_DELAY_MS as nat * pow2((attempt - 1) as nat);
    if delay < MAX_DELAY_MS {
        delay
    } else {
        MAX_DELAY_MS as nat
    }
}

/// The number of seconds that a `Retry-After` header spells: digits, with or
/// without a plus sign, as far as they fit 64 bits.
pub open spec fn retry_after_secs(value: Seq<char>) -> Option<nat> {
    let t = trimmed(value);
    if t.len() > 0 && t[0] == '+' {
        number_of(t.drop_first(), u64::MAX as nat)
    } else {
        number_of(t, u64::MAX as nat)
    }
}

/// Whether the delay that a `Retry-After` header asks for can be counted in
/// milliseconds.
pub open spec fn delay_fits(value: Seq<char>) -> bool {
    retry_after_secs(value) matches Some(secs) ==> secs * 1000 <= u64::MAX
}

/// The delay that a `Retry-After` header asks for, in milliseconds.
pub open spec fn header_delay(value: Seq<char>) -> Option<nat> {
    match retry_after_secs(value) {
        Some(secs) => Some(secs * 1000),
        None => None,
    }
}

/// The delay before a retry: what the server asks for, or else the backoff.
pub open spec fn retry_delay(attempt: nat, retry_after: Option<Seq<char>>) -> nat {
    match retry_after {
        Some(value) => match header_delay(value) {
            Some(delay) => delay,
            None => backoff(attempt),
        },
        None => backoff(attempt),
    }
}

/// What to do after the reply to an attempt. Attempts are counted from one.
pub open spec fn step_after(attempt: nat, reply: Reply) -> Step {
    match reply {
        Reply::Response { status, retry_after } => if is_success(status) {
            Step::ReadBody
        } else if is_retryable(status) {
            if attempt >= MAX_RETRIES {
                Step::Fail(FetchError::RetriesExceeded)
            } else {
                Step::RetryAfter(retry_delay(attempt, optional(retry_after)) as u64)
            }
        } else {
            Step::Fail(FetchError::BadStatus)
        },
        Reply::NetworkError => if attempt >= MAX_RETRIES {
            Step::Fail(FetchError::Network)
        } else {
            Step::RetryAfter(backoff(attempt) as u64)
        },
    }
}

/// Whether the delay that the reply to an attempt asks for can be counted in milliseconds,
/// where another attempt follows it.
pub open spec fn reply_fits(attempt: nat, reply: Reply) -> bool {
    match reply {
        Reply::Response { status, retry_after: Some(value) } => is_retryable(status) && attempt
            < MAX_RETRIES ==> delay_fits(value@),
        _ => true,
    }
}

/// The delay before the retry that follows an attempt.
pub fn backoff_ms(attempt: u32) -> (result: u64)
    requires
        1 <= attempt <= MAX_RETRIES,
    ensures
        result == backoff(attempt as nat),
{
    let mut delay: u64 = BASE_DELAY_MS;
    let mut i: u32 = 1;
    proof {
        lemma2_to64();
    }
    while i < attempt
        invariant
            1 <= i <= attempt <= MAX_RETRIES,
            delay == BASE_DELAY_MS * pow2((i - 1) as nat),
            delay <= BASE_DELAY_MS * 8,
        decreases attempt - i,
    {
        proof {
            lemma2_to64();
            lemma_pow2_adds((i - 1) as nat, 1);
        }
        delay = delay * 2;
        i += 1;
    }
    if delay < MAX_DELAY_MS {
        delay
    } else {
        MAX_DELAY_MS
    }
}

/// Reads the number of seconds in a `Retry-After` header.
pub fn parse_retry_after(value: &str) -> (result: Option<u64>)
    ensures
        match result {
            Some(secs) => retry_after_secs(value@) == Some(secs as nat),
            None => retry_after_secs(value@) is None,
        },
{
    let chars: Vec<char> = chars_of(trim(value).as_str());
    let n: usize = chars.len();
    if n > 0 && chars[0] == '+' {
        assert(chars@.subrange(1, n as int) =~= chars@.drop_first());
        parse_digits(&chars, 1, n, u64::MAX)
    } else {
        assert(chars@.subrange(0, n as int) =~= chars@);
        parse_digits(&chars, 0, n, u64::MAX)
    }
}

/// Whether the delay that a `Retry-After` header asks for can be counted in
/// milliseconds.
pub fn retry_after_fits(value: &str) -> (result: bool)
    ensures
        result == delay_fits(value@),
{
    match parse_retry_after(value) {
        Some(secs) => secs <= u64::MAX / 1000,
        None => true,
    }
}

/// Parses the `Retry-After` header value into milliseconds.
/// Supports the form in seconds ("120"); the date form gives none.
pub fn retry_after_ms(value: &str) -> (result: Option<u64>)
    requires
        delay_fits(value@),
    ensures
        match result {
            Some(delay) => header_delay(value@) == Some(delay as nat),
            None => header_delay(value@) is None,
        },
{
    match parse_retry_after(value) {
        Some(secs) => Some(secs * 1000),
        None => None,
    }
}

/// The requests for one page.
pub struct Fetch {
    attempt: u32,
}

impl Fetch {
    /// The number of the current attempt, counted from one.
    pub closed spec fn attempt(&self) -> nat {
        self.attempt as nat
    }

    /// Whether the current attempt is one of those that are made.
    pub open spec fn wf(&self) -> bool {
        1 <= self.attempt() <= MAX_RETRIES
    }

    /// The first attempt.
    pub fn start() -> (result: Fetch)
        ensures
            result.wf(),
            result.attempt() == 1,
    {
        Fetch { attempt: 1 }
    }

    /// Decides what to do after a reply, and counts the next attempt if there is one.
    pub fn on_reply(&mut self, reply: &Reply) -> (result: Step)
        requires
            old(self).wf(),
            reply_fits(old(self).attempt(), *reply),
        ensures
            result == step_after(old(self).attempt(), *reply),
            final(self).wf(),
            final(self).attempt() == old(self).attempt() + if result is RetryAfter {
                1nat
            } else {
                0nat
            },
    {
        match reply {
            Reply::Response { status, retry_after } => {
                if 200 <= *status && *status < 300 {
                    Step::ReadBody
                } else if *status == 429 || (500 <= *status && *status < 600) {
                    if self.attempt >= MAX_RETRIES {
                        Step::Fail(FetchError::RetriesExceeded)
                    } else {
                        let asked: Option<u64> = match retry_after {
                            Some(value) => retry_after_ms(value.as_str()),
                            None => None,
                        };
                        let delay: u64 = match asked {
                            Some(delay) => delay,
                            None => backoff_ms(self.attempt),
                        };
                        self.attempt = self.attempt + 1;
                        Step::RetryAfter(delay)
                    }
                } else {
                    Step::Fail(FetchError::BadStatus)
                }
            },
            Reply::NetworkError => {
                if self.attempt >= MAX_RETRIES {
                    Step::Fail(FetchError::Network)
                } else {
                    let delay: u64 = backoff_ms(self.attempt);
                    self.attempt = self.attempt + 1;
                    Step::RetryAfter(delay)
                }
            },
        }
    }
}

/// The paths that `robots.txt` disallows so far, and whether the current block is
/// for every user agent.
pub struct RobotsState {
    pub in_wildcard_block: bool,
    pub disallowed: Seq<Seq<char>>,
}

/// Whether a line opens the block for every user agent.
pub open spec fn opens_wildcard_block(line: Seq<char>) -> bool {
    trimmed(line).map_values(|c: char| ascii_lower(c)) == "user-agent: *"@
}

/// The state after one more line.
pub open spec fn robots_step(state: RobotsState, line: Seq<char>) -> RobotsState {
    let t = trimmed(line);
    if opens_wildcard_block(line) {
        RobotsState { in_wildcard_block: true, ..state }
    } else {
        let in_block = state.in_wildcard_block && !"user-agent:"@.is_prefix_of(lower(t));
        RobotsState {
            in_wildcard_block: in_block,
            disallowed: if in_block && "disallow:"@.is_prefix_of(lower(t)) {
                state.disallowed.push(trimmed(after(t, ':')))
            } else {
                state.disallowed
            },
        }
    }
}

/// The state after several lines.
pub open spec fn robots_state(lines: Seq<Seq<char>>) -> RobotsState
    decreases lines.len(),
{
    if lines.len() == 0 {
        RobotsState { in_wildcard_block: false, disallowed: Seq::empty() }
    } else {
        robots_step(robots_state(lines.drop_last()), lines.last())
    }
}

/// Whether a disallowed path covers the course pages.
pub open spec fn covers_courses(path: Seq<char>) -> bool {
    path == "/"@ || "/course-structure"@.is_prefix_of(path)
}

/// Whether one of several disallowed paths covers the course pages.
pub open spec fn any_covers(paths: Seq<Seq<char>>) -> bool {
    exists|k: int| 0 <= k < paths.len() && covers_courses(#[trigger] paths[k])
}

/// Whether a `robots.txt` restricts the course pages for every user agent.
pub open spec fn courses_restricted(body: Seq<char>) -> bool {
    any_covers(robots_state(split_at(body, Separator::Char('\n'))).disallowed)
}

/// Whether a text is the same as another one that has no uppercase ASCII letters,
/// when its own are lowered.
fn equals_lowered(s: &str, lowered: &str) -> (result: bool)
    ensures
        result == (s@.map_values(|c: char| ascii_lower(c)) == lowered@),
{
    let a: Vec<char> = chars_of(s);
    let b: Vec<char> = chars_of(lowered);
    let ghost mapped = s@.map_values(|c: char| ascii_lower(c));
    if a.len() != b.len() {
        assert(mapped.len() == s@.len());
        return false;
    }
    let mut i: usize = 0;
    while i < a.len()
        invariant
            a@ == s@,
            b@ == lowered@,
            a@.len() == b@.len(),
            mapped == s@.map_values(|c: char| ascii_lower(c)),
            i <= a@.len(),
            forall|j: int| 0 <= j < i ==> mapped[j] == lowered@[j],
        decreases a@.len() - i,
    {
        assert(mapped[i as int] == ascii_lower(s@[i as int]));
        if lower_ascii(a[i]) != b[i] {
            return false;
        }
        i += 1;
    }
    assert(mapped =~= lowered@);
    true
}

/// Checks whether `robots.txt` restricts the course pages for every user agent.
///
/// Course pages live under `/course-structure/`.
pub fn check_robots(body: &str) -> (result: bool)
    ensures
        result == courses_restricted(body@),
{
    let lines: Vec<String> = split(body, Separator::Char('\n'));
    let ghost all = texts(lines@);
    let mut in_wildcard_block: bool = false;
    let mut restricted: bool = false;
    let mut i: usize = 0;
    assert(all.take(0) =~= Seq::empty());
    while i < lines.len()
        invariant
            i <= lines@.len(),
            all == texts(lines@),
            in_wildcard_block == robots_state(all.take(i as int)).in_wildcard_block,
            restricted == any_covers(robots_state(all.take(i as int)).disallowed),
        decreases lines@.len() - i,
    {
        let ghost state = robots_state(all.take(i as int));
        assert(all.take(i + 1).drop_last() =~= all.take(i as int));
        assert(all.take(i + 1).last() == lines@[i as int]@);
        let line: String = trim(lines[i].as_str());
        if equals_lowered(line.as_str(), "user-agent: *") {
            in_wildcard_block = true;
        } else {
            let lowered: String = to_lower(line.as_str());
            if starts_with(lowered.as_str(), "user-agent:") {
                in_wildcard_block = false;
            }
            if in_wildcard_block && starts_with(lowered.as_str(), "disallow:") {
                let path: String = trim(text_after(line.as_str(), ':').as_str());
                let covers: bool = same_text(path.as_str(), "/") || starts_with(
                    path.as_str(),
                    "/course-structure",
                );
                proof {
                    lemma_any_covers_push(state.disallowed, path@);
                }
                if covers {
                    restricted = true;
                }
            }
        }
        i += 1;
    }
    assert(all.take(i as int) =~= all);
    restricted
}

/// One more path covers the course pages, or one of the others does.
pub proof fn lemma_any_covers_push(paths: Seq<Seq<char>>, path: Seq<char>)
    ensures
        any_covers(paths.push(path)) == (any_covers(paths) || covers_courses(path)),
{
    let more = paths.push(path);
    if any_covers(paths) {
        let k = choose|k: int| 0 <= k < paths.len() && covers_courses(#[trigger] paths[k]);
        assert(more[k] == paths[k]);
    }
    if covers_courses(path) {
        assert(more[paths.len() as int] == path);
    }
    if any_covers(more) {
        let k = choose|k: int| 0 <= k < more.len() && covers_courses(#[trigger] more[k]);
        if k < paths.len() {
            assert(paths[k] == more[k]);
        }
    }
}

/// A page is requested at most four times: the reply to the last attempt is never
/// followed by another one.
pub proof fn law_attempts_are_bounded(attempt: nat, reply: Reply)
    ensures
        attempt >= MAX_RETRIES ==> !(step_after(attempt, reply) is RetryAfter),
{
}

/// The delay doubles from attempt to attempt until it reaches its limit, which it
/// never exceeds.
pub proof fn law_backoff_doubles(attempt: nat)
    requires
        attempt >= 1,
    ensures
        backoff(1) == BASE_DELAY_MS,
        backoff(attempt) <= MAX_DELAY_MS,
        backoff(attempt + 1) == if 2 * backoff(attempt) < MAX_DELAY_MS {
            2 * backoff(attempt)
        } else {
            MAX_DELAY_MS as nat
        },
{
    lemma2_to64();
    lemma_pow2_adds((attempt - 1) as nat, 1);
}

/// Lines before any that opens the block for every user agent disallow nothing.
proof fn lemma_no_wildcard_block(lines: Seq<Seq<char>>)
    requires
        forall|i: int| 0 <= i < lines.len() ==> !opens_wildcard_block(#[trigger] lines[i]),
    ensures
        !robots_state(lines).in_wildcard_block,
        robots_state(lines).disallowed.len() == 0,
    decreases lines.len(),
{
    if lines.len() > 0 {
        let front = lines.drop_last();
        assert forall|i: int| 0 <= i < front.len() implies !opens_wildcard_block(
            #[trigger] front[i],
        ) by {
            assert(!opens_wildcard_block(lines[i]));
        }
        lemma_no_wildcard_block(front);
        assert(!opens_wildcard_block(lines[lines.len() - 1]));
    }
}

/// A `robots.txt` without a block for every user agent restricts nothing.
pub proof fn law_no_wildcard_block_no_restriction(body: Seq<char>)
    requires
        forall|i: int|
            0 <= i < split_at(body, Separator::Char('\n')).len() ==> !opens_wildcard_block(
                #[trigger] split_at(body, Separator::Char('\n'))[i],
            ),
    ensures
        !courses_restricted(body),
{
    lemma_no_wildcard_block(split_at(body, Separator::Char('\n')));
}

} // verus!
