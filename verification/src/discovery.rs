//! The order of the discovery strategies, and the URLs to fall back on.

use vstd::prelude::*;

use crate::fallback_laws::law_fallback_urls_are_courses;
use crate::sitemap::{all_courses, distinct_slugs};
use crate::text::{strs, texts};
use crate::urls::{course_url, slug};

verus! {

/// The status of a page that exists.
pub const OK_STATUS: u16 = 200;

/// The ways to discover course URLs.
#[derive(Clone, Copy, Debug, PartialEq, Eq, Structural)]
pub enum Strategy {
    /// Walk the sitemaps.
    Sitemap,
    /// Read the pages that list courses.
    Listing,
    /// Read the homepage.
    Homepage,
    /// Use the URLs that are known to work.
    Fallback,
}

/// What to do after a strategy.
#[derive(Clone, Copy, Debug, PartialEq, Eq, Structural)]
pub enum NextStep {
    /// Use what it found.
    Use,
    /// Try another strategy.
    Try(Strategy),
}

/// The strategies, in the order in which they are tried.
pub open spec fn strategies() -> Seq<Strategy> {
    seq![Strategy::Sitemap, Strategy::Listing, Strategy::Homepage, Strategy::Fallback]
}

/// What to do after a strategy found a number of URLs, or failed: the last strategy
/// is final, the others are where they found something.
pub open spec fn next_step(strategy: Strategy, found: Option<nat>) -> NextStep {
    let settled = match found {
        Some(n) => n > 0,
        None => false,
    };
    match strategy {
        Strategy::Fallback => NextStep::Use,
        Strategy::Sitemap => if settled {
            NextStep::Use
        } else {
            NextStep::Try(Strategy::Listing)
        },
        Strategy::Listing => if settled {
            NextStep::Use
        } else {
            NextStep::Try(Strategy::Homepage)
        },
        Strategy::Homepage => if settled {
            NextStep::Use
        } else {
            NextStep::Try(Strategy::Fallback)
        },
    }
}

/// Decides what to do after a strategy found a number of URLs, or failed.
pub fn after_strategy(strategy: Strategy, found: Option<usize>) -> (result: NextStep)
    ensures
        result == next_step(
            strategy,
            match found {
                Some(n) => Some(n as nat),
                None => None,
            },
        ),
{
    let settled: bool = match found {
        Some(n) => n > 0,
        None => false,
    };
    match strategy {
        Strategy::Fallback => NextStep::Use,
        Strategy::Sitemap => if settled {
            NextStep::Use
        } else {
            NextStep::Try(Strategy::Listing)
        },
        Strategy::Listing => if settled {
            NextStep::Use
        } else {
            NextStep::Try(Strategy::Homepage)
        },
        Strategy::Homepage => if settled {
            NextStep::Use
        } else {
            NextStep::Try(Strategy::Fallback)
        },
    }
}

/// The index of the strategy whose URLs are used, from that of a strategy that is
/// tried, given what each strategy finds.
pub open spec fn used_from(found: Seq<Option<nat>>, i: int) -> int
    decreases 4 - i,
{
    if 0 <= i < 3 && next_step(strategies()[i], found[i]) != NextStep::Use {
        used_from(found, i + 1)
    } else {
        i
    }
}

/// The first strategy that returns results wins: each strategy before the one whose
/// URLs are used failed or found nothing, each is followed by the next one in order,
/// and only the last strategy is used whatever it finds.
pub proof fn law_first_result_wins(found: Seq<Option<nat>>)
    requires
        found.len() == 4,
    ensures
        0 <= used_from(found, 0) < 4,
        forall|i: int|
            0 <= i < used_from(found, 0) ==> {
                &&& #[trigger] found[i] is None || found[i] == Some(0nat)
                &&& next_step(strategies()[i], found[i]) == NextStep::Try(strategies()[i + 1])
            },
        next_step(strategies()[used_from(found, 0)], found[used_from(found, 0)]) == NextStep::Use,
        used_from(found, 0) < 3 ==> (found[used_from(found, 0)] matches Some(n) && n > 0),
{
    reveal_with_fuel(used_from, 5);
}

/// Course URLs that are known to work. They name an intake year, so that the pages
/// show dated fees and intakes.
pub open spec fn fallback_urls() -> Seq<Seq<char>> {
    seq![
        "https://www.coventry.ac.uk/course-structure/pg/bl/international-business-management-msc/?term=2025-26"@,
        "https://www.coventry.ac.uk/course-structure/pg/ees/data-science-and-computational-intelligence-msc/?term=2025-26"@,
        "https://www.coventry.ac.uk/course-structure/pg/cbl/accounting-and-financial-management-msc/?term=2025-26"@,
        "https://www.coventry.ac.uk/course-structure/ug/eec/computer-science-mscibsc-hons/?term=2025-26"@,
        "https://www.coventry.ac.uk/course-structure/ug/bl/business-management-bsc-hons/?term=2025-26"@,
    ]
}

/// The URLs to fall back on, in the order in which they are validated.
pub fn fallback_list() -> (result: [&'static str; 5])
    ensures
        strs(result@) == fallback_urls(),
{
    let result: [&'static str; 5] = [
        "https://www.coventry.ac.uk/course-structure/pg/bl/international-business-management-msc/?term=2025-26",
        "https://www.coventry.ac.uk/course-structure/pg/ees/data-science-and-computational-intelligence-msc/?term=2025-26",
        "https://www.coventry.ac.uk/course-structure/pg/cbl/accounting-and-financial-management-msc/?term=2025-26",
        "https://www.coventry.ac.uk/course-structure/ug/eec/computer-science-mscibsc-hons/?term=2025-26",
        "https://www.coventry.ac.uk/course-structure/ug/bl/business-management-bsc-hons/?term=2025-26",
    ];
    assert(strs(result@) =~= fallback_urls());
    result
}

/// The fallback URLs that exist, given which of the first ones do.
pub open spec fn valid_urls(exist: Seq<bool>) -> Seq<Seq<char>>
    decreases exist.len(),
{
    if exist.len() == 0 {
        Seq::empty()
    } else if exist.last() {
        valid_urls(exist.drop_last()).push(fallback_urls()[exist.len() - 1])
    } else {
        valid_urls(exist.drop_last())
    }
}

/// The fallback URL to validate next, if there is one and more are wanted.
pub open spec fn next_candidate(exist: Seq<bool>, limit: nat) -> Option<Seq<char>> {
    if valid_urls(exist).len() < limit && exist.len() < fallback_urls().len() {
        Some(fallback_urls()[exist.len() as int])
    } else {
        None
    }
}

/// The URLs to use after the validation: those that exist, or else the first ones
/// unvalidated.
pub open spec fn fallback_result(exist: Seq<bool>, limit: nat) -> Seq<Seq<char>> {
    if valid_urls(exist).len() > 0 {
        valid_urls(exist)
    } else if limit < fallback_urls().len() {
        fallback_urls().take(limit as int)
    } else {
        fallback_urls()
    }
}

/// The validation of the fallback URLs.
pub struct FallbackCheck {
    exist: Vec<bool>,
    valid: Vec<String>,
    limit: usize,
}

impl FallbackCheck {
    /// Which of the URLs validated so far exist.
    pub closed spec fn exist(&self) -> Seq<bool> {
        self.exist@
    }

    /// How many URLs are wanted.
    pub closed spec fn limit(&self) -> nat {
        self.limit as nat
    }

    /// Whether the URLs kept are those that exist, and no more than wanted.
    pub closed spec fn wf(&self) -> bool {
        &&& self.exist@.len() <= fallback_urls().len()
        &&& texts(self.valid@) == valid_urls(self.exist@)
        &&& self.valid@.len() <= self.limit
    }

    /// Starts with no URL validated.
    pub fn start(limit: usize) -> (result: FallbackCheck)
        ensures
            result.wf(),
            result.exist() == Seq::<bool>::empty(),
            result.limit() == limit,
    {
        let result: FallbackCheck = FallbackCheck { exist: Vec::new(), valid: Vec::new(), limit };
        assert(texts(result.valid@) =~= Seq::empty());
        result
    }

    /// The URL to validate next.
    pub fn candidate(&self) -> (result: Option<&'static str>)
        requires
            self.wf(),
        ensures
            match result {
                Some(url) => next_candidate(self.exist(), self.limit()) == Some(url@),
                None => next_candidate(self.exist(), self.limit()) is None,
            },
    {
        let urls: [&'static str; 5] = fallback_list();
        assert(texts(self.valid@).len() == self.valid@.len());
        if self.valid.len() < self.limit && self.exist.len() < 5 {
            assert(strs(urls@)[self.exist@.len() as int] == urls@[self.exist@.len() as int]@);
            Some(urls[self.exist.len()])
        } else {
            None
        }
    }

    /// Takes the status of the response to a `HEAD` request for the URL to validate,
    /// if there was a response.
    pub fn on_status(&mut self, status: Option<u16>)
        requires
            old(self).wf(),
            next_candidate(old(self).exist(), old(self).limit()) is Some,
        ensures
            final(self).wf(),
            final(self).exist() == old(self).exist().push(status == Some(200u16)),
            final(self).limit() == old(self).limit(),
    {
        let ghost done = self.exist@;
        let ghost kept = texts(self.valid@);
        assert(kept.len() == self.valid@.len());
        let exists_there: bool = match status {
            Some(code) => code == OK_STATUS,
            None => false,
        };
        let urls: [&'static str; 5] = fallback_list();
        let i: usize = self.exist.len();
        if exists_there {
            assert(strs(urls@)[i as int] == urls@[i as int]@);
            self.valid.push(urls[i].to_string());
            assert(texts(self.valid@) =~= kept.push(fallback_urls()[i as int]));
        }
        self.exist.push(exists_there);
        assert(self.exist@.drop_last() =~= done);
    }

    /// The URLs to use.
    pub fn finish(self) -> (result: Vec<String>)
        requires
            self.wf(),
        ensures
            texts(result@) == fallback_result(self.exist(), self.limit()),
            result@.len() <= self.limit(),
            self.limit() > 0 ==> result@.len() > 0,
            all_courses(texts(result@)),
            distinct_slugs(texts(result@)),
    {
        proof {
            lemma_fallback_result(self.exist@, self.limit as nat);
        }
        assert(texts(self.valid@).len() == self.valid@.len());
        if self.valid.len() > 0 {
            return self.valid;
        }
        let urls: [&'static str; 5] = fallback_list();
        let ghost all = fallback_urls();
        let mut result: Vec<String> = Vec::new();
        assert(texts(result@) =~= all.take(0));
        while result.len() < self.limit && result.len() < 5
            invariant
                all.len() == 5,
                strs(urls@) == all,
                result@.len() <= self.limit,
                result@.len() <= 5,
                texts(result@) == all.take(result@.len() as int),
            decreases 5 - result@.len(),
        {
            let ghost done = texts(result@);
            let ghost n = result@.len() as int;
            assert(strs(urls@)[n] == urls@[n]@);
            result.push(urls[result.len()].to_string());
            assert(texts(result@) =~= done.push(all[n]));
            assert(all.take(n + 1) =~= all.take(n).push(all[n]));
        }
        assert(all.take(5) =~= all);
        result
    }
}

/// A URL that exists is one of the known ones, and one that answered.
proof fn lemma_valid_urls(exist: Seq<bool>, i: int)
    requires
        exist.len() <= fallback_urls().len(),
        0 <= i < valid_urls(exist).len(),
    ensures
        exists|k: int|
            0 <= k < exist.len() && exist[k] && valid_urls(exist)[i]
                == #[trigger] fallback_urls()[k],
    decreases exist.len(),
{
    if exist.len() > 0 {
        let front = exist.drop_last();
        if exist.last() && i == valid_urls(front).len() {
            let k = exist.len() - 1;
            assert(exist[k] && valid_urls(exist)[i] == fallback_urls()[k]);
        } else {
            lemma_valid_urls(front, i);
            let k = choose|k: int|
                0 <= k < front.len() && front[k] && valid_urls(front)[i]
                    == #[trigger] fallback_urls()[k];
            assert(exist[k] && valid_urls(exist)[i] == fallback_urls()[k]);
        }
    }
}

/// Falling back never fails and passes on no dead URL: each URL that is used is a known
/// one, and one that answered unless none did.
pub proof fn law_fallback_urls_are_known(exist: Seq<bool>, limit: nat, i: int)
    requires
        exist.len() <= fallback_urls().len(),
        0 <= i < fallback_result(exist, limit).len(),
    ensures
        fallback_urls().contains(fallback_result(exist, limit)[i]),
        exist.contains(true) ==> exists|k: int|
            0 <= k < exist.len() && exist[k] && fallback_result(exist, limit)[i]
                == #[trigger] fallback_urls()[k],
{
    if valid_urls(exist).len() > 0 {
        lemma_valid_urls(exist, i);
    } else {
        assert(fallback_result(exist, limit)[i] == fallback_urls()[i]);
        if exist.contains(true) {
            lemma_some_valid(exist);
        }
    }
}

/// If one of the URLs answered, there are valid ones.
proof fn lemma_some_valid(exist: Seq<bool>)
    requires
        exist.contains(true),
    ensures
        valid_urls(exist).len() > 0,
    decreases exist.len(),
{
    let k = choose|k: int| 0 <= k < exist.len() && exist[k] == true;
    if k < exist.len() - 1 {
        assert(exist.drop_last()[k] == true);
        lemma_some_valid(exist.drop_last());
    }
}

/// The URLs that exist are those of different courses.
proof fn lemma_valid_courses(exist: Seq<bool>)
    requires
        exist.len() <= fallback_urls().len(),
    ensures
        all_courses(valid_urls(exist)),
        distinct_slugs(valid_urls(exist)),
    decreases exist.len(),
{
    law_fallback_urls_are_courses();
    if exist.len() > 0 {
        let front = exist.drop_last();
        lemma_valid_courses(front);
        if exist.last() {
            let kept = valid_urls(front);
            let now = valid_urls(exist);
            let n = exist.len() - 1;
            assert forall|i: int| 0 <= i < now.len() implies course_url(#[trigger] now[i]) by {
                if i < kept.len() {
                    assert(course_url(kept[i]));
                } else {
                    assert(course_url(fallback_urls()[n]));
                }
            }
            assert forall|i: int, j: int| 0 <= i < j < now.len() implies slug(#[trigger] now[i])
                != slug(#[trigger] now[j]) by {
                if j < kept.len() {
                    assert(slug(kept[i]) != slug(kept[j]));
                } else {
                    lemma_valid_urls(front, i);
                    let k = choose|k: int|
                        0 <= k < front.len() && front[k] && kept[i] == #[trigger] fallback_urls()[k];
                    assert(slug(fallback_urls()[k]) != slug(fallback_urls()[n]));
                }
            }
        }
    }
}

/// The URLs that are used in the end are those of different courses.
proof fn lemma_fallback_result(exist: Seq<bool>, limit: nat)
    requires
        exist.len() <= fallback_urls().len(),
    ensures
        all_courses(fallback_result(exist, limit)),
        distinct_slugs(fallback_result(exist, limit)),
{
    lemma_valid_courses(exist);
    law_fallback_urls_are_courses();
    let all = fallback_urls();
    let result = fallback_result(exist, limit);
    if valid_urls(exist).len() == 0 {
        assert forall|i: int| 0 <= i < result.len() implies course_url(#[trigger] result[i]) by {
            assert(course_url(all[i]));
        }
        assert forall|i: int, j: int| 0 <= i < j < result.len() implies slug(#[trigger] result[i])
            != slug(#[trigger] result[j]) by {
            assert(slug(all[i]) != slug(all[j]));
        }
    }
}

/// Whether URLs are those of different courses, and no more than wanted.
pub open spec fn well_discovered(urls: Seq<Seq<char>>, limit: nat) -> bool {
    all_courses(urls) && distinct_slugs(urls) && urls.len() <= limit
}

/// How many URLs each strategy found.
pub open spec fn counts(found: Seq<Option<Seq<Seq<char>>>>) -> Seq<Option<nat>> {
    found.map_values(
        |urls: Option<Seq<Seq<char>>>|
            match urls {
                Some(urls) => Some(urls.len()),
                None => None,
            },
    )
}

/// Discovery never fails, and gives URLs of different courses, at least one and no more
/// than wanted: whatever the first three strategies give or fail to give, as long as
/// each gives different courses within the limit, as the walks do, and whatever of the
/// fallback URLs answer.
pub proof fn law_discovery_succeeds(
    found: Seq<Option<Seq<Seq<char>>>>,
    exist: Seq<bool>,
    limit: nat,
)
    requires
        limit > 0,
        found.len() == 4,
        forall|i: int|
            0 <= i < 3 ==> (#[trigger] found[i] matches Some(urls) ==> well_discovered(
                urls,
                limit,
            )),
        exist.len() <= fallback_urls().len(),
        valid_urls(exist).len() <= limit,
        found[3] == Some(fallback_result(exist, limit)),
    ensures
        found[used_from(counts(found), 0)] matches Some(urls) && well_discovered(urls, limit)
            && urls.len() > 0,
{
    law_first_result_wins(counts(found));
    let k = used_from(counts(found), 0);
    assert(counts(found)[k] == match found[k] {
        Some(urls) => Some(urls.len()),
        None => None::<nat>,
    });
    lemma_fallback_result(exist, limit);
    assert(k < 3 ==> found[k] is Some);
}

} // verus!
