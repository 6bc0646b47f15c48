//! What holds of the URLs to fall back on.

use vstd::prelude::*;

use crate::discovery::fallback_urls;
use crate::sitemap::{all_courses, distinct_slugs};
use crate::text::{
    includes, includes_any, lemma_non_empty_push, non_empty, occurs_at, split_at, trim_end_char,
    Separator,
};
use crate::text_laws::law_before_append;
use crate::unicode::{ascii_lower, lower};
use crate::urls::{course_url, has_term, lemma_no_index_end, segments, slug, structure_paths};

verus! {

/// Whether two texts have the same characters from an index on.
pub open spec fn same_from(a: Seq<char>, b: Seq<char>, i: int) -> bool
    decreases a.len() - i,
{
    0 <= i < a.len() ==> a[i] == b[i] && same_from(a, b, i + 1)
}

/// Two texts of one length that have the same characters are the same.
proof fn lemma_same_from(a: Seq<char>, b: Seq<char>, i: int)
    requires
        0 <= i <= a.len() == b.len(),
        same_from(a, b, i),
        a.take(i) == b.take(i),
    ensures
        a == b,
    decreases a.len() - i,
{
    if i < a.len() {
        assert(a.take(i + 1) =~= a.take(i).push(a[i]));
        assert(b.take(i + 1) =~= b.take(i).push(b[i]));
        lemma_same_from(a, b, i + 1);
    } else {
        assert(a.take(i) =~= a);
        assert(b.take(i) =~= b);
    }
}

/// Whether a character can stand in a segment of a lowercase URL.
pub open spec fn is_plain(c: char) -> bool {
    'a' <= c <= 'z' || '0' <= c <= '9' || c == '-' || c == '.' || c == ':'
}

/// Whether the characters of a text from an index on can stand in a segment of a
/// lowercase URL.
pub open spec fn plain_from(s: Seq<char>, i: int) -> bool
    decreases s.len() - i,
{
    0 <= i < s.len() ==> is_plain(s[i]) && plain_from(s, i + 1)
}

/// All characters from an index on are plain.
proof fn lemma_plain_from(s: Seq<char>, i: int)
    requires
        0 <= i,
        plain_from(s, i),
    ensures
        forall|j: int| i <= j < s.len() ==> is_plain(#[trigger] s[j]),
    decreases s.len() - i,
{
    if i < s.len() {
        lemma_plain_from(s, i + 1);
    }
}

/// A segment behind a slash is one more piece.
pub proof fn lemma_split_segment(s: Seq<char>, segment: Seq<char>)
    requires
        forall|i: int| 0 <= i < segment.len() ==> #[trigger] segment[i] != '/',
    ensures
        split_at(s.push('/') + segment, Separator::Char('/')) == split_at(
            s,
            Separator::Char('/'),
        ).push(segment),
        split_at(segment, Separator::Char('/')) == seq![segment],
    decreases segment.len(),
{
    let sep = Separator::Char('/');
    if segment.len() == 0 {
        assert(s.push('/') + segment =~= s.push('/'));
        assert(s.push('/').drop_last() =~= s);
        assert(segment =~= Seq::empty());
        assert(split_at(segment, sep) =~= seq![segment]);
    } else {
        let front = segment.drop_last();
        assert forall|i: int| 0 <= i < front.len() implies #[trigger] front[i] != '/' by {
            assert(front[i] == segment[i]);
        }
        lemma_split_segment(s, front);
        assert((s.push('/') + segment).drop_last() =~= s.push('/') + front);
        assert((s.push('/') + segment).last() == segment.last());
        assert(segment[segment.len() - 1] != '/');
        assert(front.push(segment.last()) =~= segment);
        assert(split_at(s, sep).push(front).update(split_at(s, sep).len() as int, segment)
            =~= split_at(s, sep).push(segment));
        assert(seq![front].update(0, segment) =~= seq![segment]);
    }
}

/// The path of a URL in front of its query and the slash before that.
pub open spec fn made_path(level: Seq<char>, faculty: Seq<char>, name: Seq<char>) -> Seq<char> {
    ((((("https:"@.push('/') + Seq::empty()).push('/') + "www.coventry.ac.uk"@).push('/')
        + "course-structure"@).push('/') + level).push('/') + faculty).push('/') + name
}

/// The segments of such a path.
proof fn lemma_made_segments(level: Seq<char>, faculty: Seq<char>, name: Seq<char>)
    requires
        level.len() > 0,
        faculty.len() > 0,
        name.len() > 0,
        plain_from(level, 0),
        plain_from(faculty, 0),
        plain_from(name, 0),
    ensures
        segments(made_path(level, faculty, name).push('/')) == seq![
            "https:"@,
            "www.coventry.ac.uk"@,
            "course-structure"@,
            level,
            faculty,
            name,
        ],
{
    let sep = Separator::Char('/');
    let none = Seq::<char>::empty();
    reveal_strlit("https:");
    reveal_strlit("www.coventry.ac.uk");
    reveal_strlit("course-structure");
    reveal_with_fuel(plain_from, 20);
    lemma_plain_from("https:"@, 0);
    lemma_plain_from("www.coventry.ac.uk"@, 0);
    lemma_plain_from("course-structure"@, 0);
    lemma_plain_from(level, 0);
    lemma_plain_from(faculty, 0);
    lemma_plain_from(name, 0);
    let s1 = "https:"@;
    let s2 = s1.push('/') + none;
    let s3 = s2.push('/') + "www.coventry.ac.uk"@;
    let s4 = s3.push('/') + "course-structure"@;
    let s5 = s4.push('/') + level;
    let s6 = s5.push('/') + faculty;
    let s7 = s6.push('/') + name;
    lemma_split_segment(none, s1);
    lemma_split_segment(s1, none);
    lemma_split_segment(s2, "www.coventry.ac.uk"@);
    lemma_split_segment(s3, "course-structure"@);
    lemma_split_segment(s4, level);
    lemma_split_segment(s5, faculty);
    lemma_split_segment(s6, name);
    reveal(Seq::filter);
    let w0 = Seq::<Seq<char>>::empty();
    assert(non_empty(w0) =~= w0);
    assert(seq![s1] =~= w0.push(s1));
    lemma_non_empty_push(w0, s1);
    lemma_non_empty_push(split_at(s1, sep), none);
    lemma_non_empty_push(split_at(s2, sep), "www.coventry.ac.uk"@);
    lemma_non_empty_push(split_at(s3, sep), "course-structure"@);
    lemma_non_empty_push(split_at(s4, sep), level);
    lemma_non_empty_push(split_at(s5, sep), faculty);
    lemma_non_empty_push(split_at(s6, sep), name);
    assert(s7.last() == name[name.len() - 1]);
    assert(s7.push('/').drop_last() =~= s7);
    assert(trim_end_char(s7, '/') == s7);
    assert(segments(s7.push('/')) =~= seq![
        "https:"@,
        "www.coventry.ac.uk"@,
        "course-structure"@,
        level,
        faculty,
        name,
    ]);
}

/// A course URL made of its level, its faculty and its slug, that names an intake year.
pub open spec fn made_url(level: Seq<char>, faculty: Seq<char>, name: Seq<char>) -> Seq<char> {
    made_path(level, faculty, name).push('/').push('?') + "term=2025-26"@
}

/// Whether the characters of a text from an index on can stand in a lowercase URL.
pub open spec fn lower_from(s: Seq<char>, i: int) -> bool
    decreases s.len() - i,
{
    0 <= i < s.len() ==> (is_plain(s[i]) || s[i] == '/' || s[i] == '?' || s[i] == '=')
        && lower_from(s, i + 1)
}

/// A lowercase URL is its own lowercase form.
proof fn lemma_lower_from(s: Seq<char>, i: int)
    requires
        0 <= i,
        lower_from(s, i),
    ensures
        forall|j: int|
            i <= j < s.len() ==> '\0' <= #[trigger] s[j] <= '\u{7f}' && ascii_lower(s[j]) == s[j],
    decreases s.len() - i,
{
    if i < s.len() {
        lemma_lower_from(s, i + 1);
    }
}

/// A URL that is made of a level, a faculty and a slug is that of a course page.
proof fn lemma_made_url(url: Seq<char>, level: Seq<char>, faculty: Seq<char>, name: Seq<char>)
    requires
        url == made_url(level, faculty, name),
        level.len() > 0,
        faculty.len() > 0,
        name.len() > 0,
        plain_from(level, 0),
        plain_from(faculty, 0),
        plain_from(name, 0),
        lower_from(url, 0),
        includes(url, "coventry.ac.uk"@),
        includes_any(url, structure_paths()),
    ensures
        course_url(url),
        slug(url) == name,
        has_term(url),
{
    let path = made_path(level, faculty, name).push('/');
    lemma_made_segments(level, faculty, name);
    lemma_lower_from(url, 0);
    assert(lower(url) =~= url);
    reveal_strlit("https:");
    reveal_strlit("www.coventry.ac.uk");
    reveal_strlit("course-structure");
    reveal_strlit("term=2025-26");
    reveal_strlit("?term=");
    reveal_with_fuel(plain_from, 20);
    lemma_plain_from("https:"@, 0);
    lemma_plain_from("www.coventry.ac.uk"@, 0);
    lemma_plain_from("course-structure"@, 0);
    lemma_plain_from(level, 0);
    lemma_plain_from(faculty, 0);
    lemma_plain_from(name, 0);
    let none = Seq::<char>::empty();
    let s1 = "https:"@;
    let s2 = s1.push('/') + none;
    let s3 = s2.push('/') + "www.coventry.ac.uk"@;
    let s4 = s3.push('/') + "course-structure"@;
    let s5 = s4.push('/') + level;
    let s6 = s5.push('/') + faculty;
    lemma_no_question(none, s1);
    assert(none + s1 =~= s1);
    lemma_no_question(s1.push('/'), none);
    lemma_no_question(s2.push('/'), "www.coventry.ac.uk"@);
    lemma_no_question(s3.push('/'), "course-structure"@);
    lemma_no_question(s4.push('/'), level);
    lemma_no_question(s5.push('/'), faculty);
    lemma_no_question(s6.push('/'), name);
    law_before_append(path, '?', "term=2025-26"@);
    lemma_no_index_end(url);
    let k = path.len() as int;
    assert(url.subrange(k, k + 6) =~= "?term="@);
    assert(occurs_at(url, "?term="@, k));
}

/// Plain characters add no question mark.
proof fn lemma_no_question(s: Seq<char>, segment: Seq<char>)
    requires
        !s.contains('?'),
        forall|i: int| 0 <= i < segment.len() ==> is_plain(#[trigger] segment[i]),
    ensures
        !(s + segment).contains('?'),
        !(s + segment).push('/').contains('?'),
{
    let t = s + segment;
    assert forall|i: int| 0 <= i < t.len() implies t[i] != '?' by {
        if i < s.len() {
            assert(s.contains(s[i]));
        } else {
            assert(is_plain(segment[i - s.len()]));
        }
    }
}

/// The first URL to fall back on.
#[verifier::spinoff_prover]
#[verifier::rlimit(80)]
proof fn lemma_first_url()
    ensures
        course_url(fallback_urls()[0]),
        slug(fallback_urls()[0]) == "international-business-management-msc"@,
        has_term(fallback_urls()[0]),
        "international-business-management-msc"@.len() == 37,
{
    let url = "https://www.coventry.ac.uk/course-structure/pg/bl/international-business-management-msc/?term=2025-26"@;
    reveal_strlit("https://www.coventry.ac.uk/course-structure/pg/bl/international-business-management-msc/?term=2025-26");
    reveal_strlit("https:");
    reveal_strlit("www.coventry.ac.uk");
    reveal_strlit("course-structure");
    reveal_strlit("pg");
    reveal_strlit("bl");
    reveal_strlit("international-business-management-msc");
    reveal_strlit("term=2025-26");
    reveal_strlit("coventry.ac.uk");
    reveal_strlit("/course-structure/pg/");
    let made = made_url("pg"@, "bl"@, "international-business-management-msc"@);
    reveal_with_fuel(same_from, 30);
    reveal_with_fuel(plain_from, 50);
    reveal_with_fuel(lower_from, 30);
    assert(same_from(url, made, 100) && lower_from(url, 100));
    assert(same_from(url, made, 75) && lower_from(url, 75));
    assert(same_from(url, made, 50) && lower_from(url, 50));
    assert(same_from(url, made, 25) && lower_from(url, 25));
    assert(url.take(0) =~= made.take(0));
    lemma_same_from(url, made, 0);
    let site = url.subrange(12, 26);
    assert(site.take(0) =~= "coventry.ac.uk"@.take(0));
    lemma_same_from(site, "coventry.ac.uk"@, 0);
    assert(occurs_at(url, "coventry.ac.uk"@, 12));
    let part = url.subrange(26, 47);
    assert(part.take(0) =~= "/course-structure/pg/"@.take(0));
    lemma_same_from(part, "/course-structure/pg/"@, 0);
    assert(occurs_at(url, "/course-structure/pg/"@, 26));
    assert(includes(url, structure_paths()[1]));
    lemma_made_url(url, "pg"@, "bl"@, "international-business-management-msc"@);
}

/// The second URL to fall back on.
#[verifier::spinoff_prover]
#[verifier::rlimit(80)]
proof fn lemma_second_url()
    ensures
        course_url(fallback_urls()[1]),
        slug(fallback_urls()[1]) == "data-science-and-computational-intelligence-msc"@,
        has_term(fallback_urls()[1]),
        "data-science-and-computational-intelligence-msc"@.len() == 47,
{
    let url = "https://www.coventry.ac.uk/course-structure/pg/ees/data-science-and-computational-intelligence-msc/?term=2025-26"@;
    reveal_strlit("https://www.coventry.ac.uk/course-structure/pg/ees/data-science-and-computational-intelligence-msc/?term=2025-26");
    reveal_strlit("https:");
    reveal_strlit("www.coventry.ac.uk");
    reveal_strlit("course-structure");
    reveal_strlit("pg");
    reveal_strlit("ees");
    reveal_strlit("data-science-and-computational-intelligence-msc");
    reveal_strlit("term=2025-26");
    reveal_strlit("coventry.ac.uk");
    reveal_strlit("/course-structure/pg/");
    let made = made_url("pg"@, "ees"@, "data-science-and-computational-intelligence-msc"@);
    reveal_with_fuel(same_from, 30);
    reveal_with_fuel(plain_from, 50);
    reveal_with_fuel(lower_from, 30);
    assert(same_from(url, made, 100) && lower_from(url, 100));
    assert(same_from(url, made, 75) && lower_from(url, 75));
    assert(same_from(url, made, 50) && lower_from(url, 50));
    assert(same_from(url, made, 25) && lower_from(url, 25));
    assert(url.take(0) =~= made.take(0));
    lemma_same_from(url, made, 0);
    let site = url.subrange(12, 26);
    assert(site.take(0) =~= "coventry.ac.uk"@.take(0));
    lemma_same_from(site, "coventry.ac.uk"@, 0);
    assert(occurs_at(url, "coventry.ac.uk"@, 12));
    let part = url.subrange(26, 47);
    assert(part.take(0) =~= "/course-structure/pg/"@.take(0));
    lemma_same_from(part, "/course-structure/pg/"@, 0);
    assert(occurs_at(url, "/course-structure/pg/"@, 26));
    assert(includes(url, structure_paths()[1]));
    lemma_made_url(url, "pg"@, "ees"@, "data-science-and-computational-intelligence-msc"@);
}

/// The third URL to fall back on.
#[verifier::spinoff_prover]
#[verifier::rlimit(80)]
proof fn lemma_third_url()
    ensures
        course_url(fallback_urls()[2]),
        slug(fallback_urls()[2]) == "accounting-and-financial-management-msc"@,
        has_term(fallback_urls()[2]),
        "accounting-and-financial-management-msc"@.len() == 39,
{
    let url = "https://www.coventry.ac.uk/course-structure/pg/cbl/accounting-and-financial-management-msc/?term=2025-26"@;
    reveal_strlit("https://www.coventry.ac.uk/course-structure/pg/cbl/accounting-and-financial-management-msc/?term=2025-26");
    reveal_strlit("https:");
    reveal_strlit("www.coventry.ac.uk");
    reveal_strlit("course-structure");
    reveal_strlit("pg");
    reveal_strlit("cbl");
    reveal_strlit("accounting-and-financial-management-msc");
    reveal_strlit("term=2025-26");
    reveal_strlit("coventry.ac.uk");
    reveal_strlit("/course-structure/pg/");
    let made = made_url("pg"@, "cbl"@, "accounting-and-financial-management-msc"@);
    reveal_with_fuel(same_from, 30);
    reveal_with_fuel(plain_from, 50);
    reveal_with_fuel(lower_from, 30);
    assert(same_from(url, made, 100) && lower_from(url, 100));
    assert(same_from(url, made, 75) && lower_from(url, 75));
    assert(same_from(url, made, 50) && lower_from(url, 50));
    assert(same_from(url, made, 25) && lower_from(url, 25));
    assert(url.take(0) =~= made.take(0));
    lemma_same_from(url, made, 0);
    let site = url.subrange(12, 26);
    assert(site.take(0) =~= "coventry.ac.uk"@.take(0));
    lemma_same_from(site, "coventry.ac.uk"@, 0);
    assert(occurs_at(url, "coventry.ac.uk"@, 12));
    let part = url.subrange(26, 47);
    assert(part.take(0) =~= "/course-structure/pg/"@.take(0));
    lemma_same_from(part, "/course-structure/pg/"@, 0);
    assert(occurs_at(url, "/course-structure/pg/"@, 26));
    assert(includes(url, structure_paths()[1]));
    lemma_made_url(url, "pg"@, "cbl"@, "accounting-and-financial-management-msc"@);
}

/// The fourth URL to fall back on.
#[verifier::spinoff_prover]
#[verifier::rlimit(80)]
proof fn lemma_fourth_url()
    ensures
        course_url(fallback_urls()[3]),
        slug(fallback_urls()[3]) == "computer-science-mscibsc-hons"@,
        has_term(fallback_urls()[3]),
        "computer-science-mscibsc-hons"@.len() == 29,
{
    let url = "https://www.coventry.ac.uk/course-structure/ug/eec/computer-science-mscibsc-hons/?term=2025-26"@;
    reveal_strlit("https://www.coventry.ac.uk/course-structure/ug/eec/computer-science-mscibsc-hons/?term=2025-26");
    reveal_strlit("https:");
    reveal_strlit("www.coventry.ac.uk");
    reveal_strlit("course-structure");
    reveal_strlit("ug");
    reveal_strlit("eec");
    reveal_strlit("computer-science-mscibsc-hons");
    reveal_strlit("term=2025-26");
    reveal_strlit("coventry.ac.uk");
    reveal_strlit("/course-structure/ug/");
    let made = made_url("ug"@, "eec"@, "computer-science-mscibsc-hons"@);
    reveal_with_fuel(same_from, 30);
    reveal_with_fuel(plain_from, 50);
    reveal_with_fuel(lower_from, 30);
    assert(same_from(url, made, 100) && lower_from(url, 100));
    assert(same_from(url, made, 75) && lower_from(url, 75));
    assert(same_from(url, made, 50) && lower_from(url, 50));
    assert(same_from(url, made, 25) && lower_from(url, 25));
    assert(url.take(0) =~= made.take(0));
    lemma_same_from(url, made, 0);
    let site = url.subrange(12, 26);
    assert(site.take(0) =~= "coventry.ac.uk"@.take(0));
    lemma_same_from(site, "coventry.ac.uk"@, 0);
    assert(occurs_at(url, "coventry.ac.uk"@, 12));
    let part = url.subrange(26, 47);
    assert(part.take(0) =~= "/course-structure/ug/"@.take(0));
    lemma_same_from(part, "/course-structure/ug/"@, 0);
    assert(occurs_at(url, "/course-structure/ug/"@, 26));
    assert(includes(url, structure_paths()[0]));
    lemma_made_url(url, "ug"@, "eec"@, "computer-science-mscibsc-hons"@);
}

/// The fifth URL to fall back on.
#[verifier::spinoff_prover]
#[verifier::rlimit(80)]
proof fn lemma_fifth_url()
    ensures
        course_url(fallback_urls()[4]),
        slug(fallback_urls()[4]) == "business-management-bsc-hons"@,
        has_term(fallback_urls()[4]),
        "business-management-bsc-hons"@.len() == 28,
{
    let url = "https://www.coventry.ac.uk/course-structure/ug/bl/business-management-bsc-hons/?term=2025-26"@;
    reveal_strlit("https://www.coventry.ac.uk/course-structure/ug/bl/business-management-bsc-hons/?term=2025-26");
    reveal_strlit("https:");
    reveal_strlit("www.coventry.ac.uk");
    reveal_strlit("course-structure");
    reveal_strlit("ug");
    reveal_strlit("bl");
    reveal_strlit("business-management-bsc-hons");
    reveal_strlit("term=2025-26");
    reveal_strlit("coventry.ac.uk");
    reveal_strlit("/course-structure/ug/");
    let made = made_url("ug"@, "bl"@, "business-management-bsc-hons"@);
    reveal_with_fuel(same_from, 30);
    reveal_with_fuel(plain_from, 50);
    reveal_with_fuel(lower_from, 30);
    assert(same_from(url, made, 100) && lower_from(url, 100));
    assert(same_from(url, made, 75) && lower_from(url, 75));
    assert(same_from(url, made, 50) && lower_from(url, 50));
    assert(same_from(url, made, 25) && lower_from(url, 25));
    assert(url.take(0) =~= made.take(0));
    lemma_same_from(url, made, 0);
    let site = url.subrange(12, 26);
    assert(site.take(0) =~= "coventry.ac.uk"@.take(0));
    lemma_same_from(site, "coventry.ac.uk"@, 0);
    assert(occurs_at(url, "coventry.ac.uk"@, 12));
    let part = url.subrange(26, 47);
    assert(part.take(0) =~= "/course-structure/ug/"@.take(0));
    lemma_same_from(part, "/course-structure/ug/"@, 0);
    assert(occurs_at(url, "/course-structure/ug/"@, 26));
    assert(includes(url, structure_paths()[0]));
    lemma_made_url(url, "ug"@, "bl"@, "business-management-bsc-hons"@);
}

/// The URLs to fall back on are those of five different courses, and name an intake
/// year.
pub proof fn law_fallback_urls_are_courses()
    ensures
        all_courses(fallback_urls()),
        distinct_slugs(fallback_urls()),
        forall|i: int| 0 <= i < fallback_urls().len() ==> has_term(#[trigger] fallback_urls()[i]),
{
    lemma_first_url();
    lemma_second_url();
    lemma_third_url();
    lemma_fourth_url();
    lemma_fifth_url();
}

} // verus!
