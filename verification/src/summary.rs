//! What a run reports of the records that it collected.

use vstd::prelude::*;

use crate::number::{decimal, to_decimal};
use crate::schema::{CourseData, CourseView};
use crate::text::{join, joined, texts};

verus! {

/// The views of several records.
pub open spec fn course_views(list: Seq<CourseData>) -> Seq<CourseView> {
    list.map_values(|c: CourseData| c@)
}

/// The number of fields filled over several records.
pub open spec fn filled_total(courses: Seq<CourseView>) -> nat
    decreases courses.len(),
{
    if courses.len() == 0 {
        0
    } else {
        filled_total(courses.drop_last()) + courses.last().filled()
    }
}

/// What is reported of one record: the course name and how many fields are filled.
pub open spec fn course_line(course: CourseView) -> Seq<char> {
    course.program_course_name + " ("@ + decimal(course.filled()) + "/"@ + decimal(
        CourseData::FIELD_COUNT as nat,
    ) + ")"@
}

/// What is reported of several records.
pub open spec fn course_lines(courses: Seq<CourseView>) -> Seq<char> {
    joined(courses.map_values(|c: CourseView| course_line(c)), ", "@)
}

/// Keeps a record if its course name was found, and says whether it did.
pub fn keep_valid(courses: &mut Vec<CourseData>, data: CourseData) -> (result: bool)
    ensures
        result == data@.valid(),
        final(courses)@ == if data@.valid() {
            old(courses)@.push(data)
        } else {
            old(courses)@
        },
{
    let valid: bool = data.is_valid();
    if valid {
        courses.push(data);
    }
    valid
}

/// How many fields several records have, and how many of them are filled and `NA`.
pub struct Totals {
    pub fields: usize,
    pub filled: usize,
    pub na: usize,
}

/// Counts the fields of several records.
pub fn totals(courses: &Vec<CourseData>) -> (result: Totals)
    requires
        courses@.len() * CourseData::FIELD_COUNT <= usize::MAX,
    ensures
        result.fields == courses@.len() * CourseData::FIELD_COUNT,
        result.filled == filled_total(course_views(courses@)),
        result.na == result.fields - result.filled,
{
    let ghost all = course_views(courses@);
    let n: usize = courses.len();
    let mut filled: usize = 0;
    let mut na: usize = 0;
    let mut i: usize = 0;
    assert(all.take(0) =~= Seq::empty());
    while i < n
        invariant
            i <= n,
            n == courses@.len(),
            n * CourseData::FIELD_COUNT <= usize::MAX,
            all == course_views(courses@),
            filled == filled_total(all.take(i as int)),
            filled + na == i * CourseData::FIELD_COUNT,
        decreases n - i,
    {
        assert(all.take(i + 1).drop_last() =~= all.take(i as int));
        assert(all.take(i + 1).last() == courses@[i as int]@);
        let more: usize = courses[i].fill_rate();
        let less: usize = courses[i].na_count();
        filled = filled + more;
        na = na + less;
        i += 1;
    }
    assert(all.take(i as int) =~= all);
    Totals { fields: n * CourseData::FIELD_COUNT, filled, na }
}

/// Reports the course name of each record and how many of its fields are filled.
pub fn per_course(courses: &Vec<CourseData>) -> (result: String)
    ensures
        result@ == course_lines(course_views(courses@)),
{
    let ghost all = course_views(courses@);
    let ghost lines_all = all.map_values(|c: CourseView| course_line(c));
    let mut lines: Vec<String> = Vec::new();
    let mut i: usize = 0;
    while i < courses.len()
        invariant
            i <= courses@.len(),
            all == course_views(courses@),
            lines_all == all.map_values(|c: CourseView| course_line(c)),
            texts(lines@) =~= lines_all.take(i as int),
        decreases courses@.len() - i,
    {
        let mut line: String = courses[i].program_course_name.clone();
        line.append(" (");
        line.append(to_decimal(courses[i].fill_rate() as u64).as_str());
        line.append("/");
        line.append(to_decimal(CourseData::FIELD_COUNT as u64).as_str());
        line.append(")");
        let ghost done = texts(lines@);
        let ghost t = line@;
        assert(t == course_line(all[i as int]));
        lines.push(line);
        assert(texts(lines@) =~= done.push(t));
        i += 1;
    }
    assert(lines_all.take(i as int) =~= lines_all);
    join(&lines, ", ")
}

} // verus!
