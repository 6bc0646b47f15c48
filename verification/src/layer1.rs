//! Layer 1: filling a record from JSON-LD structured data.

use vstd::prelude::*;

use crate::dom::{element_views, Dom, Element, ElementView, PageView};
use crate::duration::{duration_text, parse_iso_duration};
use crate::fields::{fill, fill_other, set_if_na, set_other_if_na};
use crate::json::{json_document, lemma_list_view, parse_json, Json, JsonView};
use crate::page::{plain, plain_text};
use crate::schema::{CourseData, CourseView, NA};
use crate::text::{clean, cleaned, contains, includes, optional};

verus! {

/// The selector of the JSON-LD scripts of a page.
pub const JSON_LD_SELECTOR: &'static str = "script[type='application/ld+json']";

/// The currency of a price that names none.
pub const DEFAULT_CURRENCY: &'static str = "GBP";

/// The value of the first of two members that an object has.
pub open spec fn either_member(obj: JsonView, first: Seq<char>, second: Seq<char>) -> Option<
    JsonView,
> {
    match obj.member(first) {
        Some(value) => Some(value),
        None => obj.member(second),
    }
}

/// The text of the first of two members that an object has.
pub open spec fn either_text(obj: JsonView, first: Seq<char>, second: Seq<char>) -> Option<
    Seq<char>,
> {
    match either_member(obj, first, second) {
        Some(value) => value.text(),
        None => None,
    }
}

/// An optional text with its white space normalised.
pub open spec fn cleaned_text(t: Option<Seq<char>>) -> Option<Seq<char>> {
    match t {
        Some(t) => Some(cleaned(t)),
        None => None,
    }
}

/// The duration that a course object states.
pub open spec fn object_duration(obj: JsonView) -> Option<Seq<char>> {
    match obj.text_member("timeToComplete"@) {
        Some(t) => Some(duration_text(t)),
        None => None,
    }
}

/// The price that an offer states, with its currency.
pub open spec fn offer_price(offer: JsonView) -> Option<Seq<char>> {
    match either_text(offer, "price"@, "priceSpecification"@) {
        Some(price) => {
            let currency = match offer.text_member("priceCurrency"@) {
                Some(currency) => currency,
                None => DEFAULT_CURRENCY@,
            };
            Some(currency + seq![' '] + price)
        },
        None => None,
    }
}

/// The fee that a course object states: the price of its offer, the first one
/// where there are several.
pub open spec fn object_fee(obj: JsonView) -> Option<Seq<char>> {
    match obj.member("offers"@) {
        Some(JsonView::List(offers)) => if offers.len() > 0 {
            offer_price(offers[0])
        } else {
            None
        },
        Some(offer) => offer_price(offer),
        None => None,
    }
}

/// The name of a location: its `name`, or else its own text, or else `NA`.
pub open spec fn location_name(location: JsonView) -> Seq<char> {
    match location.text_member("name"@) {
        Some(name) => name,
        None => match location.text() {
            Some(t) => t,
            None => NA@,
        },
    }
}

/// The campus that a course object states.
pub open spec fn object_campus(obj: JsonView) -> Option<Seq<char>> {
    match either_member(obj, "location"@, "locationCreated"@) {
        Some(location) => Some(cleaned(location_name(location))),
        None => None,
    }
}

/// A record after the fields that are still `NA` were filled from a course object.
pub open spec fn filled_from_object(obj: JsonView, v: CourseView) -> CourseView {
    CourseView {
        program_course_name: fill(
            v.program_course_name,
            cleaned_text(obj.text_member("name"@)),
        ),
        study_level: fill_other(
            v.study_level,
            cleaned_text(either_text(obj, "educationalLevel"@, "educationalCredentialAwarded"@)),
        ),
        course_duration: fill_other(v.course_duration, object_duration(obj)),
        yearly_tuition_fee: fill_other(v.yearly_tuition_fee, object_fee(obj)),
        campus: fill_other(v.campus, object_campus(obj)),
        ..v
    }
}

/// Whether an object describes a course.
pub open spec fn is_course_object(obj: JsonView) -> bool {
    match obj.text_member("@type"@) {
        Some(t) => includes(t, "Course"@) || includes(t, "EducationalOccupationalProgram"@),
        None => false,
    }
}

/// The objects of a JSON-LD document: the items of its graph, or else itself.
pub open spec fn document_objects(doc: JsonView) -> Seq<JsonView> {
    match doc.member("@graph"@) {
        Some(JsonView::List(items)) => items,
        Some(_) => Seq::empty(),
        None => seq![doc],
    }
}

/// A record after it was filled from the course objects among several objects, one
/// after the other.
pub open spec fn filled_from_objects(list: Seq<JsonView>, v: CourseView) -> CourseView
    decreases list.len(),
{
    if list.len() == 0 {
        v
    } else {
        let before = filled_from_objects(list.drop_last(), v);
        if is_course_object(list.last()) {
            filled_from_object(list.last(), before)
        } else {
            before
        }
    }
}

/// A record after it was filled from a JSON-LD document, if there is one.
pub open spec fn filled_from_document(doc: Option<JsonView>, v: CourseView) -> CourseView {
    match doc {
        Some(doc) => filled_from_objects(document_objects(doc), v),
        None => v,
    }
}

/// A record after it was filled from several scripts, one after the other.
pub open spec fn filled_from_scripts(list: Seq<ElementView>, v: CourseView) -> CourseView
    decreases list.len(),
{
    if list.len() == 0 {
        v
    } else {
        filled_from_document(
            json_document(plain(list.last())),
            filled_from_scripts(list.drop_last(), v),
        )
    }
}

/// A record after the fields that are still `NA` were filled from the JSON-LD data
/// of a page.
pub open spec fn filled_from_json_ld(page: PageView, v: CourseView) -> CourseView {
    filled_from_scripts(page.select(JSON_LD_SELECTOR@), v)
}

/// The value of the first of two members that an object has.
fn get_either<'a>(obj: &'a Json, first: &str, second: &str) -> (result: Option<&'a Json>)
    ensures
        match result {
            Some(value) => either_member(obj@, first@, second@) == Some(value@),
            None => either_member(obj@, first@, second@) is None,
        },
{
    match obj.get(first) {
        Some(value) => Some(value),
        None => obj.get(second),
    }
}

/// The text of the first of two members that an object has.
fn get_either_text<'a>(obj: &'a Json, first: &str, second: &str) -> (result: Option<&'a String>)
    ensures
        match result {
            Some(t) => either_text(obj@, first@, second@) == Some(t@),
            None => either_text(obj@, first@, second@) is None,
        },
{
    match get_either(obj, first, second) {
        Some(value) => value.as_text(),
        None => None,
    }
}

/// An optional text with its white space normalised.
fn clean_text(t: Option<&String>) -> (result: Option<String>)
    ensures
        optional(result) == cleaned_text(
            match t {
                Some(t) => Some(t@),
                None => None,
            },
        ),
{
    match t {
        Some(t) => Some(clean(t.as_str())),
        None => None,
    }
}

/// The price that an offer states, with its currency.
fn read_price(offer: &Json) -> (result: Option<String>)
    ensures
        optional(result) == offer_price(offer@),
{
    match get_either_text(offer, "price", "priceSpecification") {
        Some(price) => {
            let mut text: String = match offer.get_text("priceCurrency") {
                Some(currency) => currency.clone(),
                None => DEFAULT_CURRENCY.to_string(),
            };
            text.push(' ');
            text.append(price.as_str());
            assert(text@ =~= offer_price(offer@)->0);
            Some(text)
        },
        None => None,
    }
}

/// The fee that a course object states.
fn read_offer(obj: &Json) -> (result: Option<String>)
    ensures
        optional(result) == object_fee(obj@),
{
    match obj.get("offers") {
        Some(offers) => {
            match offers {
                Json::List(list) => {
                    proof {
                        lemma_list_view(*offers, *list);
                    }
                    if list.len() > 0 {
                        assert(offers@->List_0[0] == list@[0]@);
                        read_price(&list[0])
                    } else {
                        None
                    }
                },
                _ => read_price(offers),
            }
        },
        None => None,
    }
}

/// The campus that a course object states.
fn read_location(obj: &Json) -> (result: Option<String>)
    ensures
        optional(result) == object_campus(obj@),
{
    match get_either(obj, "location", "locationCreated") {
        Some(location) => match location.get_text("name") {
            Some(name) => Some(clean(name.as_str())),
            None => match location.as_text() {
                Some(t) => Some(clean(t.as_str())),
                None => Some(clean(NA)),
            },
        },
        None => None,
    }
}

/// Fills the fields of a record that are still `NA` from a course object.
pub fn parse_json_ld_course(obj: &Json, data: &mut CourseData)
    ensures
        final(data)@ == filled_from_object(obj@, old(data)@),
{
    set_if_na(&mut data.program_course_name, clean_text(obj.get_text("name")));
    set_other_if_na(
        &mut data.study_level,
        clean_text(get_either_text(obj, "educationalLevel", "educationalCredentialAwarded")),
    );
    let duration: Option<String> = match obj.get_text("timeToComplete") {
        Some(t) => Some(parse_iso_duration(t.as_str())),
        None => None,
    };
    set_other_if_na(&mut data.course_duration, duration);
    set_other_if_na(&mut data.yearly_tuition_fee, read_offer(obj));
    set_other_if_na(&mut data.campus, read_location(obj));
}

/// Fills a record from an object if it describes a course.
fn apply_object(obj: &Json, data: &mut CourseData)
    ensures
        final(data)@ == (if is_course_object(obj@) {
            filled_from_object(obj@, old(data)@)
        } else {
            old(data)@
        }),
{
    match obj.get_text("@type") {
        Some(t) => {
            if contains(t.as_str(), "Course") || contains(
                t.as_str(),
                "EducationalOccupationalProgram",
            ) {
                parse_json_ld_course(obj, data);
            }
        },
        None => {},
    }
}

/// Fills a record from the course objects of a JSON-LD document, which is an object
/// or holds several under `@graph`.
pub fn apply_json_ld(doc: &Json, data: &mut CourseData)
    ensures
        final(data)@ == filled_from_objects(document_objects(doc@), old(data)@),
{
    let ghost start = data@;
    match doc.get("@graph") {
        Some(graph) => match graph {
            Json::List(items) => {
                proof {
                    lemma_list_view(*graph, *items);
                }
                let ghost list = graph@->List_0;
                let mut i: usize = 0;
                assert(list.take(0) =~= Seq::empty());
                while i < items.len()
                    invariant
                        i <= items@.len() == list.len(),
                        forall|j: int| 0 <= j < list.len() ==> #[trigger] list[j] == items@[j]@,
                        data@ == filled_from_objects(list.take(i as int), start),
                    decreases items@.len() - i,
                {
                    assert(list.take(i + 1).drop_last() =~= list.take(i as int));
                    assert(list.take(i + 1).last() == items@[i as int]@);
                    apply_object(&items[i], data);
                    i += 1;
                }
                assert(list.take(i as int) =~= list);
            },
            _ => {},
        },
        None => {
            assert(document_objects(doc@).drop_last() =~= Seq::empty());
            assert(filled_from_objects(document_objects(doc@).drop_last(), start) == start);
            apply_object(doc, data);
        },
    }
}

/// Fills the fields of a record that are still `NA` from the JSON-LD data of a page.
pub fn layer1_json_ld<D: Dom>(doc: &D, data: &mut CourseData)
    ensures
        final(data)@ == filled_from_json_ld(doc.page(), old(data)@),
{
    let scripts: Vec<Element> = doc.select(JSON_LD_SELECTOR);
    let ghost list = element_views(scripts@);
    let ghost start = data@;
    let mut i: usize = 0;
    assert(list.take(0) =~= Seq::empty());
    while i < scripts.len()
        invariant
            i <= scripts@.len() == list.len(),
            list == element_views(scripts@),
            data@ == filled_from_scripts(list.take(i as int), start),
        decreases scripts@.len() - i,
    {
        assert(list.take(i + 1).drop_last() =~= list.take(i as int));
        assert(list.take(i + 1).last() == scripts@[i as int]@);
        match parse_json(plain_text(&scripts[i]).as_str()) {
            Some(json) => apply_json_ld(&json, data),
            None => {},
        }
        i += 1;
    }
    assert(list.take(i as int) =~= list);
}

} // verus!
