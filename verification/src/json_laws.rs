//! What is read off structured data.

use vstd::prelude::*;

use crate::dom::{ElementView, PageView};
use crate::duration::duration_text;
use crate::english::holds_english_score;
use crate::json::{json_document, member_from, JsonView};
use crate::layer1::{
    document_objects, filled_from_document, filled_from_json_ld, filled_from_object,
    filled_from_objects, filled_from_scripts, is_course_object, object_fee,
};
use crate::page::plain;
use crate::record_laws::{
    extends, lemma_extends_itself, lemma_extends_transitive, lemma_object_extends,
    lemma_object_settled, lemma_objects_extend,
};
use crate::schema::CourseView;
use crate::text::{
    cleaned, includes, lemma_non_empty_push, non_empty, split_at, trimmed, Separator,
};
use crate::text_laws::{law_cleaned_words, law_joined_without_separator, law_trimmed_solid};

verus! {

/// The member of an object with a key is the first one with that key, and there is none
/// where no member has it.
pub proof fn law_member(members: Seq<(Seq<char>, JsonView)>, key: Seq<char>, i: int)
    requires
        0 <= i <= members.len(),
        forall|j: int| 0 <= j < i ==> (#[trigger] members[j]).0 != key,
    ensures
        i < members.len() && members[i].0 == key ==> JsonView::Object(members).member(key) == Some(
            members[i].1,
        ),
        i == members.len() ==> JsonView::Object(members).member(key) is None,
{
    lemma_member_from(members, key, 0, i);
}

/// The first member with a key is found, from an index on.
proof fn lemma_member_from(
    members: Seq<(Seq<char>, JsonView)>,
    key: Seq<char>,
    from: int,
    i: int,
)
    requires
        0 <= from <= i <= members.len(),
        forall|j: int| from <= j < i ==> (#[trigger] members[j]).0 != key,
    ensures
        i < members.len() && members[i].0 == key ==> member_from(members, key, from) == Some(
            members[i].1,
        ),
        i == members.len() ==> member_from(members, key, from) is None,
    decreases i - from,
{
    if from < i {
        assert(members[from].0 != key);
        lemma_member_from(members, key, from + 1, i);
    }
}

/// What has no members has none with a key, and only a text has a text.
pub proof fn law_values_without_members(value: JsonView, key: Seq<char>, t: Seq<char>)
    ensures
        !(value is Object) ==> value.member(key) is None,
        value == JsonView::Text(t) ==> value.text() == Some(t),
        !(value is Text) ==> value.text() is None,
        value.member(key) == Some(JsonView::Text(t)) ==> value.text_member(key) == Some(t),
        !(value.member(key) matches Some(JsonView::Text(_))) ==> value.text_member(key) is None,
{
}

/// The name of a course is the `name` of its object, its white space normalised.
pub proof fn law_object_gives_name(obj: JsonView, v: CourseView, name: Seq<char>)
    requires
        v.program_course_name == "NA"@,
    ensures
        obj.member("name"@) == Some(JsonView::Text(name)) && cleaned(name).len() > 0
            ==> filled_from_object(obj, v).program_course_name == cleaned(name),
        !(obj.member("name"@) matches Some(JsonView::Text(_))) ==> filled_from_object(
            obj,
            v,
        ).program_course_name == "NA"@,
{
    lemma_cleaned_trimmed(name);
}

/// A text with normalised white space has none at its ends.
proof fn lemma_cleaned_trimmed(t: Seq<char>)
    ensures
        trimmed(cleaned(t)) == cleaned(t),
{
    law_cleaned_words(t);
    law_trimmed_solid(cleaned(t));
}

/// The study level is the `educationalLevel` of the object, or, where it has no such
/// member, its `educationalCredentialAwarded`.
pub proof fn law_object_gives_level(obj: JsonView, v: CourseView, level: Seq<char>)
    requires
        v.study_level == "NA"@,
        cleaned(level).len() > 0,
        !holds_english_score(cleaned(level)),
    ensures
        obj.member("educationalLevel"@) == Some(JsonView::Text(level)) ==> filled_from_object(
            obj,
            v,
        ).study_level == cleaned(level),
        obj.member("educationalLevel"@) is None && obj.member("educationalCredentialAwarded"@)
            == Some(JsonView::Text(level)) ==> filled_from_object(obj, v).study_level == cleaned(
            level,
        ),
        obj.member("educationalLevel"@) matches Some(other) && !(other is Text)
            ==> filled_from_object(obj, v).study_level == "NA"@,
        obj.member("educationalLevel"@) is None && !(obj.member("educationalCredentialAwarded"@)
            matches Some(JsonView::Text(_))) ==> filled_from_object(obj, v).study_level == "NA"@,
{
    lemma_cleaned_trimmed(level);
}

/// The duration is the `timeToComplete` of the object, in words.
pub proof fn law_object_gives_duration(obj: JsonView, v: CourseView, time: Seq<char>)
    requires
        v.course_duration == "NA"@,
        trimmed(duration_text(time)).len() > 0,
        !holds_english_score(duration_text(time)),
    ensures
        obj.member("timeToComplete"@) == Some(JsonView::Text(time)) ==> filled_from_object(
            obj,
            v,
        ).course_duration == trimmed(duration_text(time)),
        !(obj.member("timeToComplete"@) matches Some(JsonView::Text(_))) ==> filled_from_object(
            obj,
            v,
        ).course_duration == "NA"@,
{
}

/// Whether a value is an offer at a price: its `price`, or its `priceSpecification` where
/// it has no `price`.
pub open spec fn is_priced(offer: JsonView, price: Seq<char>) -> bool {
    ||| offer.member("price"@) == Some(JsonView::Text(price))
    ||| offer.member("price"@) is None && offer.member("priceSpecification"@) == Some(
        JsonView::Text(price),
    )
}

/// Whether a value is an offer without a price in words or digits.
pub open spec fn is_unpriced(offer: JsonView) -> bool {
    ||| offer.member("price"@) matches Some(other) && !(other is Text)
    ||| offer.member("price"@) is None && !(offer.member("priceSpecification"@) matches Some(
        JsonView::Text(_),
    ))
}

/// Whether an object makes an offer: under `offers`, by itself or first in a list.
pub open spec fn offers(obj: JsonView, offer: JsonView) -> bool {
    ||| !(offer is List) && obj.member("offers"@) == Some(offer)
    ||| obj.member("offers"@) matches Some(JsonView::List(list)) && list.len() > 0 && list[0]
        == offer
}

/// The fee of a course is the price of its offer behind the currency and a blank, the
/// currency being pounds where the offer names none. An offer by itself gives the same fee
/// as the first one of a list.
pub proof fn law_object_gives_fee(
    obj: JsonView,
    offer: JsonView,
    price: Seq<char>,
    currency: Seq<char>,
)
    requires
        offers(obj, offer),
        is_priced(offer, price),
    ensures
        offer.member("priceCurrency"@) == Some(JsonView::Text(currency)) ==> object_fee(obj)
            == Some(currency + " "@ + price),
        !(offer.member("priceCurrency"@) matches Some(JsonView::Text(_))) ==> object_fee(obj)
            == Some("GBP "@ + price),
{
    reveal_strlit(" ");
    reveal_strlit("GBP");
    reveal_strlit("GBP ");
    assert(" "@ =~= seq![' ']);
    assert("GBP"@ + seq![' '] =~= "GBP "@);
    match obj.member("offers"@)->0 {
        JsonView::List(list) => {},
        _ => {},
    }
}

/// A course object without an offer, or whose offer has no price, gives no fee.
pub proof fn law_object_without_fee(obj: JsonView, offer: JsonView)
    requires
        obj.member("offers"@) is None || obj.member("offers"@) == Some(
            JsonView::List(Seq::empty()),
        ) || (offers(obj, offer) && is_unpriced(offer)),
    ensures
        object_fee(obj) is None,
{
    match obj.member("offers"@) {
        Some(JsonView::List(list)) => {},
        _ => {},
    }
}

/// The fee that an object gives is recorded where there is none yet.
pub proof fn law_fee_is_recorded(obj: JsonView, v: CourseView)
    requires
        v.yearly_tuition_fee == "NA"@,
    ensures
        object_fee(obj) matches Some(fee) ==> (!holds_english_score(fee) && trimmed(fee).len() > 0
            ==> filled_from_object(obj, v).yearly_tuition_fee == trimmed(fee)),
        object_fee(obj) is None ==> filled_from_object(obj, v).yearly_tuition_fee == "NA"@,
{
}

/// Whether an object has a location: under `location`, or under `locationCreated` where it
/// has no `location`.
pub open spec fn located(obj: JsonView, place: JsonView) -> bool {
    ||| obj.member("location"@) == Some(place)
    ||| obj.member("location"@) is None && obj.member("locationCreated"@) == Some(place)
}

/// The campus is the `name` of the location, or its text where it is one.
pub proof fn law_object_gives_campus(
    obj: JsonView,
    v: CourseView,
    place: JsonView,
    name: Seq<char>,
)
    requires
        v.campus == "NA"@,
        located(obj, place),
        cleaned(name).len() > 0,
        !holds_english_score(cleaned(name)),
    ensures
        place.member("name"@) == Some(JsonView::Text(name)) ==> filled_from_object(obj, v).campus
            == cleaned(name),
        place == JsonView::Text(name) ==> filled_from_object(obj, v).campus == cleaned(name),
{
    lemma_cleaned_trimmed(name);
}

/// A location that is no text and has no name in words, and a course object without a
/// location, give no campus.
pub proof fn law_object_without_campus(obj: JsonView, v: CourseView, place: JsonView)
    requires
        v.campus == "NA"@,
        (obj.member("location"@) is None && obj.member("locationCreated"@) is None) || (located(
            obj,
            place,
        ) && !(place is Text) && !(place.member("name"@) matches Some(JsonView::Text(_)))),
    ensures
        filled_from_object(obj, v).campus == "NA"@,
{
    lemma_na();
}

/// The mark of a missing value is left as it is.
proof fn lemma_na()
    ensures
        cleaned("NA"@) == "NA"@,
        trimmed(crate::english::english_free("NA"@)) == "NA"@,
{
    reveal_strlit("NA");
    let s = "NA"@;
    assert(s =~= seq!['N', 'A']);
    let sep = Separator::Space;
    reveal_with_fuel(split_at, 3);
    let one = s.drop_last();
    assert(one.drop_last() =~= Seq::<char>::empty());
    assert(split_at(one, sep) =~= seq![seq!['N']]);
    assert(seq!['N'].push('A') =~= s);
    assert(split_at(s, sep) =~= seq![seq!['N'].push('A')]);
    reveal(Seq::filter);
    lemma_non_empty_push(Seq::empty(), s);
    assert(Seq::<Seq<char>>::empty().push(s) =~= seq![s]);
    assert(non_empty(Seq::empty()) =~= Seq::empty());
    assert(non_empty(seq![s]) =~= seq![s]);
    crate::english_laws::lemma_no_digits_no_score(s);
    law_trimmed_solid(s);
}

/// A course object is one whose type names a course or a programme.
pub proof fn law_course_objects(obj: JsonView, t: Seq<char>)
    ensures
        obj.member("@type"@) == Some(JsonView::Text(t)) ==> is_course_object(obj) == (includes(
            t,
            "Course"@,
        ) || includes(t, "EducationalOccupationalProgram"@)),
        !(obj.member("@type"@) matches Some(JsonView::Text(_))) ==> !is_course_object(obj),
{
}

/// The objects of a document are the items of its `@graph`; a document without one is its
/// only object.
pub proof fn law_objects_of_a_document(doc: JsonView, items: Seq<JsonView>)
    ensures
        doc.member("@graph"@) == Some(JsonView::List(items)) ==> document_objects(doc) == items,
        doc.member("@graph"@) is None ==> document_objects(doc) == seq![doc],
        doc.member("@graph"@) matches Some(other) && !(other is List) ==> document_objects(
            doc,
        ).len() == 0,
{
}

/// Every course object among several ones is read: afterwards none of them has anything
/// left to fill.
pub proof fn law_every_course_object_is_read(list: Seq<JsonView>, v: CourseView, i: int)
    requires
        0 <= i < list.len(),
        is_course_object(list[i]),
    ensures
        filled_from_object(list[i], filled_from_objects(list, v)) == filled_from_objects(list, v),
    decreases list.len(),
{
    let front = list.drop_last();
    let before = filled_from_objects(front, v);
    let w = filled_from_objects(list, v);
    if i == list.len() - 1 {
        lemma_extends_itself(w);
        lemma_object_settled(list[i], before, w);
    } else {
        law_every_course_object_is_read(front, v, i);
        assert(front[i] == list[i]);
        lemma_object_extends(list.last(), before);
        lemma_extends_itself(w);
        assert(extends(before, w));
        assert(filled_from_object(list[i], before) == before);
        lemma_object_settled(list[i], before, w);
    }
}

/// The first course object comes first: what it fills stays, whatever objects follow, and
/// objects that are no courses fill nothing.
pub proof fn law_first_course_object_comes_first(list: Seq<JsonView>, v: CourseView, i: int)
    requires
        0 <= i <= list.len(),
        forall|j: int| 0 <= j < i ==> !is_course_object(#[trigger] list[j]),
    ensures
        i < list.len() && is_course_object(list[i]) ==> extends(
            filled_from_object(list[i], v),
            filled_from_objects(list, v),
        ),
        i == list.len() ==> filled_from_objects(list, v) == v,
    decreases list.len(),
{
    if list.len() > 0 {
        let front = list.drop_last();
        let before = filled_from_objects(front, v);
        if i == list.len() {
            assert(!is_course_object(list[i - 1]));
            assert forall|j: int| 0 <= j < i - 1 implies !is_course_object(#[trigger] front[j]) by {
                assert(!is_course_object(list[j]));
            }
            law_first_course_object_comes_first(front, v, i - 1);
        } else {
            assert forall|j: int| 0 <= j < i implies !is_course_object(#[trigger] front[j]) by {
                assert(!is_course_object(list[j]));
            }
            law_first_course_object_comes_first(front, v, i);
            if i == list.len() - 1 {
                lemma_extends_itself(filled_from_objects(list, v));
            } else if is_course_object(list[i]) {
                assert(front[i] == list[i]);
                lemma_object_extends(list.last(), before);
                lemma_extends_itself(before);
                lemma_extends_transitive(
                    filled_from_object(list[i], v),
                    before,
                    filled_from_objects(list, v),
                );
            }
        }
    }
}

/// Every course object of every script of a list is read.
proof fn lemma_every_script(list: Seq<ElementView>, v: CourseView, i: int, k: int, doc: JsonView)
    requires
        0 <= i < list.len(),
        json_document(list[i].text.flatten()) == Some(doc),
        0 <= k < document_objects(doc).len(),
        is_course_object(document_objects(doc)[k]),
    ensures
        filled_from_object(document_objects(doc)[k], filled_from_scripts(list, v))
            == filled_from_scripts(list, v),
    decreases list.len(),
{
    let front = list.drop_last();
    let before = filled_from_scripts(front, v);
    let w = filled_from_scripts(list, v);
    let obj = document_objects(doc)[k];
    law_joined_without_separator(list[i].text);
    if i == list.len() - 1 {
        law_every_course_object_is_read(document_objects(doc), before, k);
    } else {
        lemma_every_script(front, v, i, k, doc);
        lemma_extends_itself(before);
        match json_document(plain(list.last())) {
            Some(last) => {
                lemma_objects_extend(document_objects(last), before);
            },
            None => {},
        }
        assert(filled_from_object(obj, before) == before);
        lemma_object_settled(obj, before, w);
    }
}

/// Every course object of every JSON-LD script of a page is read: afterwards none of them
/// has anything left to fill.
pub proof fn law_every_script_is_read(page: PageView, v: CourseView, i: int, k: int, doc: JsonView)
    requires
        0 <= i < page.select("script[type='application/ld+json']"@).len(),
        json_document(page.select("script[type='application/ld+json']"@)[i].text.flatten()) == Some(
            doc,
        ),
        0 <= k < document_objects(doc).len(),
        is_course_object(document_objects(doc)[k]),
    ensures
        filled_from_object(document_objects(doc)[k], filled_from_json_ld(page, v))
            == filled_from_json_ld(page, v),
{
    lemma_every_script(page.select("script[type='application/ld+json']"@), v, i, k, doc);
}

/// What the first script of a list that can be read fills stays.
proof fn lemma_first_script(list: Seq<ElementView>, v: CourseView, i: int)
    requires
        0 <= i <= list.len(),
        forall|j: int| 0 <= j < i ==> json_document((#[trigger] list[j]).text.flatten()) is None,
    ensures
        i < list.len() ==> extends(
            filled_from_document(json_document(list[i].text.flatten()), v),
            filled_from_scripts(list, v),
        ),
        i == list.len() ==> filled_from_scripts(list, v) == v,
    decreases list.len(),
{
    if list.len() > 0 {
        let front = list.drop_last();
        let before = filled_from_scripts(front, v);
        let w = filled_from_scripts(list, v);
        let last = list.len() - 1;
        law_joined_without_separator(list.last().text);
        if i == list.len() {
            assert(json_document(list[last].text.flatten()) is None);
            assert forall|j: int| 0 <= j < last implies json_document(
                (#[trigger] front[j]).text.flatten(),
            ) is None by {
                assert(json_document(list[j].text.flatten()) is None);
            }
            lemma_first_script(front, v, last);
        } else {
            assert forall|j: int| 0 <= j < i implies json_document(
                (#[trigger] front[j]).text.flatten(),
            ) is None by {
                assert(json_document(list[j].text.flatten()) is None);
            }
            lemma_first_script(front, v, i);
            if i == last {
                lemma_extends_itself(w);
            } else {
                assert(front[i] == list[i]);
                match json_document(plain(list.last())) {
                    Some(doc) => {
                        lemma_objects_extend(document_objects(doc), before);
                    },
                    None => {
                        lemma_extends_itself(before);
                    },
                }
                lemma_extends_transitive(
                    filled_from_document(json_document(list[i].text.flatten()), v),
                    before,
                    w,
                );
            }
        }
    }
}

/// The first JSON-LD script that can be read comes first: what its course objects fill
/// stays. A page without one leaves the record as it is.
pub proof fn law_first_script_comes_first(
    page: PageView,
    v: CourseView,
    scripts: Seq<ElementView>,
    i: int,
)
    requires
        scripts == page.select("script[type='application/ld+json']"@),
        0 <= i <= scripts.len(),
        forall|j: int| 0 <= j < i ==> json_document((#[trigger] scripts[j]).text.flatten()) is None,
    ensures
        i < scripts.len() ==> (json_document(scripts[i].text.flatten()) matches Some(doc)
            ==> extends(
            filled_from_objects(document_objects(doc), v),
            filled_from_json_ld(page, v),
        )),
        i == scripts.len() ==> filled_from_json_ld(page, v) == v,
{
    lemma_first_script(scripts, v, i);
}

/// A course object fills no more than the name, the campus, the study level, the duration
/// and the fee.
pub proof fn law_object_fills_five_fields(obj: JsonView, v: CourseView)
    ensures
        ({
            let w = filled_from_object(obj, v);
            w == (CourseView {
                program_course_name: w.program_course_name,
                campus: w.campus,
                study_level: w.study_level,
                course_duration: w.course_duration,
                yearly_tuition_fee: w.yearly_tuition_fee,
                ..v
            })
        }),
{
}

} // verus!
